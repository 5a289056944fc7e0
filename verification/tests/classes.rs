//! Whole hierarchies: classes are declared, generated and registered, the
//! layouts are measured, and virtual calls are followed to the
//! implementation they reach.

use vtable_gen::bases::SecondaryBase;
use vtable_gen::class::{generate_class, ClassPlan};
use vtable_gen::ctor::{
    CallArg, Constructor, Edit, FieldInit, Init, Instantiation, Statement,
};
use vtable_gen::decl::{
    Attr, BaseClasses, BasePath, ClassBody, CppDef, Field, GenVTable, GenericParam, ItemClass,
    Param, ParamKind, Receiver, Virtual, VirtualIndex,
};
use vtable_gen::generic_base::{monomorphize, GenericBase};
use vtable_gen::hierarchy::{Binding, Hierarchy};
use vtable_gen::layout::{struct_extent, Extent, LayoutField};
use vtable_gen::slots::Slot;
use vtable_gen::vtable::TableField;

fn s(text: &str) -> String {
    text.to_string()
}

fn attr(name: &str, args: &[&str]) -> Attr {
    Attr { name: s(name), args: args.iter().map(|a| s(a)).collect() }
}

fn field(name: &str, ty: &str) -> Field {
    Field { name: s(name), ty: s(ty) }
}

fn type_param(ident: &str) -> GenericParam {
    GenericParam { kind: ParamKind::Type, ident: s(ident), bounds: vec![s("Default")] }
}

fn const_param(ident: &str) -> GenericParam {
    GenericParam { kind: ParamKind::Const, ident: s(ident), bounds: vec![s("u32")] }
}

fn base(ident: &str, args: &[&str]) -> BasePath {
    BasePath { leading: vec![], ident: s(ident), args: args.iter().map(|a| s(a)).collect() }
}

fn virt(index: Option<usize>, abi: Option<&str>, name: &str, params: &[(&str, &str)], output: &str) -> Virtual {
    Virtual {
        index: VirtualIndex { idx: index },
        attrs: vec![],
        vis: s(""),
        unsafety: false,
        abi: abi.map(s),
        name: s(name),
        receiver: Receiver::Shared,
        params: params.iter().map(|(n, t)| Param { name: Some(s(n)), ty: s(t) }).collect(),
        output: Some(s(output)),
    }
}

fn class(
    attrs: Vec<Attr>,
    ident: &str,
    generics: Vec<GenericParam>,
    bases: Vec<BasePath>,
    fields: Vec<Field>,
    virtuals: Vec<Virtual>,
) -> ItemClass {
    ItemClass {
        attrs,
        vis: s(""),
        ident: s(ident),
        generics,
        bases: BaseClasses { bases },
        body: ClassBody { fields, virtuals },
    }
}

/// `fn new(params) -> Self { Self { fields } }`
fn new_ctor(params: &[(&str, &str)], fields: &[(&str, Init)]) -> Constructor {
    Constructor {
        name: s("new"),
        params: params.iter().map(|(n, t)| Param { name: Some(s(n)), ty: s(t) }).collect(),
        body: vec![Statement::Instantiation(Instantiation {
            target: s("Self"),
            fields: fields
                .iter()
                .map(|(n, i)| FieldInit { name: Some(s(n)), init: *i })
                .collect(),
        })],
    }
}

fn derive_default() -> Vec<Attr> {
    vec![attr("derive", &["Debug", "Default"])]
}

fn fastcall_func() -> Virtual {
    virt(Some(1), Some("fastcall"), "func", &[("a", "u32"), ("b", "f32")], "usize")
}

struct World {
    h: Hierarchy,
    defs: Vec<ItemClass>,
    plans: Vec<ClassPlan>,
}

impl World {
    fn new() -> World {
        World { h: Hierarchy::new(), defs: vec![], plans: vec![] }
    }

    fn add(
        &mut self,
        def: ItemClass,
        ctors: Vec<Constructor>,
        additional: Vec<SecondaryBase>,
        options: Option<GenVTable>,
    ) -> usize {
        let def = CppDef { class: def, new_impl: if ctors.is_empty() { None } else { Some(ctors) } };
        let plan = generate_class(&def, &additional, options).expect("the class generates");
        let again = generate_class(&def, &additional, options).expect("it generates twice");
        assert_eq!(plan, again);
        let def = def.class;
        let idx = self.h.add_class(&def, &additional).expect("the class registers");
        assert_eq!(idx, self.defs.len());
        self.defs.push(def);
        self.plans.push(plan);
        idx
    }

    fn type_size(ty: &str) -> (usize, usize) {
        match ty {
            "u32" | "f32" | "T" | "U" => (4, 4),
            other => panic!("no size for {other}"),
        }
    }

    /// Size and alignment of the object under the C layout rules.
    fn extent(&self, idx: usize) -> Extent {
        let def = &self.defs[idx];
        let fields: Vec<Extent> = self.plans[idx]
            .layout
            .fields
            .iter()
            .map(|f| match f {
                LayoutField::VTablePointer => Extent {
                    size: std::mem::size_of::<usize>(),
                    align: std::mem::align_of::<usize>(),
                },
                LayoutField::Base { base } => {
                    let b = self.h.find_class(&def.bases.bases[*base].ident).expect("a known base");
                    self.extent(b)
                }
                LayoutField::Own { field } => {
                    let (size, align) = World::type_size(&def.body.fields[*field].ty);
                    Extent { size, align }
                }
            })
            .collect();
        struct_extent(&fields).expect("a layout")
    }

    fn size_of(&self, idx: usize) -> usize {
        self.extent(idx).size
    }

    /// Size of the table: every field is one function pointer, the marker
    /// takes no room.
    fn vtable_size(&self, idx: usize) -> usize {
        self.h.vtable_len(idx) * std::mem::size_of::<usize>()
    }

    /// The implementation that a call of `method` reaches on an object of
    /// the class `dynamic`, through the part at `path`: the implementor, the
    /// interface and the method.
    fn call(&self, dynamic: usize, path: &[usize], method: &str) -> (String, String, String) {
        let mut at = dynamic;
        for step in path {
            at = self.h.find_class(&self.defs[at].bases.bases[*step].ident).expect("a known base");
        }
        let virt = self.defs[at]
            .body
            .virtuals
            .iter()
            .position(|v| v.name == method)
            .expect("a declared virtual");
        match self.h.dispatch(dynamic, &path.to_vec(), virt) {
            Some(Binding::Bound { implementor, interface, virt }) => (
                self.defs[implementor].ident.clone(),
                self.defs[interface].ident.clone(),
                self.defs[interface].body.virtuals[virt].name.clone(),
            ),
            Some(Binding::Failing) => panic!("not implemented"),
            None => panic!("no such call"),
        }
    }
}

fn on(implementor: &str, interface: &str, method: &str) -> (String, String, String) {
    (s(implementor), s(interface), s(method))
}

const WORD: usize = std::mem::size_of::<usize>();

// ---------------------------------------------------------------- one class

fn basic_world(attrs: Vec<Attr>, ctors: Vec<Constructor>) -> (World, usize) {
    let mut w = World::new();
    let foo = w.add(
        class(attrs, "Foo", vec![], vec![], vec![field("a", "f32")], vec![fastcall_func()]),
        ctors,
        vec![],
        Some(GenVTable { no_unimpl: false }),
    );
    (w, foo)
}

fn basic_func(imp: &(String, String, String), this_a: f32, a: u32, b: f32) -> usize {
    match (imp.0.as_str(), imp.1.as_str(), imp.2.as_str()) {
        ("Foo", "Foo", "func") => this_a as usize + a as usize + b as usize,
        other => panic!("no implementation {other:?}"),
    }
}

fn foo_new() -> Vec<Constructor> {
    vec![new_ctor(&[("a", "f32")], &[("a", Init::Other)])]
}

#[test]
fn basic_layout() {
    let (w, foo) = basic_world(derive_default(), foo_new());
    assert_eq!(w.size_of(foo), WORD * 2);
    assert_eq!(w.vtable_size(foo), WORD * 2);
}

#[test]
fn basic_basic_foo() {
    let (w, foo) = basic_world(derive_default(), foo_new());
    let this_a = 2.5;
    // manually select the implementation
    assert_eq!(basic_func(&on("Foo", "Foo", "func"), this_a, 1, 2.0), 5);
    // call through the vtable
    assert_eq!(basic_func(&w.call(foo, &[], "func"), this_a, 1, 2.0), 5);
    // the constructor stores the table pointer that it is handed
    assert_eq!(w.plans[foo].ctors.as_ref().unwrap()[0].hidden_name, "_new_with_vtable");
    assert_eq!(w.plans[foo].ctors.as_ref().unwrap()[0].edits, vec![Edit::InsertTablePointer { stmt: 0 }]);
    assert_eq!(w.plans[foo].ctors.as_ref().unwrap()[0].stub_statics, vec![s("VTBL_FOR_FOO")]);
}

#[test]
#[should_panic]
fn basic_unimpl_method() {
    let (w, foo) = basic_world(derive_default(), foo_new());
    // ensure that unimplemented methods panic
    match w.h.populate(foo, foo)[0] {
        Binding::Failing => panic!("not implemented"),
        Binding::Bound { .. } => {}
    }
}

#[test]
fn basic_default() {
    let (w, foo) = basic_world(derive_default(), foo_new());
    let made = w.plans[foo].default_ctor.as_ref().expect("a default constructor");
    assert_eq!(made.plan.hidden_name, "_default_with_vtable");
    assert_eq!(w.plans[foo].layout.derived_default, Some((0, 1)));
    let this_a = f32::default();
    // manually select the implementation
    assert_eq!(basic_func(&on("Foo", "Foo", "func"), this_a, 1, 2.0), 3);
    // call through the vtable
    assert_eq!(basic_func(&w.call(foo, &[], "func"), this_a, 1, 2.0), 3);
}

#[test]
fn tests_layout() {
    let (w, foo) = basic_world(vec![attr("derive", &["Debug"])], vec![]);
    assert_eq!(w.size_of(foo), WORD * 2);
    assert_eq!(w.vtable_size(foo), WORD * 2);
}

#[test]
fn tests_basic_foo() {
    let (w, foo) = basic_world(vec![attr("derive", &["Debug"])], vec![]);
    assert!(w.plans[foo].default_ctor.is_none());
    let this_a = 2.5;
    assert_eq!(basic_func(&on("Foo", "Foo", "func"), this_a, 1, 2.0), 5);
    assert_eq!(basic_func(&w.call(foo, &[], "func"), this_a, 1, 2.0), 5);
}

#[test]
#[should_panic]
fn tests_unimpl_method() {
    let (w, foo) = basic_world(vec![attr("derive", &["Debug"])], vec![]);
    match w.h.table_entry(foo, foo, 0) {
        Some(Binding::Failing) => panic!("not implemented"),
        _ => {}
    }
}

// ------------------------------------------------------- one generic class

fn generic_world() -> (World, usize) {
    let mut w = World::new();
    let foo = w.add(
        class(
            derive_default(),
            "Foo",
            vec![const_param("N"), type_param("T")],
            vec![],
            vec![field("a", "T")],
            vec![fastcall_func()],
        ),
        vec![new_ctor(&[("a", "T")], &[("a", Init::Other)])],
        vec![],
        Some(GenVTable::default()),
    );
    (w, foo)
}

fn generic_func(imp: &(String, String, String), n: u32, a: u32, b: f32) -> usize {
    match (imp.0.as_str(), imp.1.as_str(), imp.2.as_str()) {
        ("Foo", "Foo", "func") => n as usize + a as usize + b as usize,
        other => panic!("no implementation {other:?}"),
    }
}

#[test]
fn generic_layout() {
    let (w, foo) = generic_world();
    assert_eq!(w.size_of(foo), WORD * 2);
    assert_eq!(w.vtable_size(foo), WORD * 2);
    // the function pointer takes the object with all its parameters, so
    // none is unused and the table has no marker
    assert_eq!(
        w.plans[foo].vtable.fields,
        vec![TableField::Unimplemented { slot: 0 }, TableField::Method { virt: 0 }]
    );
    assert!(vtable_gen::vtable::marker_params(&w.defs[foo]).is_empty());
}

#[test]
fn generic_basic_foo() {
    let (w, foo) = generic_world();
    assert_eq!(generic_func(&on("Foo", "Foo", "func"), 2, 1, 2.0), 5);
    assert_eq!(generic_func(&w.call(foo, &[], "func"), 2, 1, 2.0), 5);
}

#[test]
#[should_panic]
fn generic_unimpl_method() {
    let (w, foo) = generic_world();
    match w.h.populate(foo, foo)[0] {
        Binding::Failing => panic!("not implemented"),
        Binding::Bound { .. } => {}
    }
}

#[test]
fn generic_default() {
    let (w, foo) = generic_world();
    assert!(w.plans[foo].default_ctor.is_some());
    assert_eq!(generic_func(&on("Foo", "Foo", "func"), 2, 1, 2.0), 5);
    assert_eq!(generic_func(&w.call(foo, &[], "func"), 2, 1, 2.0), 5);
}

// ------------------------------------------------------------ single parent

fn bar_new() -> Vec<Constructor> {
    vec![new_ctor(
        &[("a", "f32"), ("b", "f32")],
        &[("base_foo", Init::PathCall), ("b", Init::Other)],
    )]
}

fn single_parent_world() -> (World, usize, usize) {
    let (mut w, foo) = basic_world(derive_default(), foo_new());
    let bar = w.add(
        class(
            derive_default(),
            "Bar",
            vec![],
            vec![base("Foo", &[])],
            vec![field("b", "f32")],
            vec![virt(None, None, "bar", &[], "u32")],
        ),
        bar_new(),
        vec![],
        Some(GenVTable::default()),
    );
    (w, foo, bar)
}

struct Floats {
    a: f32,
    b: f32,
    c: f32,
}

fn single_parent_impl(imp: &(String, String, String), this: &Floats, a: u32, b: f32) -> usize {
    match (imp.0.as_str(), imp.1.as_str(), imp.2.as_str()) {
        ("Foo", "Foo", "func") => this.a as usize + a as usize + b as usize,
        ("Bar", "Foo", "func") => this.a as usize + a as usize + b as usize + b as usize,
        ("Baz", "Foo", "func") => {
            this.a as usize + a as usize + b as usize + b as usize + b as usize
        }
        ("Bar", "Bar", "bar") => (this.a + this.b) as u32 as usize,
        ("Baz", "Bar", "bar") => (this.a + this.b + this.b + 2.0) as u32 as usize,
        ("Baz", "Baz", "baz") => (this.a + this.b + this.c) as u32 as usize,
        other => panic!("no implementation {other:?}"),
    }
}

#[test]
fn single_parent_layout() {
    let (w, _, bar) = single_parent_world();
    assert_eq!(w.size_of(bar), WORD * 3);
    assert_eq!(w.vtable_size(bar), WORD * 3);
}

#[test]
fn single_parent_basic() {
    let (w, _, bar) = single_parent_world();
    let b = Floats { a: 2.5, b: 3.5, c: 0.0 };
    // manually select the implementation
    assert_eq!(single_parent_impl(&on("Foo", "Foo", "func"), &b, 1, 2.0), 5);
    assert_eq!(single_parent_impl(&on("Bar", "Foo", "func"), &b, 1, 2.0), 7);
    assert_eq!(single_parent_impl(&on("Bar", "Bar", "bar"), &b, 0, 0.0), 6);
    // call through the vtable
    assert_eq!(single_parent_impl(&w.call(bar, &[0], "func"), &b, 1, 2.0), 7);
    assert_eq!(single_parent_impl(&w.call(bar, &[], "bar"), &b, 0, 0.0), 6);
    // the base is constructed with the table embedded in the class's own
    assert_eq!(
        w.plans[bar].ctors.as_ref().unwrap()[0].edits,
        vec![
            Edit::RenameCallee { stmt: 0, field: 0 },
            Edit::PushArg { stmt: 0, field: 0, arg: CallArg::EmbeddedTable },
        ]
    );
}

#[test]
#[should_panic]
fn single_parent_unimpl_method() {
    let (w, _, bar) = single_parent_world();
    match w.h.populate(bar, bar)[0] {
        Binding::Failing => panic!("not implemented"),
        Binding::Bound { .. } => {}
    }
}

#[test]
fn single_parent_default() {
    let (w, _, bar) = single_parent_world();
    let b = Floats { a: 0.0, b: 0.0, c: 0.0 };
    let made = w.plans[bar].default_ctor.as_ref().expect("a default constructor");
    assert_eq!(
        made.plan.edits,
        vec![
            Edit::RenameCallee { stmt: 0, field: 1 },
            Edit::PushArg { stmt: 0, field: 1, arg: CallArg::EmbeddedTable },
        ]
    );
    assert_eq!(single_parent_impl(&on("Foo", "Foo", "func"), &b, 1, 2.0), 3);
    assert_eq!(single_parent_impl(&on("Bar", "Foo", "func"), &b, 1, 2.0), 5);
    assert_eq!(single_parent_impl(&on("Bar", "Bar", "bar"), &b, 0, 0.0), 0);
    assert_eq!(single_parent_impl(&w.call(bar, &[0], "func"), &b, 1, 2.0), 5);
    assert_eq!(single_parent_impl(&w.call(bar, &[], "bar"), &b, 0, 0.0), 0);
}

fn single_parent_multi_layer_world() -> (World, usize) {
    let (mut w, _, _) = single_parent_world();
    let baz = w.add(
        class(
            derive_default(),
            "Baz",
            vec![],
            vec![base("Bar", &[])],
            vec![field("c", "f32")],
            vec![virt(None, None, "baz", &[], "u32")],
        ),
        vec![new_ctor(
            &[("a", "f32"), ("b", "f32"), ("c", "f32")],
            &[("base_bar", Init::PathCall), ("c", Init::Other)],
        )],
        vec![],
        Some(GenVTable::default()),
    );
    (w, baz)
}

#[test]
fn single_parent_multi_layer_layout() {
    let (w, baz) = single_parent_multi_layer_world();
    assert_eq!(w.size_of(baz), WORD * 4);
    assert_eq!(w.vtable_size(baz), WORD * 4);
}

#[test]
fn single_parent_multi_layer_basic() {
    let (w, baz) = single_parent_multi_layer_world();
    let b = Floats { a: 2.5, b: 3.5, c: 4.5 };
    assert_eq!(single_parent_impl(&on("Foo", "Foo", "func"), &b, 1, 2.0), 5);
    assert_eq!(single_parent_impl(&on("Bar", "Foo", "func"), &b, 1, 2.0), 7);
    assert_eq!(single_parent_impl(&on("Baz", "Foo", "func"), &b, 1, 2.0), 9);
    assert_eq!(single_parent_impl(&on("Bar", "Bar", "bar"), &b, 0, 0.0), 6);
    assert_eq!(single_parent_impl(&on("Baz", "Bar", "bar"), &b, 0, 0.0), 11);
    assert_eq!(single_parent_impl(&on("Baz", "Baz", "baz"), &b, 0, 0.0), 10);
    assert_eq!(single_parent_impl(&w.call(baz, &[0, 0], "func"), &b, 1, 2.0), 9);
    assert_eq!(single_parent_impl(&w.call(baz, &[0], "bar"), &b, 0, 0.0), 11);
    assert_eq!(single_parent_impl(&w.call(baz, &[], "baz"), &b, 0, 0.0), 10);
}

#[test]
#[should_panic]
fn single_parent_multi_layer_unimpl_method() {
    let (w, baz) = single_parent_multi_layer_world();
    match w.h.populate(baz, baz)[0] {
        Binding::Failing => panic!("not implemented"),
        Binding::Bound { .. } => {}
    }
}

#[test]
fn single_parent_multi_layer_default() {
    let (w, baz) = single_parent_multi_layer_world();
    let b = Floats { a: 0.0, b: 0.0, c: 0.0 };
    assert_eq!(single_parent_impl(&on("Foo", "Foo", "func"), &b, 1, 2.0), 3);
    assert_eq!(single_parent_impl(&on("Bar", "Foo", "func"), &b, 1, 2.0), 5);
    assert_eq!(single_parent_impl(&on("Baz", "Foo", "func"), &b, 1, 2.0), 7);
    assert_eq!(single_parent_impl(&on("Bar", "Bar", "bar"), &b, 0, 0.0), 0);
    assert_eq!(single_parent_impl(&on("Baz", "Bar", "bar"), &b, 0, 0.0), 2);
    assert_eq!(single_parent_impl(&on("Baz", "Baz", "baz"), &b, 0, 0.0), 0);
    assert_eq!(single_parent_impl(&w.call(baz, &[0, 0], "func"), &b, 1, 2.0), 7);
    assert_eq!(single_parent_impl(&w.call(baz, &[0], "bar"), &b, 0, 0.0), 2);
    assert_eq!(single_parent_impl(&w.call(baz, &[], "baz"), &b, 0, 0.0), 0);
}

// ---------------------------------------------------- generic single parent

fn generic_single_parent_world() -> (World, usize) {
    let mut w = World::new();
    w.add(
        class(
            derive_default(),
            "Foo",
            vec![type_param("T")],
            vec![],
            vec![field("a", "T")],
            vec![fastcall_func()],
        ),
        vec![new_ctor(&[("a", "T")], &[("a", Init::Other)])],
        vec![],
        Some(GenVTable::default()),
    );
    let bar = w.add(
        class(
            derive_default(),
            "Bar",
            vec![const_param("N"), type_param("U")],
            vec![base("Foo", &["U"])],
            vec![field("b", "U")],
            vec![virt(None, None, "bar", &[], "&U")],
        ),
        vec![new_ctor(
            &[("a", "U"), ("b", "U")],
            &[("base_foo", Init::PathCall), ("b", Init::Other)],
        )],
        vec![],
        Some(GenVTable::default()),
    );
    (w, bar)
}

struct Ints {
    a: u32,
    b: u32,
    c: u32,
    d: u32,
}

fn generic_single_parent_impl(imp: &(String, String, String), n: u32, this: &Ints, a: u32, b: f32) -> usize {
    match (imp.0.as_str(), imp.1.as_str(), imp.2.as_str()) {
        ("Foo", "Foo", "func") => a as usize + b as usize,
        ("Bar", "Foo", "func") => a as usize + b as usize + n as usize,
        ("Bar", "Bar", "bar") => this.a as usize,
        other => panic!("no implementation {other:?}"),
    }
}

#[test]
fn generic_single_parent_layout() {
    let (w, bar) = generic_single_parent_world();
    assert_eq!(w.size_of(bar), WORD * 3);
    assert_eq!(w.vtable_size(bar), WORD * 3);
}

#[test]
fn generic_single_parent_basic() {
    let (w, bar) = generic_single_parent_world();
    let b = Ints { a: 2, b: 3, c: 0, d: 0 };
    assert_eq!(b.b, 3);
    assert_eq!(generic_single_parent_impl(&on("Foo", "Foo", "func"), 23, &b, 1, 2.0), 3);
    assert_eq!(generic_single_parent_impl(&on("Bar", "Foo", "func"), 23, &b, 1, 2.0), 26);
    assert_eq!(generic_single_parent_impl(&on("Bar", "Bar", "bar"), 23, &b, 0, 0.0), 2);
    assert_eq!(generic_single_parent_impl(&w.call(bar, &[0], "func"), 23, &b, 1, 2.0), 26);
    assert_eq!(generic_single_parent_impl(&w.call(bar, &[], "bar"), 23, &b, 0, 0.0), 2);
}

#[test]
#[should_panic]
fn generic_single_parent_unimpl_method() {
    let (w, bar) = generic_single_parent_world();
    match w.h.populate(bar, bar)[0] {
        Binding::Failing => panic!("not implemented"),
        Binding::Bound { .. } => {}
    }
}

#[test]
fn generic_single_parent_default() {
    let (w, bar) = generic_single_parent_world();
    let b = Ints { a: 0, b: 0, c: 0, d: 0 };
    assert_eq!(generic_single_parent_impl(&on("Foo", "Foo", "func"), 23, &b, 1, 2.0), 3);
    assert_eq!(generic_single_parent_impl(&on("Bar", "Foo", "func"), 23, &b, 1, 2.0), 26);
    assert_eq!(generic_single_parent_impl(&on("Bar", "Bar", "bar"), 23, &b, 0, 0.0), 0);
    assert_eq!(generic_single_parent_impl(&w.call(bar, &[0], "func"), 23, &b, 1, 2.0), 26);
    assert_eq!(generic_single_parent_impl(&w.call(bar, &[], "bar"), 23, &b, 0, 0.0), 0);
}

fn generic_single_parent_multi_layer_world() -> (World, usize) {
    let mut w = World::new();
    w.add(
        class(
            derive_default(),
            "Foo",
            vec![const_param("N"), type_param("T")],
            vec![],
            vec![field("a", "T")],
            vec![fastcall_func()],
        ),
        vec![new_ctor(&[("a", "T")], &[("a", Init::Other)])],
        vec![],
        Some(GenVTable::default()),
    );
    w.add(
        class(
            derive_default(),
            "Bar",
            vec![type_param("U"), const_param("O")],
            vec![base("Foo", &["O", "U"])],
            vec![field("b", "U")],
            vec![virt(None, None, "bar", &[], "&U")],
        ),
        vec![new_ctor(
            &[("a", "U"), ("b", "U")],
            &[("base_foo", Init::PathCall), ("b", Init::Other)],
        )],
        vec![],
        Some(GenVTable::default()),
    );
    let baz = w.add(
        class(
            derive_default(),
            "Baz",
            vec![type_param("T")],
            vec![base("Bar", &["T", "19"])],
            vec![field("c", "T")],
            vec![virt(None, None, "baz", &[], "u32")],
        ),
        vec![new_ctor(
            &[("a", "T"), ("b", "T"), ("c", "T")],
            &[("base_bar", Init::PathCall), ("c", Init::Other)],
        )],
        vec![],
        Some(GenVTable::default()),
    );
    (w, baz)
}

fn generic_multi_layer_impl(imp: &(String, String, String), o: u32, this: &Ints, a: u32, b: f32) -> usize {
    match (imp.0.as_str(), imp.1.as_str(), imp.2.as_str()) {
        ("Foo", "Foo", "func") => a as usize + b as usize,
        ("Bar", "Foo", "func") => a as usize + b as usize + o as usize,
        ("Baz", "Foo", "func") => a as usize + b as usize + 2,
        ("Bar", "Bar", "bar") => this.a as usize,
        ("Baz", "Bar", "bar") => this.b as usize,
        ("Baz", "Baz", "baz") => 123,
        other => panic!("no implementation {other:?}"),
    }
}

#[test]
fn generic_single_parent_multi_layer_layout() {
    let (w, baz) = generic_single_parent_multi_layer_world();
    assert_eq!(w.size_of(baz), WORD * 4);
    assert_eq!(w.vtable_size(baz), WORD * 4);
}

#[test]
fn generic_single_parent_multi_layer_basic() {
    let (w, baz) = generic_single_parent_multi_layer_world();
    let b = Ints { a: 1, b: 2, c: 3, d: 0 };
    assert_eq!(b.c, 3);
    assert_eq!(generic_multi_layer_impl(&on("Foo", "Foo", "func"), 19, &b, 1, 2.0), 3);
    assert_eq!(generic_multi_layer_impl(&on("Bar", "Foo", "func"), 19, &b, 1, 2.0), 22);
    assert_eq!(generic_multi_layer_impl(&on("Baz", "Foo", "func"), 19, &b, 1, 2.0), 5);
    assert_eq!(generic_multi_layer_impl(&on("Bar", "Bar", "bar"), 19, &b, 0, 0.0), 1);
    assert_eq!(generic_multi_layer_impl(&on("Baz", "Bar", "bar"), 19, &b, 0, 0.0), 2);
    assert_eq!(generic_multi_layer_impl(&on("Baz", "Baz", "baz"), 19, &b, 0, 0.0), 123);
    assert_eq!(generic_multi_layer_impl(&w.call(baz, &[0, 0], "func"), 19, &b, 1, 2.0), 5);
    assert_eq!(generic_multi_layer_impl(&w.call(baz, &[0], "bar"), 19, &b, 0, 0.0), 2);
    assert_eq!(generic_multi_layer_impl(&w.call(baz, &[], "baz"), 19, &b, 0, 0.0), 123);
}

#[test]
#[should_panic]
fn generic_single_parent_multi_layer_unimpl_method() {
    let (w, baz) = generic_single_parent_multi_layer_world();
    match w.h.populate(baz, baz)[0] {
        Binding::Failing => panic!("not implemented"),
        Binding::Bound { .. } => {}
    }
}

#[test]
fn generic_single_parent_multi_layer_default() {
    let (w, baz) = generic_single_parent_multi_layer_world();
    let b = Ints { a: 0, b: 0, c: 0, d: 0 };
    assert_eq!(generic_multi_layer_impl(&on("Foo", "Foo", "func"), 19, &b, 1, 2.0), 3);
    assert_eq!(generic_multi_layer_impl(&on("Bar", "Foo", "func"), 19, &b, 1, 2.0), 22);
    assert_eq!(generic_multi_layer_impl(&on("Baz", "Foo", "func"), 19, &b, 1, 2.0), 5);
    assert_eq!(generic_multi_layer_impl(&on("Bar", "Bar", "bar"), 19, &b, 0, 0.0), 0);
    assert_eq!(generic_multi_layer_impl(&on("Baz", "Bar", "bar"), 19, &b, 0, 0.0), 0);
    assert_eq!(generic_multi_layer_impl(&on("Baz", "Baz", "baz"), 19, &b, 0, 0.0), 123);
    assert_eq!(generic_multi_layer_impl(&w.call(baz, &[0, 0], "func"), 19, &b, 1, 2.0), 5);
    assert_eq!(generic_multi_layer_impl(&w.call(baz, &[0], "bar"), 19, &b, 0, 0.0), 0);
    assert_eq!(generic_multi_layer_impl(&w.call(baz, &[], "baz"), 19, &b, 0, 0.0), 123);
}

// ------------------------------------------------------------ multi parent

fn abc_world(options: Option<GenVTable>) -> (World, usize) {
    let mut w = World::new();
    let derive = || vec![attr("derive", &["Default"])];
    w.add(
        class(derive(), "A", vec![], vec![], vec![field("a", "u32")], vec![virt(None, None, "a", &[], "u32")]),
        vec![new_ctor(&[("a", "u32")], &[("a", Init::Other)])],
        vec![],
        options,
    );
    w.add(
        class(derive(), "B", vec![], vec![], vec![field("b", "u32")], vec![virt(None, None, "b", &[], "u32")]),
        vec![new_ctor(&[("b", "u32")], &[("b", Init::Other)])],
        vec![],
        options,
    );
    let c = w.add(
        class(
            derive(),
            "C",
            vec![],
            vec![base("A", &[]), base("B", &[])],
            vec![field("c", "u32")],
            vec![virt(None, None, "c", &[], "u32")],
        ),
        vec![new_ctor(
            &[("a", "u32"), ("b", "u32"), ("c", "u32")],
            &[("base_a", Init::PathCall), ("base_b", Init::PathCall), ("c", Init::Other)],
        )],
        vec![],
        options,
    );
    (w, c)
}

fn multi_parent_impl(imp: &(String, String, String), this: &Ints) -> u32 {
    match (imp.0.as_str(), imp.1.as_str(), imp.2.as_str()) {
        ("A", "A", "a") => this.a,
        ("B", "B", "b") => this.b,
        ("C", "A", "a") => this.a + 1,
        ("C", "B", "b") => this.b + 1,
        ("C", "C", "c") => this.a + this.b + this.c,
        other => panic!("no implementation {other:?}"),
    }
}

#[test]
fn multi_parent_layout() {
    let (w, c) = abc_world(Some(GenVTable::default()));
    assert_eq!(w.size_of(c), WORD * 5);
    assert_eq!(w.vtable_size(c), WORD * 2);
}

#[test]
fn multi_parent_basic() {
    let (w, c) = abc_world(Some(GenVTable::default()));
    let this = Ints { a: 1, b: 2, c: 3, d: 0 };
    // manually select the implementation
    assert_eq!(multi_parent_impl(&on("A", "A", "a"), &this), 1);
    assert_eq!(multi_parent_impl(&on("C", "A", "a"), &this), 2);
    assert_eq!(multi_parent_impl(&on("C", "B", "b"), &this), 3);
    assert_eq!(multi_parent_impl(&on("C", "C", "c"), &this), 6);
    // call through the vtables
    assert_eq!(multi_parent_impl(&w.call(c, &[0], "a"), &this), 2);
    assert_eq!(multi_parent_impl(&w.call(c, &[1], "b"), &this), 3);
    assert_eq!(multi_parent_impl(&w.call(c, &[], "c"), &this), 6);
}

#[test]
fn multi_parent_default() {
    let (w, c) = abc_world(Some(GenVTable::default()));
    let this = Ints { a: 0, b: 0, c: 0, d: 0 };
    assert_eq!(multi_parent_impl(&on("A", "A", "a"), &this), 0);
    assert_eq!(multi_parent_impl(&on("C", "A", "a"), &this), 1);
    assert_eq!(multi_parent_impl(&on("C", "B", "b"), &this), 1);
    assert_eq!(multi_parent_impl(&on("C", "C", "c"), &this), 0);
    assert_eq!(multi_parent_impl(&w.call(c, &[0], "a"), &this), 1);
    assert_eq!(multi_parent_impl(&w.call(c, &[1], "b"), &this), 1);
    assert_eq!(multi_parent_impl(&w.call(c, &[], "c"), &this), 0);
    // the default constructor threads the same tables as `new`
    let made = w.plans[c].default_ctor.as_ref().expect("a default constructor");
    assert_eq!(
        made.plan.edits,
        vec![
            Edit::RenameCallee { stmt: 0, field: 1 },
            Edit::PushArg { stmt: 0, field: 1, arg: CallArg::EmbeddedTable },
            Edit::RenameCallee { stmt: 0, field: 2 },
            Edit::PushArg { stmt: 0, field: 2, arg: CallArg::Param { position: 0 } },
        ]
    );
    assert_eq!(made.plan.stub_statics, w.plans[c].ctors.as_ref().unwrap()[0].stub_statics);
    assert_eq!(made.plan.stub_statics, vec![s("VTBL_FOR_C"), s("VTBL_FOR_B")]);
}

fn abcd_world() -> (World, usize) {
    let (mut w, _) = abc_world(None);
    let d = w.add(
        class(
            vec![attr("derive", &["Default"])],
            "D",
            vec![],
            vec![base("C", &[])],
            vec![field("d", "u32")],
            vec![virt(None, None, "d", &[], "u32")],
        ),
        vec![new_ctor(
            &[("a", "u32"), ("b", "u32"), ("c", "u32"), ("d", "u32")],
            &[("base_c", Init::PathCall), ("d", Init::Other)],
        )],
        vec![SecondaryBase { target: base("C", &[]), bases: vec![base("B", &[])] }],
        None,
    );
    (w, d)
}

fn multi_layer_impl(imp: &(String, String, String), this: &Ints) -> u32 {
    match (imp.0.as_str(), imp.1.as_str(), imp.2.as_str()) {
        ("A", "A", "a") => this.a,
        ("B", "B", "b") => this.b,
        ("C", "A", "a") => this.a + 1,
        ("C", "B", "b") => this.b + 1,
        ("C", "C", "c") => this.a + this.b + this.c,
        ("D", "C", "c") => this.a + this.c,
        ("D", "A", "a") => this.a + 2,
        ("D", "B", "b") => this.b + 2,
        ("D", "D", "d") => this.d,
        other => panic!("no implementation {other:?}"),
    }
}

#[test]
fn multi_parent_multi_layer_layout() {
    let (w, d) = abcd_world();
    assert_eq!(w.size_of(d), WORD * 6);
    assert_eq!(w.vtable_size(d), WORD * 3);
}

#[test]
fn multi_parent_multi_layer_basic() {
    let (w, d) = abcd_world();
    let this = Ints { a: 1, b: 2, c: 3, d: 4 };
    // manually select the implementation
    assert_eq!(multi_layer_impl(&on("A", "A", "a"), &this), 1);
    assert_eq!(multi_layer_impl(&on("C", "A", "a"), &this), 2);
    assert_eq!(multi_layer_impl(&on("D", "A", "a"), &this), 3);
    assert_eq!(multi_layer_impl(&on("B", "B", "b"), &this), 2);
    assert_eq!(multi_layer_impl(&on("C", "B", "b"), &this), 3);
    assert_eq!(multi_layer_impl(&on("D", "B", "b"), &this), 4);
    assert_eq!(multi_layer_impl(&on("C", "C", "c"), &this), 6);
    assert_eq!(multi_layer_impl(&on("D", "C", "c"), &this), 4);
    assert_eq!(multi_layer_impl(&on("D", "D", "d"), &this), 4);
    // call through the vtables
    assert_eq!(multi_layer_impl(&w.call(d, &[0, 0], "a"), &this), 3);
    assert_eq!(multi_layer_impl(&w.call(d, &[0, 1], "b"), &this), 4);
    assert_eq!(multi_layer_impl(&w.call(d, &[0], "c"), &this), 4);
    assert_eq!(multi_layer_impl(&w.call(d, &[], "d"), &this), 4);
}

#[test]
fn multi_parent_multi_layer_default() {
    let (w, d) = abcd_world();
    let this = Ints { a: 0, b: 0, c: 0, d: 0 };
    assert_eq!(multi_layer_impl(&on("A", "A", "a"), &this), 0);
    assert_eq!(multi_layer_impl(&on("C", "A", "a"), &this), 1);
    assert_eq!(multi_layer_impl(&on("D", "A", "a"), &this), 2);
    assert_eq!(multi_layer_impl(&on("B", "B", "b"), &this), 0);
    assert_eq!(multi_layer_impl(&on("C", "B", "b"), &this), 1);
    assert_eq!(multi_layer_impl(&on("D", "B", "b"), &this), 2);
    assert_eq!(multi_layer_impl(&on("C", "C", "c"), &this), 0);
    assert_eq!(multi_layer_impl(&on("D", "C", "c"), &this), 0);
    assert_eq!(multi_layer_impl(&on("D", "D", "d"), &this), 0);
    assert_eq!(multi_layer_impl(&w.call(d, &[0, 0], "a"), &this), 2);
    assert_eq!(multi_layer_impl(&w.call(d, &[0, 1], "b"), &this), 2);
    assert_eq!(multi_layer_impl(&w.call(d, &[0], "c"), &this), 0);
    assert_eq!(multi_layer_impl(&w.call(d, &[], "d"), &this), 0);
}

// ------------------------------------------------- without a constructor

fn no_impl_world() -> (World, usize, usize) {
    let (mut w, c) = abc_world(None);
    let d = w.add(
        class(
            vec![attr("no_impl", &[])],
            "D",
            vec![],
            vec![base("C", &[])],
            vec![field("d", "u32")],
            vec![virt(None, None, "d", &[], "u32")],
        ),
        vec![],
        vec![],
        None,
    );
    (w, c, d)
}

#[test]
fn no_impl_layout() {
    let (w, _, d) = no_impl_world();
    assert_eq!(w.size_of(d), WORD * 6);
    assert_eq!(w.vtable_size(d), WORD * 3);
}

#[test]
fn no_impl_basic() {
    let (w, c, d) = no_impl_world();
    // The object is put together by hand: its `C` part is made by the
    // rewritten constructor of `C`, with the tables of `C`, and its own slot
    // holds a function that no interface declares.
    let this = Ints { a: 1, b: 2, c: 3, d: 12 };
    let fn_d = |this: &Ints| this.d + 4;
    assert_eq!(
        w.plans[d].vtable.fields,
        vec![TableField::Base, TableField::Method { virt: 0 }]
    );
    assert_eq!(w.h.vtable_len(d) - 1, w.h.vtable_len(c));
    assert_eq!(multi_parent_impl(&w.call(c, &[0], "a"), &this), 2);
    assert_eq!(multi_parent_impl(&w.call(c, &[1], "b"), &this), 3);
    assert_eq!(multi_parent_impl(&w.call(c, &[], "c"), &this), 6);
    assert_eq!(fn_d(&this), 16)
}

// ----------------------------------------------------- generic multi parent

fn generic_abc_world(options: GenVTable) -> (World, usize) {
    let mut w = World::new();
    let derive = || vec![attr("derive", &["Default"])];
    w.add(
        class(
            derive(),
            "A",
            vec![const_param("N")],
            vec![],
            vec![field("a", "u32")],
            vec![virt(None, None, "a", &[], "u32")],
        ),
        vec![new_ctor(&[("a", "u32")], &[("a", Init::Other)])],
        vec![],
        Some(options),
    );
    w.add(
        class(
            derive(),
            "B",
            vec![type_param("T"), const_param("N")],
            vec![],
            vec![field("b", "T")],
            vec![virt(None, None, "b", &[], "u32")],
        ),
        vec![new_ctor(&[("b", "T")], &[("b", Init::Other)])],
        vec![],
        Some(options),
    );
    let c = w.add(
        class(
            derive(),
            "C",
            vec![const_param("N")],
            vec![base("A", &["N"]), base("B", &["u32", "N"])],
            vec![field("c", "u32")],
            vec![virt(None, None, "c", &[], "u32")],
        ),
        vec![new_ctor(
            &[("a", "u32"), ("b", "u32"), ("c", "u32")],
            &[("base_a", Init::PathCall), ("base_b", Init::PathCall), ("c", Init::Other)],
        )],
        vec![],
        Some(options),
    );
    (w, c)
}

fn generic_multi_parent_impl(imp: &(String, String, String), n: u32, this: &Ints) -> u32 {
    match (imp.0.as_str(), imp.1.as_str(), imp.2.as_str()) {
        ("A", "A", "a") => this.a + n,
        ("B", "B", "b") => n,
        ("C", "A", "a") => this.a + 1,
        ("C", "B", "b") => this.b + 1,
        ("C", "C", "c") => this.a + this.b + this.c,
        other => panic!("no implementation {other:?}"),
    }
}

#[test]
fn generic_multi_parent_layout() {
    let (w, c) = generic_abc_world(GenVTable::default());
    assert_eq!(w.size_of(c), WORD * 5);
    assert_eq!(w.vtable_size(c), WORD * 2);
}

#[test]
fn generic_multi_parent_basic() {
    let (w, c) = generic_abc_world(GenVTable::default());
    let this = Ints { a: 1, b: 2, c: 3, d: 0 };
    assert_eq!(generic_multi_parent_impl(&on("A", "A", "a"), 11, &this), 12);
    assert_eq!(generic_multi_parent_impl(&on("C", "A", "a"), 11, &this), 2);
    assert_eq!(generic_multi_parent_impl(&on("C", "B", "b"), 11, &this), 3);
    assert_eq!(generic_multi_parent_impl(&on("C", "C", "c"), 11, &this), 6);
    assert_eq!(generic_multi_parent_impl(&w.call(c, &[0], "a"), 11, &this), 2);
    assert_eq!(generic_multi_parent_impl(&w.call(c, &[1], "b"), 11, &this), 3);
    assert_eq!(generic_multi_parent_impl(&w.call(c, &[], "c"), 11, &this), 6);
}

#[test]
fn generic_multi_parent_default() {
    let (w, c) = generic_abc_world(GenVTable::default());
    let this = Ints { a: 0, b: 0, c: 0, d: 0 };
    assert_eq!(generic_multi_parent_impl(&on("A", "A", "a"), 11, &this), 11);
    assert_eq!(generic_multi_parent_impl(&on("C", "A", "a"), 11, &this), 1);
    assert_eq!(generic_multi_parent_impl(&on("C", "B", "b"), 11, &this), 1);
    assert_eq!(generic_multi_parent_impl(&on("C", "C", "c"), 11, &this), 0);
    assert_eq!(generic_multi_parent_impl(&w.call(c, &[0], "a"), 11, &this), 1);
    assert_eq!(generic_multi_parent_impl(&w.call(c, &[1], "b"), 11, &this), 1);
    assert_eq!(generic_multi_parent_impl(&w.call(c, &[], "c"), 11, &this), 0);
}

fn generic_abcd_world() -> (World, usize) {
    let options = GenVTable { no_unimpl: true };
    let mut w = World::new();
    let derive = || vec![attr("derive", &["Default"])];
    w.add(
        class(
            derive(),
            "A",
            vec![const_param("N")],
            vec![],
            vec![field("a", "u32")],
            vec![virt(None, None, "a", &[], "u32")],
        ),
        vec![new_ctor(&[("a", "u32")], &[("a", Init::Other)])],
        vec![],
        Some(options),
    );
    w.add(
        class(
            derive(),
            "B",
            vec![type_param("T"), const_param("O")],
            vec![],
            vec![field("b", "T")],
            vec![virt(None, None, "b", &[], "u32")],
        ),
        vec![new_ctor(&[("b", "T")], &[("b", Init::Other)])],
        vec![],
        Some(options),
    );
    w.add(
        class(
            derive(),
            "C",
            vec![const_param("P"), type_param("U")],
            vec![base("A", &["P"]), base("B", &["U", "P"])],
            vec![field("c", "u32")],
            vec![virt(None, None, "c", &[], "u32")],
        ),
        vec![new_ctor(
            &[("a", "u32"), ("b", "U"), ("c", "u32")],
            &[("base_a", Init::PathCall), ("base_b", Init::PathCall), ("c", Init::Other)],
        )],
        vec![],
        Some(options),
    );
    let d = w.add(
        class(
            derive(),
            "D",
            vec![const_param("Q")],
            vec![base("C", &["Q", "u32"])],
            vec![field("d", "u32")],
            vec![virt(None, None, "d", &[], "u32")],
        ),
        vec![new_ctor(
            &[("a", "u32"), ("b", "u32"), ("c", "u32"), ("d", "u32")],
            &[("base_c", Init::PathCall), ("d", Init::Other)],
        )],
        vec![SecondaryBase {
            target: base("C", &["Q", "u32"]),
            bases: vec![base("B", &["u32", "Q"])],
        }],
        Some(options),
    );
    (w, d)
}

fn generic_multi_layer_parent_impl(imp: &(String, String, String), n: u32, this: &Ints) -> u32 {
    match (imp.0.as_str(), imp.1.as_str(), imp.2.as_str()) {
        ("A", "A", "a") => this.a + n,
        ("B", "B", "b") => n,
        ("C", "A", "a") => this.a + 1,
        ("C", "B", "b") => n + 1,
        ("C", "C", "c") => this.a + this.c,
        ("D", "C", "c") => this.a + this.c + n,
        ("D", "A", "a") => this.a + 2,
        ("D", "B", "b") => this.b + 2,
        ("D", "D", "d") => this.d,
        other => panic!("no implementation {other:?}"),
    }
}

#[test]
fn generic_multi_parent_multi_layer_layout() {
    let (w, d) = generic_abcd_world();
    assert_eq!(w.size_of(d), WORD * 6);
    assert_eq!(w.vtable_size(d), WORD * 3);
}

#[test]
fn generic_multi_parent_multi_layer_basic() {
    let (w, d) = generic_abcd_world();
    let c = Ints { a: 1, b: 2, c: 3, d: 4 };
    assert_eq!(generic_multi_layer_parent_impl(&on("A", "A", "a"), 23, &c), 24);
    assert_eq!(generic_multi_layer_parent_impl(&on("C", "A", "a"), 23, &c), 2);
    assert_eq!(generic_multi_layer_parent_impl(&on("D", "A", "a"), 23, &c), 3);
    assert_eq!(generic_multi_layer_parent_impl(&on("B", "B", "b"), 23, &c), 23);
    assert_eq!(generic_multi_layer_parent_impl(&on("C", "B", "b"), 23, &c), 24);
    assert_eq!(generic_multi_layer_parent_impl(&on("D", "B", "b"), 23, &c), 4);
    assert_eq!(generic_multi_layer_parent_impl(&on("C", "C", "c"), 23, &c), 4);
    assert_eq!(generic_multi_layer_parent_impl(&on("D", "C", "c"), 23, &c), 27);
    assert_eq!(generic_multi_layer_parent_impl(&on("D", "D", "d"), 23, &c), 4);
    assert_eq!(generic_multi_layer_parent_impl(&w.call(d, &[0, 0], "a"), 23, &c), 3);
    assert_eq!(generic_multi_layer_parent_impl(&w.call(d, &[0, 1], "b"), 23, &c), 4);
    assert_eq!(generic_multi_layer_parent_impl(&w.call(d, &[0], "c"), 23, &c), 27);
    assert_eq!(generic_multi_layer_parent_impl(&w.call(d, &[], "d"), 23, &c), 4);
}

#[test]
fn generic_multi_parent_multi_layer_default() {
    let (w, d) = generic_abcd_world();
    let c = Ints { a: 0, b: 0, c: 0, d: 0 };
    assert_eq!(generic_multi_layer_parent_impl(&on("A", "A", "a"), 23, &c), 23);
    assert_eq!(generic_multi_layer_parent_impl(&on("C", "A", "a"), 23, &c), 1);
    assert_eq!(generic_multi_layer_parent_impl(&on("D", "A", "a"), 23, &c), 2);
    assert_eq!(generic_multi_layer_parent_impl(&on("B", "B", "b"), 23, &c), 23);
    assert_eq!(generic_multi_layer_parent_impl(&on("C", "B", "b"), 23, &c), 24);
    assert_eq!(generic_multi_layer_parent_impl(&on("D", "B", "b"), 23, &c), 2);
    assert_eq!(generic_multi_layer_parent_impl(&on("C", "C", "c"), 23, &c), 0);
    assert_eq!(generic_multi_layer_parent_impl(&on("D", "C", "c"), 23, &c), 23);
    assert_eq!(generic_multi_layer_parent_impl(&on("D", "D", "d"), 23, &c), 0);
    assert_eq!(generic_multi_layer_parent_impl(&w.call(d, &[0, 0], "a"), 23, &c), 2);
    assert_eq!(generic_multi_layer_parent_impl(&w.call(d, &[0, 1], "b"), 23, &c), 2);
    assert_eq!(generic_multi_layer_parent_impl(&w.call(d, &[0], "c"), 23, &c), 23);
    assert_eq!(generic_multi_layer_parent_impl(&w.call(d, &[], "d"), 23, &c), 0);
}

// ------------------------------------------------- generic base inheritance

fn generic_base_world() -> (World, usize, usize) {
    let mut w = World::new();
    w.add(
        class(
            derive_default(),
            "FooImpl",
            vec![],
            vec![],
            vec![],
            vec![virt(Some(1), None, "foo", &[], "u32")],
        ),
        vec![],
        vec![],
        Some(GenVTable::default()),
    );
    let group = vec![GenericBase { base: s("T"), repl: base("FooImpl", &[]) }];
    let foo = monomorphize(
        class(
            derive_default(),
            "Foo",
            vec![GenericParam { kind: ParamKind::Type, ident: s("T"), bounds: vec![] }],
            vec![base("T", &[])],
            vec![field("a", "u32")],
            vec![virt(
                Some(1),
                Some("fastcall"),
                "foo2",
                &[("a", "u32"), ("b", "f32")],
                "usize",
            )],
        ),
        &group,
    );
    assert_eq!(foo.ident, "Foo_FooImpl");
    assert!(foo.generics.is_empty());
    assert_eq!(foo.bases.bases, vec![base("FooImpl", &[])]);
    let foo = w.add(foo, vec![], vec![], Some(GenVTable::default()));
    let bar = monomorphize(
        class(
            vec![],
            "Bar",
            vec![GenericParam { kind: ParamKind::Type, ident: s("T"), bounds: vec![] }],
            vec![base("Foo", &["T"])],
            vec![],
            vec![virt(None, Some("fastcall"), "bar", &[], "u32")],
        ),
        &group,
    );
    assert_eq!(bar.ident, "Bar_FooImpl");
    assert_eq!(bar.bases.bases, vec![base("Foo_FooImpl", &[])]);
    let bar = w.add(bar, vec![], vec![], Some(GenVTable::default()));
    (w, foo, bar)
}

fn generic_base_impl(imp: &(String, String, String), this: &Ints, a: u32, b: f32) -> usize {
    match (imp.0.as_str(), imp.1.as_str(), imp.2.as_str()) {
        ("Foo_FooImpl", "FooImpl", "foo") => 13,
        ("Foo_FooImpl", "Foo_FooImpl", "foo2") => 13 + a as usize + b as usize,
        ("Bar_FooImpl", "FooImpl", "foo") => 17,
        ("Bar_FooImpl", "Foo_FooImpl", "foo2") => this.a as usize + a as usize - b as usize,
        ("Bar_FooImpl", "Bar_FooImpl", "bar") => 19,
        other => panic!("no implementation {other:?}"),
    }
}

#[test]
fn generic_base_inheritance_layout() {
    let (w, foo, _) = generic_base_world();
    assert_eq!(w.size_of(foo), WORD * 2);
    // The table of the base, with its two slots, is embedded before the two
    // slots of the class itself.
    assert_eq!(w.h.vtable_len(w.h.find_class(&s("FooImpl")).unwrap()), 2);
    assert_eq!(w.plans[foo].vtable.slots, vec![Slot::Placeholder, Slot::Method(0)]);
    assert_eq!(w.vtable_size(foo), WORD * 2 + WORD * 2);
}

#[test]
#[should_panic]
fn generic_base_inheritance_unimpl_method() {
    let (w, foo, _) = generic_base_world();
    let base = w.h.find_class(&s("FooImpl")).unwrap();
    match w.h.populate(base, foo)[0] {
        Binding::Failing => panic!("not implemented"),
        Binding::Bound { .. } => {}
    }
}

#[test]
fn generic_base_inheritance_default() {
    let (w, foo, bar) = generic_base_world();
    let b = Ints { a: 0, b: 0, c: 0, d: 0 };
    // manually select the implementation
    assert_eq!(generic_base_impl(&on("Foo_FooImpl", "FooImpl", "foo"), &b, 0, 0.0), 13);
    assert_eq!(generic_base_impl(&on("Foo_FooImpl", "Foo_FooImpl", "foo2"), &b, 1, 2.0), 16);
    // call through the vtable
    assert_eq!(generic_base_impl(&w.call(foo, &[0], "foo"), &b, 0, 0.0), 13);
    assert_eq!(generic_base_impl(&w.call(foo, &[], "foo2"), &b, 1, 2.0), 16);
    // one more layer reaches the implementations of the outermost class
    assert_eq!(w.call(bar, &[0, 0], "foo"), on("Bar_FooImpl", "FooImpl", "foo"));
    assert_eq!(w.call(bar, &[], "bar"), on("Bar_FooImpl", "Bar_FooImpl", "bar"));
}
