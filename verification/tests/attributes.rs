//! The attribute front end: hand-written objects and tables.

use vtable_gen::ctor::Init;
use vtable_gen::decl::{GenError, Param};
use vtable_gen::handwritten::{
    add_vtable_or_base_field, default_vtable, gen_vtable, gen_vtable_trait, make_virtuals_forward,
    make_vtable_constant, make_vtable_forward, new_with_vtable, split_vtable_name, AddedField,
    GenVTableAttributes, InterfaceMethod, MemberInit, NewEdit, NewFn, NewStatement, OptionEntry,
    StructExpr, TableMember,
};

fn s(text: &str) -> String {
    text.to_string()
}

fn option(key: &str, value: Option<&str>) -> OptionEntry {
    OptionEntry { key: s(key), value: value.map(s) }
}

fn method(name: &str, abi: Option<&str>) -> TableMember {
    TableMember { name: Some(s(name)), is_function: true, abi: abi.map(s), args_named: true }
}

fn embedded_base() -> TableMember {
    TableMember { name: Some(s("base")), is_function: false, abi: None, args_named: false }
}

fn member(name: &str, init: Init, callee: Option<&str>) -> MemberInit {
    MemberInit { name: Some(s(name)), init, callee: callee.map(s) }
}

fn expr(target: &str, fields: Vec<MemberInit>) -> StructExpr {
    StructExpr { target: Some(s(target)), fields }
}

fn new_fn(returns: &str, body: Vec<NewStatement>) -> NewFn {
    NewFn {
        name: s("new"),
        self_type: None,
        returns: Some(s(returns)),
        has_receiver: false,
        params: vec![Param { name: Some(s("baz")), ty: s("u32") }],
        body,
    }
}

#[test]
fn options_are_read_in_order() {
    assert_eq!(GenVTableAttributes::from_derive_input(&vec![]), Ok(GenVTableAttributes::default()));
    assert_eq!(
        GenVTableAttributes::from_derive_input(&vec![
            option("no_base_trait_impl", None),
            option("base", Some("Foo"))
        ]),
        Ok(GenVTableAttributes { base: Some(s("Foo")), no_base_trait_impl: true })
    );
    assert_eq!(
        GenVTableAttributes::from_derive_input(&vec![option("base", Some("Foo")), option("base", Some("Bar"))]),
        Err(GenError::DuplicateConfigurationOption { option: 1 })
    );
    assert_eq!(
        GenVTableAttributes::from_derive_input(&vec![
            option("no_base_trait_impl", None),
            option("no_base_trait_impl", None)
        ]),
        Err(GenError::DuplicateConfigurationOption { option: 1 })
    );
    assert_eq!(
        GenVTableAttributes::from_derive_input(&vec![option("base", Some("Foo")), option("bases", None)]),
        Err(GenError::UnrecognizedConfigurationOption { option: 1 })
    );
    assert_eq!(
        GenVTableAttributes::from_derive_input(&vec![option("base", None)]),
        Err(GenError::UnrecognizedConfigurationOption { option: 0 })
    );
}

#[test]
fn a_table_is_told_by_its_name() {
    assert_eq!(split_vtable_name(&s("FooVTable")), (true, s("Foo")));
    assert_eq!(split_vtable_name(&s("Foo")), (false, s("Foo")));
    assert_eq!(split_vtable_name(&s("VTable")), (true, s("")));
    assert_eq!(split_vtable_name(&s("Table")), (false, s("Table")));
    assert_eq!(split_vtable_name(&s("FooVTables")), (false, s("FooVTables")));
    assert_eq!(split_vtable_name(&s("FooVTableVTable")), (true, s("FooVTable")));
}

#[test]
fn the_field_in_front_depends_on_base_and_kind() {
    let none: Vec<Option<String>> = vec![];
    let foo = s("Foo");
    assert_eq!(
        add_vtable_or_base_field(&none, None, false),
        Some(AddedField { name: s("vtbl"), ty: s("usize") })
    );
    assert_eq!(
        add_vtable_or_base_field(&none, Some(&foo), false),
        Some(AddedField { name: s("base_with_vtbl"), ty: s("Foo") })
    );
    assert_eq!(
        add_vtable_or_base_field(&none, Some(&foo), true),
        Some(AddedField { name: s("base"), ty: s("FooVTable") })
    );
    assert_eq!(add_vtable_or_base_field(&none, None, true), None);
    // a first field of that name is left alone; a later one, or one without
    // a name, is not looked at
    assert_eq!(add_vtable_or_base_field(&vec![Some(s("vtbl"))], None, false), None);
    assert!(add_vtable_or_base_field(&vec![Some(s("a")), Some(s("vtbl"))], None, false).is_some());
    assert!(add_vtable_or_base_field(&vec![None], Some(&foo), true).is_some());
    assert_eq!(add_vtable_or_base_field(&vec![Some(s("base"))], Some(&foo), true), None);
}

#[test]
fn the_names_of_the_templates_and_the_static() {
    assert_eq!(make_virtuals_forward(&s("Foo")), "impl_FooVirtuals_for");
    assert_eq!(make_vtable_forward(&s("Foo")), "impl_FooVTable_for");
    assert_eq!(make_vtable_constant(&s("Foo")), "FOO_VTBL");
    assert_eq!(make_vtable_constant(&s("FooBar9")), "FOOBAR9_VTBL");
    assert_ne!(make_vtable_constant(&s("Foo")), "Foo_VTBL");
}

#[test]
fn the_interface_of_a_table_skips_the_embedded_base() {
    let foo = s("Foo");
    let members = vec![embedded_base(), method("bar", None), method("baz", Some("fastcall"))];
    let plan = gen_vtable_trait(&members, true, &s("Bar"), Some(&foo), false, true).unwrap();
    assert_eq!(plan.trait_name, "BarVirtuals");
    assert_eq!(plan.base_trait, Some(s("FooVirtuals")));
    assert_eq!(plan.virtuals_forward, "impl_BarVirtuals_for");
    assert_eq!(plan.base_virtuals_forward, Some(s("impl_FooVirtuals_for")));
    assert_eq!(plan.vtable_forward, "impl_BarVTable_for");
    assert_eq!(plan.base_vtable_forward, Some(s("impl_FooVTable_for")));
    assert_eq!(plan.constant, "BAR_VTBL");
    assert_eq!(
        plan.methods,
        vec![
            InterfaceMethod { field: 1, abi: s("C") },
            InterfaceMethod { field: 2, abi: s("fastcall") }
        ]
    );
    assert!(plan.implement_base);
    assert!(plan.exported);
    let plan = gen_vtable_trait(&members, true, &s("Bar"), Some(&foo), true, false).unwrap();
    assert!(!plan.implement_base);
    assert!(!plan.exported);
    // without the embedded base the first member must be a method too
    assert_eq!(
        gen_vtable_trait(&members, false, &s("Bar"), None, false, true),
        Err(GenError::MalformedDeclaration { virt: 0 })
    );
    let mut unnamed = method("qux", None);
    unnamed.args_named = false;
    assert_eq!(
        gen_vtable_trait(&vec![method("a", None), unnamed], false, &s("Foo"), None, false, true),
        Err(GenError::MalformedDeclaration { virt: 1 })
    );
    let root = gen_vtable_trait(&vec![method("a", None)], false, &s("Foo"), None, false, true).unwrap();
    assert_eq!(root.base_trait, None);
    assert!(!root.implement_base);
    assert_eq!(root.methods, vec![InterfaceMethod { field: 0, abi: s("C") }]);
}

#[test]
fn the_attribute_on_an_object_and_on_a_table() {
    let attr = GenVTableAttributes { base: Some(s("Foo")), no_base_trait_impl: false };
    let object = gen_vtable(&attr, &s("Bar"), &vec![], true, true).unwrap();
    assert!(!object.is_vtable);
    assert_eq!(object.struct_name, "Bar");
    assert!(!object.add_repr_c);
    assert_eq!(object.added, Some(AddedField { name: s("base_with_vtbl"), ty: s("Foo") }));
    assert_eq!(object.interface, None);

    let table = gen_vtable(&attr, &s("BarVTable"), &vec![method("bar", None)], false, true).unwrap();
    assert!(table.is_vtable);
    assert_eq!(table.struct_name, "Bar");
    assert!(table.add_repr_c);
    assert_eq!(table.added, Some(AddedField { name: s("base"), ty: s("FooVTable") }));
    let interface = table.interface.unwrap();
    assert_eq!(interface.methods, vec![InterfaceMethod { field: 0, abi: s("C") }]);

    // the user wrote the embedded base table already
    let table = gen_vtable(&attr, &s("BarVTable"), &vec![embedded_base(), method("bar", None)], false, true)
        .unwrap();
    assert_eq!(table.added, None);
    assert_eq!(table.interface.unwrap().methods, vec![InterfaceMethod { field: 1, abi: s("C") }]);

    let root = GenVTableAttributes::default();
    let mut data = method("x", None);
    data.is_function = false;
    assert_eq!(
        gen_vtable(&root, &s("FooVTable"), &vec![data.clone()], false, true),
        Err(GenError::MalformedDeclaration { virt: 0 })
    );
    // the members of an object are no methods
    assert!(gen_vtable(&root, &s("Foo"), &vec![data], false, true).is_ok());
}

#[test]
fn the_default_constructor_skips_the_table_pointer() {
    let plan = default_vtable(&s("Foo"), None, &vec![s("vtbl"), s("a"), s("base_with_vtbl"), s("b")]);
    assert_eq!(plan.table, "FooVTable");
    assert_eq!(plan.constant, "FOO_VTBL");
    assert_eq!(plan.base, None);
    assert_eq!(plan.defaulted, vec![1, 3]);
    let foo = s("Foo");
    // the embedded base is made with the table pointer, not defaulted
    let plan = default_vtable(&s("Bar"), Some(&foo), &vec![s("base_with_vtbl"), s("baz")]);
    assert_eq!(plan.base, Some(s("Foo")));
    assert_eq!(plan.defaulted, vec![1]);
}

#[test]
fn new_stores_the_table_pointer_of_a_root() {
    let f = new_fn("Bar", vec![NewStatement::Struct(expr("Self", vec![member("baz", Init::Other, None)]))]);
    let plan = new_with_vtable(&f, None).unwrap();
    assert_eq!(plan.constant, "BAR_VTBL");
    assert_eq!(plan.table, "BarVTable");
    assert_eq!(plan.edit, NewEdit::InsertTablePointer { stmt: 0 });
    let set = new_fn("Bar", vec![NewStatement::Struct(expr("Self", vec![member("vtbl", Init::Other, None)]))]);
    assert_eq!(new_with_vtable(&set, None), Err(GenError::MalformedConstructor));
}

#[test]
fn new_names_the_built_struct() {
    let body = vec![NewStatement::Struct(expr("Self", vec![]))];
    assert_eq!(new_with_vtable(&new_fn("Self", body.clone()), None), Err(GenError::MalformedConstructor));
    let mut f = new_fn("Self", body.clone());
    f.self_type = Some(s("Bar"));
    assert_eq!(new_with_vtable(&f, None).unwrap().constant, "BAR_VTBL");
    f.returns = None;
    assert_eq!(new_with_vtable(&f, None).unwrap().table, "BarVTable");
    f.self_type = None;
    assert_eq!(new_with_vtable(&f, None), Err(GenError::MalformedConstructor));
    let mut other = new_fn("Bar", body.clone());
    other.name = s("create");
    assert_eq!(new_with_vtable(&other, None), Err(GenError::MalformedConstructor));
    let mut method = new_fn("Bar", body.clone());
    method.has_receiver = true;
    assert_eq!(new_with_vtable(&method, None), Err(GenError::MalformedConstructor));
    let mut pattern = new_fn("Bar", body);
    pattern.params.push(Param { name: None, ty: s("(u32, u32)") });
    assert_eq!(new_with_vtable(&pattern, None), Err(GenError::MalformedConstructor));
}

#[test]
fn new_finds_the_statement_that_builds_the_object() {
    let built = expr("Bar", vec![member("baz", Init::Other, None)]);
    let body = vec![
        NewStatement::Local { name: Some(s("other")), init: Some(built.clone()) },
        NewStatement::Local { name: Some(s("this")), init: Some(expr("Baz", vec![])) },
        NewStatement::Local { name: Some(s("this")), init: Some(built.clone()) },
        NewStatement::Local { name: Some(s("this")), init: Some(built) },
        NewStatement::Other,
        NewStatement::Path { name: Some(s("this")) },
    ];
    let plan = new_with_vtable(&new_fn("Bar", body.clone()), None).unwrap();
    assert_eq!(plan.edit, NewEdit::InsertTablePointer { stmt: 2 });
    let mut missing = body.clone();
    missing[5] = NewStatement::Path { name: Some(s("that")) };
    assert_eq!(new_with_vtable(&new_fn("Bar", missing), None), Err(GenError::NoInstantiationFound));
    let mut tail = body.clone();
    tail.push(NewStatement::Other);
    assert_eq!(new_with_vtable(&new_fn("Bar", tail), None), Err(GenError::NoInstantiationFound));
    assert_eq!(new_with_vtable(&new_fn("Bar", vec![]), None), Err(GenError::NoInstantiationFound));
    let qualified = vec![NewStatement::Path { name: None }];
    assert_eq!(new_with_vtable(&new_fn("Bar", qualified), None), Err(GenError::NoInstantiationFound));
}

#[test]
fn new_hands_the_table_pointer_to_the_base() {
    let foo = s("Foo");
    let call = |init, callee| {
        new_fn(
            "Bar",
            vec![NewStatement::Struct(expr(
                "Self",
                vec![member("baz", Init::Other, None), member("base_with_vtbl", init, callee)],
            ))],
        )
    };
    assert_eq!(
        new_with_vtable(&call(Init::PathCall, Some("new")), Some(&foo)).unwrap().edit,
        NewEdit::RewriteBaseCall { stmt: 0, field: 1 }
    );
    assert_eq!(
        new_with_vtable(&call(Init::PathCall, Some("create")), Some(&foo)),
        Err(GenError::UnresolvableConstructorPath { base: 0 })
    );
    assert_eq!(
        new_with_vtable(&call(Init::OtherCall, None), Some(&foo)),
        Err(GenError::UnresolvableConstructorPath { base: 0 })
    );
    assert_eq!(
        new_with_vtable(&call(Init::Other, None), Some(&foo)),
        Err(GenError::NonCallBaseInitializer { base: 0 })
    );
    // a base that is not constructed gets its default
    let plain = new_fn("Bar", vec![NewStatement::Struct(expr("Self", vec![member("baz", Init::Other, None)]))]);
    assert_eq!(
        new_with_vtable(&plain, Some(&foo)).unwrap().edit,
        NewEdit::InsertBaseDefault { stmt: 0 }
    );
    // a field given by position stops the search
    let tuple = new_fn(
        "Bar",
        vec![NewStatement::Struct(expr(
            "Self",
            vec![
                MemberInit { name: None, init: Init::Other, callee: None },
                member("base_with_vtbl", Init::PathCall, Some("new")),
            ],
        ))],
    );
    assert_eq!(new_with_vtable(&tuple, Some(&foo)), Err(GenError::MalformedConstructor));
}
