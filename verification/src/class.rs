//! The assembly of everything that is generated for one class.

use vstd::prelude::*;
use vstd::string::*;
use crate::attrs::{derived_default_of, find_derived_default};
use crate::base_access::{gen_base_helpers, is_access_of, AccessPlan};
use crate::bases::{all_added_of, BaseRef, SecondaryBase};
use crate::bridge::{all_bridgeable, all_named, gen_bridge, is_bridge_of, BridgePlan};
use crate::ctor::{
    bases_plan, body_plan, call_edits, first_init, gen_hooks, hook_fn, hook_of, hooks_of,
    instantiation_plan, is_hook_plan, lemma_init_found, lemma_same_hook, located_count, locates,
    same_constructor, same_statement, Constructor, CtorPlan, Edit, FieldInit, Init,
    Instantiation, Statement,
};
use crate::decl::{
    claims_of, constructors_of, CppDef, GenError, GenVTable, GenericParam, ItemClass, ParamKind,
    Receiver,
};
use crate::text::{same_option, texts_of};
use crate::interface::{
    all_take_self, gen_trait, is_forward_of, is_interface_of, is_standard_of,
    standardize_virtuals, ForwardPlan, InterfacePlan, StandardSignature,
};
use crate::layout::{gen_struct, is_struct_plan, StructPlan};
use crate::naming::{base_name_of, make_base_name};
use crate::slots::{claim_of, claims_fit, distinct_claims};
use crate::vtable::{gen_vtable, is_vtable_plan, StaticPlan, VTablePlan};

verus! {

/// The constructor that stands for a derived `Default`, with what the
/// rewriter makes of it.
#[derive(Clone, Debug, PartialEq, Eq)]
pub struct DefaultPlan {
    pub ctor: Constructor,
    pub plan: CtorPlan,
}

/// All that is generated for one class.
#[derive(Clone, Debug, PartialEq, Eq)]
pub struct ClassPlan {
    pub layout: StructPlan,
    pub default_ctor: Option<DefaultPlan>,
    pub bridge: BridgePlan,
    pub signatures: Vec<StandardSignature>,
    pub interface: Option<InterfacePlan>,
    pub vtable: VTablePlan,
    pub ctors: Option<Vec<CtorPlan>>,
    pub access: AccessPlan,
}

/// The constructor `ctor` is the default constructor of the class: it is
/// called `default`, takes nothing, and instantiates the class once. Every
/// field is initialized by a call of a path: a declared field by the call
/// that gives its default, a base by the call of that base's default
/// constructor.
pub open spec fn is_default_constructor(class: &ItemClass, ctor: Constructor) -> bool {
    &&& ctor.name@ == "default"@
    &&& ctor.params.len() == 0
    &&& ctor.body.len() == 1
    &&& ctor.body@[0] matches Statement::Instantiation(inst)
    &&& inst.target@ == "Self"@
    &&& inst.fields.len() == class.body.fields.len() + class.bases.bases.len()
    &&& forall|f: int|
        0 <= f < class.body.fields.len() ==> (#[trigger] inst.fields@[f]).init == Init::PathCall
            && inst.fields@[f].name is Some && inst.fields@[f].name->Some_0@
            == class.body.fields@[f].name@
    &&& forall|b: int|
        0 <= b < class.bases.bases.len() ==> (#[trigger] inst.fields@[class.body.fields.len() + b]).init
            == Init::PathCall && inst.fields@[class.body.fields.len() + b].name is Some
            && inst.fields@[class.body.fields.len() + b].name->Some_0@ == base_name_of(
            class.bases.bases@[b].ident@,
        )
}

/// Makes the default constructor of a class.
pub fn default_constructor(class: &ItemClass) -> (res: Constructor)
    ensures
        is_default_constructor(class, res),
{
    let mut fields: Vec<FieldInit> = Vec::new();
    let mut f: usize = 0;
    while f < class.body.fields.len()
        invariant
            f <= class.body.fields.len(),
            fields.len() == f,
            forall|k: int|
                0 <= k < f ==> (#[trigger] fields@[k]).init == Init::PathCall && fields@[k].name is Some
                    && fields@[k].name->Some_0@ == class.body.fields@[k].name@,
        decreases class.body.fields.len() - f,
    {
        fields.push(FieldInit { name: Some(class.body.fields[f].name.clone()), init: Init::PathCall });
        f += 1;
    }
    let mut b: usize = 0;
    while b < class.bases.bases.len()
        invariant
            b <= class.bases.bases.len(),
            fields.len() == class.body.fields.len() + b,
            forall|k: int|
                0 <= k < class.body.fields.len() ==> (#[trigger] fields@[k]).init == Init::PathCall
                    && fields@[k].name is Some && fields@[k].name->Some_0@
                    == class.body.fields@[k].name@,
            forall|k: int|
                0 <= k < b ==> (#[trigger] fields@[class.body.fields.len() + k]).init == Init::PathCall
                    && fields@[class.body.fields.len() + k].name is Some && fields@[class.body.fields.len()
                    + k].name->Some_0@ == base_name_of(class.bases.bases@[k].ident@),
        decreases class.bases.bases.len() - b,
    {
        let ghost prev = fields@;
        fields.push(
            FieldInit { name: Some(make_base_name(&class.bases.bases[b].ident)), init: Init::PathCall },
        );
        proof {
            assert forall|k: int| 0 <= k < b + 1 implies (#[trigger] fields@[class.body.fields.len()
                + k]).init == Init::PathCall && fields@[class.body.fields.len() + k].name is Some
                && fields@[class.body.fields.len() + k].name->Some_0@ == base_name_of(
                class.bases.bases@[k].ident@,
            ) by {
                if k < b {
                    assert(fields@[class.body.fields.len() + k] == prev[class.body.fields.len() + k]);
                }
            }
            assert forall|k: int| 0 <= k < class.body.fields.len() implies (#[trigger] fields@[k]).init
                == Init::PathCall && fields@[k].name is Some && fields@[k].name->Some_0@
                == class.body.fields@[k].name@ by {
                assert(fields@[k] == prev[k]);
            }
        }
        b += 1;
    }
    let inst = Instantiation { target: String::from_str("Self"), fields };
    let mut body: Vec<Statement> = Vec::new();
    body.push(Statement::Instantiation(inst));
    Constructor { name: String::from_str("default"), params: Vec::new(), body }
}

/// The plan `made` is what replaces the derived `Default` of the class:
/// nothing where the class derives none, else its default constructor and
/// what the rewriter makes of it.
pub open spec fn default_made(
    class: &ItemClass,
    additional: Seq<SecondaryBase>,
    made: Option<DefaultPlan>,
) -> bool {
    match made {
        None => derived_default_of(class.attrs@) is None,
        Some(d) => derived_default_of(class.attrs@) is Some && is_default_constructor(
            class,
            d.ctor,
        ) && is_hook_plan(class, additional, &d.ctor, d.plan),
    }
}

/// Intercepts a derived `Default`: where the class derives it, the default
/// constructor is generated and rewritten like any other constructor. This
/// never fails: the default constructor builds the class, and every field
/// in it is initialized by a call of a path.
pub fn intercept_default(class: &ItemClass, additional: &Vec<SecondaryBase>) -> (res: Option<
    DefaultPlan,
>)
    ensures
        default_made(class, additional@, res),
{
    match find_derived_default(&class.attrs) {
        None => None,
        Some(_) => {
            let ctor = default_constructor(class);
            proof {
                lemma_default_is_rewritten(class, additional@, ctor);
            }
            match hook_fn(class, &ctor, additional) {
                Ok(plan) => Some(DefaultPlan { ctor, plan }),
                Err(_) => None,
            }
        },
    }
}

/// The generic parameter `after` is `before` bound to outlive every use of
/// the hierarchy: a type parameter has `'static` as one more bound, at the
/// end; any other parameter is as it was.
pub open spec fn made_static(before: GenericParam, after: GenericParam) -> bool {
    &&& after.kind == before.kind
    &&& after.ident == before.ident
    &&& before.kind == ParamKind::Type ==> texts_of(after.bounds@) == texts_of(before.bounds@).push(
        "'static"@,
    )
    &&& before.kind != ParamKind::Type ==> after.bounds == before.bounds
}

/// Enforces that each type parameter is static, which the static tables
/// require.
pub fn enforce_static(generics: Vec<GenericParam>) -> (res: Vec<GenericParam>)
    ensures
        res.len() == generics.len(),
        forall|k: int| 0 <= k < res.len() ==> made_static(generics@[k], #[trigger] res@[k]),
{
    let ghost orig = generics@;
    let mut generics = generics;
    let n = generics.len();
    let mut k: usize = 0;
    while k < n
        invariant
            generics.len() == n,
            n == orig.len(),
            k <= n,
            forall|j: int| 0 <= j < k ==> made_static(orig[j], #[trigger] generics@[j]),
            forall|j: int| k <= j < n ==> #[trigger] generics@[j] == orig[j],
        decreases n - k,
    {
        let ghost prev = generics@;
        let taken = generics.remove(k);
        let GenericParam { kind, ident, bounds } = taken;
        let mut bounds = bounds;
        match kind {
            ParamKind::Type => {
                let ghost before = texts_of(bounds@);
                bounds.push(String::from_str("'static"));
                proof {
                    assert(texts_of(bounds@) =~= before.push("'static"@));
                }
            },
            _ => {},
        }
        generics.insert(k, GenericParam { kind, ident, bounds });
        proof {
            assert forall|j: int| 0 <= j < k + 1 implies made_static(
                orig[j],
                #[trigger] generics@[j],
            ) by {
                if j < k {
                    assert(generics@[j] == prev[j]);
                }
            }
            assert forall|j: int| k + 1 <= j < n implies #[trigger] generics@[j] == orig[j] by {
                assert(generics@[j] == prev[j]);
            }
        }
        k += 1;
    }
    generics
}

/// The slots of the class can be allocated.
pub open spec fn slots_placed(class: &ItemClass) -> bool {
    distinct_claims(claims_of(class.body.virtuals@), class.body.virtuals.len() as int) && claims_fit(
        claims_of(class.body.virtuals@),
        class.body.virtuals.len() as int,
    )
}

/// The error `e` is the first virtual whose slot cannot be allocated.
pub open spec fn slots_fail(class: &ItemClass, e: GenError) -> bool {
    let claims = claims_of(class.body.virtuals@);
    match e {
        GenError::VirtualSlotCollision { holder, claimant, slot } => holder < claimant
            < claims.len() && claim_of(claims, holder as int) == slot && claim_of(
            claims,
            claimant as int,
        ) == slot && distinct_claims(claims, claimant as int) && claims_fit(
            claims,
            claimant as int,
        ),
        GenError::VirtualSlotTooLarge { claimant } => claimant < claims.len() && claim_of(
            claims,
            claimant as int,
        ) >= usize::MAX && distinct_claims(claims, claimant as int) && claims_fit(
            claims,
            claimant as int,
        ),
        _ => false,
    }
}

/// The error `e` is the first virtual whose shape does not match the
/// grammar: one with a parameter without a name, or, where there is none,
/// one that does not take the object by reference.
pub open spec fn shape_fails(class: &ItemClass, e: GenError) -> bool {
    let n = class.body.virtuals.len() as int;
    match e {
        GenError::MalformedDeclaration { virt } => virt < n && ((all_bridgeable(
            class.body.virtuals@,
            virt as int,
        ) && !all_named(
            class.body.virtuals@[virt as int].params@,
            class.body.virtuals@[virt as int].params.len() as int,
        )) || (all_bridgeable(class.body.virtuals@, n) && all_take_self(class.body.virtuals@, virt as int)
            && class.body.virtuals@[virt as int].receiver == Receiver::Absent)),
        _ => false,
    }
}

/// Generation for the class stops with the error `e`: the stages run in
/// order (data layout, bridge, standard signatures, table, constructors) and
/// the first failure ends it; the default constructor never fails.
pub open spec fn generation_fails(def: &CppDef, additional: Seq<SecondaryBase>, e: GenError) -> bool {
    let class = &def.class;
    let anchored = !(class.bases.bases.len() == 0 && class.body.virtuals.len() == 0);
    let shaped = all_bridgeable(class.body.virtuals@, class.body.virtuals.len() as int)
        && all_take_self(class.body.virtuals@, class.body.virtuals.len() as int);
    ||| !anchored && e == GenError::NonVirtualBaseUnsupported
    ||| anchored && shape_fails(class, e)
    ||| anchored && shaped && slots_fail(class, e)
    ||| anchored && shaped && slots_placed(class) && def.new_impl is Some && hooks_of(
        class,
        additional,
        constructors_of(def),
        constructors_of(def).len() as int,
    ) == Err::<Seq<Seq<Edit>>, GenError>(e)
}

/// The plan `plan` is everything that is generated for the definition.
pub open spec fn is_class_plan(
    def: &CppDef,
    additional: Seq<SecondaryBase>,
    options: Option<GenVTable>,
    plan: ClassPlan,
) -> bool {
    let class = &def.class;
    &&& !(class.bases.bases.len() == 0 && class.body.virtuals.len() == 0)
    &&& is_struct_plan(class, plan.layout)
    &&& default_made(class, additional, plan.default_ctor)
    &&& all_bridgeable(class.body.virtuals@, class.body.virtuals.len() as int)
    &&& is_bridge_of(class, plan.bridge)
    &&& all_take_self(class.body.virtuals@, class.body.virtuals.len() as int)
    &&& is_standard_of(class, plan.signatures@)
    &&& match options {
        Some(o) => plan.interface matches Some(i) && is_interface_of(class, o, i),
        None => plan.interface is None,
    }
    &&& is_vtable_plan(class, additional, options is Some, plan.vtable)
    &&& match def.new_impl {
        None => plan.ctors is None,
        Some(ctors) => plan.ctors matches Some(plans) && plans.len() == ctors.len()
            && forall|k: int|
            0 <= k < plans.len() ==> is_hook_plan(class, additional, &ctors@[k], #[trigger] plans@[k]),
    }
    &&& is_access_of(class, plan.access)
}

/// Generates everything for one class: the data layout, the bridge, the
/// standard signatures, the dispatch interface and the static tables where
/// table generation is enabled, the table type with its population
/// template, the rewritten constructors and the base access.
///
/// It succeeds exactly where every stage does, and else stops with the
/// first failure.
pub fn generate_class(
    def: &CppDef,
    additional: &Vec<SecondaryBase>,
    options: Option<GenVTable>,
) -> (res: Result<ClassPlan, GenError>)
    ensures
        match res {
            Ok(plan) => is_class_plan(def, additional@, options, plan),
            Err(e) => generation_fails(def, additional@, e),
        },
{
    let class = &def.class;
    let layout = match gen_struct(class) {
        Ok(layout) => layout,
        Err(e) => {
            return Err(e);
        },
    };
    let default_ctor = intercept_default(class, additional);
    let bridge = match gen_bridge(class) {
        Ok(bridge) => bridge,
        Err(e) => {
            return Err(e);
        },
    };
    let signatures = match standardize_virtuals(class) {
        Ok(signatures) => signatures,
        Err(e) => {
            return Err(e);
        },
    };
    let interface = match options {
        Some(o) => Some(gen_trait(class, o)),
        None => None,
    };
    let vtable = match gen_vtable(class, additional, options.is_some()) {
        Ok(vtable) => vtable,
        Err(e) => {
            return Err(e);
        },
    };
    let ctor_plans = match gen_hooks(def, additional) {
        Ok(plans) => plans,
        Err(e) => {
            return Err(e);
        },
    };
    let access = gen_base_helpers(class);
    Ok(
        ClassPlan {
            layout,
            default_ctor,
            bridge,
            signatures,
            interface,
            vtable,
            ctors: ctor_plans,
            access,
        },
    )
}


/// The changes that thread the tables through the construction of the first
/// `n` bases by the default constructor: the call that constructs a base
/// stands after the declared fields, at the base's position.
pub open spec fn default_edits(fields: int, added: Seq<BaseRef>, n: int) -> Seq<Edit>
    decreases n,
{
    if n <= 0 {
        Seq::empty()
    } else {
        default_edits(fields, added, n - 1) + call_edits(0, fields + (n - 1), n - 1, added)
    }
}

/// No two embedded bases share a field name, and no declared field is
/// called like the field of an embedded base.
pub open spec fn distinct_field_names(class: &ItemClass) -> bool {
    &&& forall|a: int, b: int|
        0 <= a < b < class.bases.bases.len() ==> base_name_of(
            (#[trigger] class.bases.bases@[a]).ident@,
        ) != base_name_of((#[trigger] class.bases.bases@[b]).ident@)
    &&& forall|f: int, b: int|
        0 <= f < class.body.fields.len() && 0 <= b < class.bases.bases.len() ==> (
        #[trigger] class.body.fields@[f]).name@ != base_name_of(
            (#[trigger] class.bases.bases@[b]).ident@,
        )
}

/// In the default constructor the field of the base at `b` is found where
/// the constructor put it: after the declared fields, at the base's
/// position.
proof fn lemma_default_field(class: &ItemClass, inst: Instantiation, b: int, m: int)
    requires
        distinct_field_names(class),
        0 <= b < class.bases.bases.len(),
        0 <= m <= inst.fields.len(),
        inst.fields.len() == class.body.fields.len() + class.bases.bases.len(),
        forall|f: int|
            0 <= f < class.body.fields.len() ==> (#[trigger] inst.fields@[f]).name is Some
                && inst.fields@[f].name->Some_0@ == class.body.fields@[f].name@,
        forall|k: int|
            0 <= k < class.bases.bases.len() ==> (#[trigger] inst.fields@[class.body.fields.len()
                + k]).name is Some && inst.fields@[class.body.fields.len() + k].name->Some_0@
                == base_name_of(class.bases.bases@[k].ident@),
    ensures
        first_init(inst.fields@, base_name_of(class.bases.bases@[b].ident@), m) == (if m
            <= class.body.fields.len() + b {
            None
        } else {
            Some(class.body.fields.len() + b)
        }),
    decreases m,
{
    if m > 0 {
        lemma_default_field(class, inst, b, m - 1);
        let at = m - 1;
        if at < class.body.fields.len() {
            let _ = class.body.fields@[at];
            let _ = class.bases.bases@[b];
            assert(inst.fields@[at].name->Some_0@ == class.body.fields@[at].name@);
        } else {
            let k = at - class.body.fields.len();
            assert(inst.fields@[class.body.fields.len() + k].name->Some_0@ == base_name_of(
                class.bases.bases@[k].ident@,
            ));
            if k != b {
                let _ = class.bases.bases@[k];
                let _ = class.bases.bases@[b];
            }
        }
    }
}

/// The default constructor threads the tables through the first `n` bases.
proof fn lemma_default_bases(class: &ItemClass, added: Seq<BaseRef>, inst: Instantiation, n: int)
    requires
        distinct_field_names(class),
        0 <= n <= class.bases.bases.len(),
        inst.fields.len() == class.body.fields.len() + class.bases.bases.len(),
        forall|f: int|
            0 <= f < class.body.fields.len() ==> (#[trigger] inst.fields@[f]).name is Some
                && inst.fields@[f].name->Some_0@ == class.body.fields@[f].name@,
        forall|k: int|
            0 <= k < class.bases.bases.len() ==> (#[trigger] inst.fields@[class.body.fields.len()
                + k]).init == Init::PathCall && inst.fields@[class.body.fields.len()
                + k].name is Some && inst.fields@[class.body.fields.len() + k].name->Some_0@
                == base_name_of(class.bases.bases@[k].ident@),
    ensures
        bases_plan(class.bases.bases@, added, inst, 0, n) == Ok::<Seq<Edit>, GenError>(
            default_edits(class.body.fields.len() as int, added, n),
        ),
    decreases n,
{
    if n > 0 {
        lemma_default_bases(class, added, inst, n - 1);
        lemma_default_field(class, inst, n - 1, inst.fields.len() as int);
        assert(inst.fields@[class.body.fields.len() + (n - 1)].init == Init::PathCall);
    }
}

/// The default constructor is rewritten like any constructor that builds
/// every base by a call: where the fields of the object have distinct names
/// the rewriter does not fail on it; a class without base stores the table
/// pointer, any other hands the tables to the constructors of its bases,
/// the embedded table to the primary base. A default-constructed object
/// therefore points to the same tables as one made by `new`.
pub proof fn lemma_default_constructor_threads(
    class: &ItemClass,
    additional: Seq<SecondaryBase>,
    ctor: Constructor,
)
    requires
        is_default_constructor(class, ctor),
        distinct_field_names(class),
    ensures
        hook_of(class, additional, &ctor) == Ok::<Seq<Edit>, GenError>(
            if class.bases.bases.len() == 0 {
                seq![Edit::InsertTablePointer { stmt: 0 }]
            } else {
                default_edits(
                    class.body.fields.len() as int,
                    all_added_of(class.bases.bases@, additional),
                    class.bases.bases.len() as int,
                )
            },
        ),
{
    let added = all_added_of(class.bases.bases@, additional);
    let inst = ctor.body@[0]->Instantiation_0;
    assert(located_count(class.ident@, ctor.body@, 0) == 0);
    assert(locates(class.ident@, ctor.body@[0]));
    assert(located_count(class.ident@, ctor.body@, 1) == 1);
    assert(body_plan(class.ident@, class.bases.bases@, added, ctor.body@, 0) == Ok::<
        Seq<Edit>,
        GenError,
    >(Seq::empty()));
    if class.bases.bases.len() > 0 {
        lemma_default_bases(class, added, inst, class.bases.bases.len() as int);
    }
    let made = instantiation_plan(class.bases.bases@, added, inst, 0)->Ok_0;
    assert(Seq::<Edit>::empty() + made =~= made);
}

/// Two lists of optional texts are the same, item by item.
pub open spec fn same_options(a: Seq<Option<String>>, b: Seq<Option<String>>) -> bool {
    a.len() == b.len() && forall|k: int| 0 <= k < a.len() ==> same_option(#[trigger] a[k], b[k])
}

/// Two data layouts say the same.
pub open spec fn same_layout(a: StructPlan, b: StructPlan) -> bool {
    a.fields@ == b.fields@ && a.add_repr_c == b.add_repr_c && a.derived_default
        == b.derived_default
}

/// Two bridges say the same.
pub open spec fn same_bridge(a: BridgePlan, b: BridgePlan) -> bool {
    a.table@ == b.table@ && a.forwarded.len() == b.forwarded.len() && forall|i: int|
        0 <= i < a.forwarded.len() ==> texts_of((#[trigger] a.forwarded@[i])@) == texts_of(
            b.forwarded@[i]@,
        )
}

/// Two lists of standard signatures say the same.
pub open spec fn same_signatures(a: Seq<StandardSignature>, b: Seq<StandardSignature>) -> bool {
    a.len() == b.len() && forall|i: int|
        0 <= i < a.len() ==> (#[trigger] a[i]).abi@ == b[i].abi@ && a[i].exclusive
            == b[i].exclusive
}

/// Two forwarding templates say the same.
pub open spec fn same_forwarding(a: ForwardPlan, b: ForwardPlan) -> bool {
    &&& a.template@ == b.template@
    &&& a.interface@ == b.interface@
    &&& a.table@ == b.table@
    &&& texts_of(a.params@) == texts_of(b.params@)
    &&& texts_of(a.parent_templates@) == texts_of(b.parent_templates@)
    &&& a.parent_args.len() == b.parent_args.len()
    &&& forall|k: int|
        0 <= k < a.parent_args.len() ==> (#[trigger] a.parent_args@[k])@ == b.parent_args@[k]@
    &&& a.methods.len() == b.methods.len()
    &&& forall|i: int|
        0 <= i < a.methods.len() ==> (#[trigger] a.methods@[i]).slot == b.methods@[i].slot
            && same_options(a.methods@[i].forwarded@, b.methods@[i].forwarded@)
}

/// Two dispatch interfaces say the same.
pub open spec fn same_interface(a: Option<InterfacePlan>, b: Option<InterfacePlan>) -> bool {
    match (a, b) {
        (Some(x), Some(y)) => x.name@ == y.name@ && texts_of(x.parents@) == texts_of(y.parents@)
            && x.apply_forwarding == y.apply_forwarding && same_forwarding(
            x.forwarding,
            y.forwarding,
        ),
        (None, None) => true,
        _ => false,
    }
}

/// Two static tables say the same.
pub open spec fn same_static(a: StaticPlan, b: StaticPlan) -> bool {
    a.constant@ == b.constant@ && a.table@ == b.table@ && a.template@ == b.template@ && a.base
        == b.base
}

/// Two tables say the same.
pub open spec fn same_vtable(a: VTablePlan, b: VTablePlan) -> bool {
    &&& a.slots@ == b.slots@
    &&& a.fields@ == b.fields@
    &&& a.template.name@ == b.template.name@
    &&& a.template.table@ == b.template.table@
    &&& a.template.interface@ == b.template.interface@
    &&& texts_of(a.template.params@) == texts_of(b.template.params@)
    &&& same_option(a.template.base_template, b.template.base_template)
    &&& a.template.base_args@ == b.template.base_args@
    &&& a.template.fields@ == b.template.fields@
    &&& a.statics.len() == b.statics.len()
    &&& forall|k: int| 0 <= k < a.statics.len() ==> same_static(#[trigger] a.statics@[k], b.statics@[k])
}

/// Two rewritten constructors say the same.
pub open spec fn same_hook(a: CtorPlan, b: CtorPlan) -> bool {
    &&& a.edits@ == b.edits@
    &&& a.hidden_name@ == b.hidden_name@
    &&& a.threaded@ == b.threaded@
    &&& a.threaded_params.len() == b.threaded_params.len()
    &&& forall|k: int|
        0 <= k < a.threaded_params.len() ==> (#[trigger] a.threaded_params@[k])@
            == b.threaded_params@[k]@
    &&& a.stub_statics.len() == b.stub_statics.len()
    &&& forall|k: int|
        0 <= k < a.stub_statics.len() ==> (#[trigger] a.stub_statics@[k])@ == b.stub_statics@[k]@
}

/// Two lists of rewritten constructors say the same.
pub open spec fn same_hooks(a: Option<Vec<CtorPlan>>, b: Option<Vec<CtorPlan>>) -> bool {
    match (a, b) {
        (Some(x), Some(y)) => x.len() == y.len() && forall|k: int|
            0 <= k < x.len() ==> same_hook(#[trigger] x@[k], y@[k]),
        (None, None) => true,
        _ => false,
    }
}

/// Two base accesses say the same.
pub open spec fn same_access(a: AccessPlan, b: AccessPlan) -> bool {
    same_option(a.deref, b.deref) && a.as_ref.len() == b.as_ref.len() && forall|k: int|
        0 <= k < a.as_ref.len() ==> (#[trigger] a.as_ref@[k])@ == b.as_ref@[k]@
}

/// Two default constructors say the same: the constructor as it is
/// generated, the changes to its body, the rewritten constructor's name, the
/// tables it takes and the statics that `default` supplies.
pub open spec fn same_default(a: Option<DefaultPlan>, b: Option<DefaultPlan>) -> bool {
    match (a, b) {
        (Some(x), Some(y)) => {
            &&& same_constructor(x.ctor, y.ctor)
            &&& x.plan.edits@ == y.plan.edits@
            &&& x.plan.hidden_name@ == y.plan.hidden_name@
            &&& x.plan.threaded@ == y.plan.threaded@
            &&& x.plan.threaded_params.len() == y.plan.threaded_params.len()
            &&& forall|k: int|
                0 <= k < x.plan.threaded_params.len() ==> (#[trigger] x.plan.threaded_params@[k])@
                    == y.plan.threaded_params@[k]@
            &&& x.plan.stub_statics.len() == y.plan.stub_statics.len()
            &&& forall|k: int|
                0 <= k < x.plan.stub_statics.len() ==> (#[trigger] x.plan.stub_statics@[k])@
                    == y.plan.stub_statics@[k]@
        },
        (None, None) => true,
        _ => false,
    }
}

/// Two plans of a class say the same: every name is the same text, every
/// list has the same items in the same order.
pub open spec fn same_class_plan(a: ClassPlan, b: ClassPlan) -> bool {
    &&& same_layout(a.layout, b.layout)
    &&& same_default(a.default_ctor, b.default_ctor)
    &&& same_bridge(a.bridge, b.bridge)
    &&& same_signatures(a.signatures@, b.signatures@)
    &&& same_interface(a.interface, b.interface)
    &&& same_vtable(a.vtable, b.vtable)
    &&& same_hooks(a.ctors, b.ctors)
    &&& same_access(a.access, b.access)
}

/// Generation is deterministic: what is generated for a definition depends
/// on the definition, the directive and the options alone. Any two plans
/// that generation may give for them say the same, so generating twice from
/// an unmodified declaration gives the same output.
pub proof fn lemma_generation_is_deterministic(
    def: &CppDef,
    additional: Seq<SecondaryBase>,
    options: Option<GenVTable>,
    first: ClassPlan,
    second: ClassPlan,
)
    requires
        is_class_plan(def, additional, options, first),
        is_class_plan(def, additional, options, second),
    ensures
        same_class_plan(first, second),
{
    let class = &def.class;
    assert(same_default(first.default_ctor, second.default_ctor)) by {
        if first.default_ctor is Some {
            let a = first.default_ctor->Some_0.plan;
            let b = second.default_ctor->Some_0.plan;
            lemma_default_constructors_alike(
                class,
                first.default_ctor->Some_0.ctor,
                second.default_ctor->Some_0.ctor,
            );
            lemma_same_hook(
                class,
                additional,
                first.default_ctor->Some_0.ctor,
                second.default_ctor->Some_0.ctor,
            );
            assert forall|j: int| 0 <= j < a.stub_statics.len() implies (
            #[trigger] a.stub_statics@[j])@ == b.stub_statics@[j]@ by {
                if j > 0 {
                    let _ = a.stub_statics@[1 + (j - 1)];
                    let _ = b.stub_statics@[1 + (j - 1)];
                }
            }
            assert forall|j: int| 0 <= j < a.threaded_params.len() implies (
            #[trigger] a.threaded_params@[j])@ == b.threaded_params@[j]@ by {
                let _ = b.threaded_params@[j];
            }
        }
    }
    assert(same_bridge(first.bridge, second.bridge));
    assert(same_signatures(first.signatures@, second.signatures@));
    assert(same_access(first.access, second.access));
    assert(same_vtable(first.vtable, second.vtable)) by {
        assert(first.vtable.template.base_args@ =~= second.vtable.template.base_args@);
        assert(same_option(
            first.vtable.template.base_template,
            second.vtable.template.base_template,
        ));
        if options is Some {
            assert(first.vtable.statics.len() == second.vtable.statics.len());
            assert forall|k: int| 0 <= k < first.vtable.statics.len() implies same_static(
                #[trigger] first.vtable.statics@[k],
                second.vtable.statics@[k],
            ) by {
                let _ = second.vtable.statics@[k];
            }
        }
    }
    assert(same_interface(first.interface, second.interface)) by {
        if options is Some {
            let x = first.interface->Some_0.forwarding;
            let y = second.interface->Some_0.forwarding;
            assert(texts_of(x.parent_templates@) =~= texts_of(y.parent_templates@));
            assert(texts_of(first.interface->Some_0.parents@) =~= texts_of(
                second.interface->Some_0.parents@,
            ));
            assert forall|k: int| 0 <= k < x.parent_args.len() implies (
            #[trigger] x.parent_args@[k])@ == y.parent_args@[k]@ by {
                let _ = y.parent_args@[k];
            }
            assert forall|i: int| 0 <= i < x.methods.len() implies (#[trigger] x.methods@[i]).slot
                == y.methods@[i].slot && same_options(
                x.methods@[i].forwarded@,
                y.methods@[i].forwarded@,
            ) by {
                let virt = class.body.virtuals@[i];
                let m = x.methods@[i];
                let n = y.methods@[i];
                assert(is_forward_of(claims_of(class.body.virtuals@), virt, i, m));
                assert(is_forward_of(claims_of(class.body.virtuals@), virt, i, n));
                assert forall|k: int| 0 <= k < m.forwarded.len() implies same_option(
                    #[trigger] m.forwarded@[k],
                    n.forwarded@[k],
                ) by {
                    if k > 0 {
                        let _ = m.forwarded@[(k - 1) + 1];
                        let _ = n.forwarded@[(k - 1) + 1];
                    }
                }
            }
        }
    }
    assert(same_hooks(first.ctors, second.ctors)) by {
        if def.new_impl is Some {
            let x = first.ctors->Some_0;
            let y = second.ctors->Some_0;
            assert forall|k: int| 0 <= k < x.len() implies same_hook(#[trigger] x@[k], y@[k]) by {
                let _ = y@[k];
                let a = x@[k];
                let b = y@[k];
                assert forall|j: int| 0 <= j < a.stub_statics.len() implies (
                #[trigger] a.stub_statics@[j])@ == b.stub_statics@[j]@ by {
                    if j > 0 {
                        let _ = a.stub_statics@[1 + (j - 1)];
                        let _ = b.stub_statics@[1 + (j - 1)];
                    }
                }
            }
        }
    }
}

/// Any two default constructors of a class say the same.
pub proof fn lemma_default_constructors_alike(class: &ItemClass, a: Constructor, b: Constructor)
    requires
        is_default_constructor(class, a),
        is_default_constructor(class, b),
    ensures
        same_constructor(a, b),
{
    let x = a.body@[0]->Instantiation_0;
    let y = b.body@[0]->Instantiation_0;
    let own = class.body.fields.len() as int;
    assert forall|k: int| 0 <= k < x.fields.len() implies (#[trigger] x.fields@[k]).init
        == y.fields@[k].init && same_option(x.fields@[k].name, y.fields@[k].name) by {
        if k < own {
            let _ = y.fields@[k];
        } else {
            let _ = x.fields@[own + (k - own)];
            let _ = y.fields@[own + (k - own)];
        }
    }
    assert(same_statement(a.body@[0], b.body@[0]));
}

/// The default constructor constructs the first `n` bases by calls that the
/// rewriter can change.
proof fn lemma_default_bases_rewritten(
    class: &ItemClass,
    added: Seq<BaseRef>,
    ctor: Constructor,
    n: int,
)
    requires
        is_default_constructor(class, ctor),
        0 <= n <= class.bases.bases.len(),
    ensures
        bases_plan(class.bases.bases@, added, ctor.body@[0]->Instantiation_0, 0, n) is Ok,
    decreases n,
{
    if n > 0 {
        lemma_default_bases_rewritten(class, added, ctor, n - 1);
        let inst = ctor.body@[0]->Instantiation_0;
        let own = class.body.fields.len() as int;
        let wanted = base_name_of(class.bases.bases@[n - 1].ident@);
        let _ = inst.fields@[own + (n - 1)];
        lemma_init_found(inst.fields@, wanted, own + (n - 1), inst.fields.len() as int);
        let f = first_init(inst.fields@, wanted, inst.fields.len() as int)->Some_0;
        if f < own {
            let _ = inst.fields@[f];
        } else {
            let _ = inst.fields@[own + (f - own)];
        }
        assert(inst.fields@[f].init == Init::PathCall);
    }
}

/// The rewriter never fails on the default constructor: it builds the
/// class, and every field in it is initialized by a call of a path.
pub proof fn lemma_default_is_rewritten(
    class: &ItemClass,
    additional: Seq<SecondaryBase>,
    ctor: Constructor,
)
    requires
        is_default_constructor(class, ctor),
    ensures
        hook_of(class, additional, &ctor) is Ok,
{
    let added = all_added_of(class.bases.bases@, additional);
    assert(located_count(class.ident@, ctor.body@, 0) == 0);
    assert(locates(class.ident@, ctor.body@[0]));
    assert(located_count(class.ident@, ctor.body@, 1) == 1);
    assert(body_plan(class.ident@, class.bases.bases@, added, ctor.body@, 0) == Ok::<
        Seq<Edit>,
        GenError,
    >(Seq::empty()));
    lemma_default_bases_rewritten(class, added, ctor, class.bases.bases.len() as int);
}

} // verus!
