//! The table of virtual functions: its layout, the template that populates
//! it for an implementor, and the static tables that a class holds.

use vstd::prelude::*;
use vstd::string::*;
use crate::bases::{
    collect_secondary_bases, path_of, resolve, secondary_bases_of, valid_ref, BaseRef,
    SecondaryBase,
};
use crate::attrs::{find_text, first_text};
use crate::decl::{claims_of, ItemClass, GenError, GenericParam, ParamKind};
use crate::naming::{
    base_name_of, def_generic_ident_of, make_base_name, make_def_generic_ident,
    make_unimpl_ident, make_virtuals, make_vtable_ident, make_vtable_macro_ident,
    make_vtable_static, unimpl_ident_of, virtuals_of, vtable_ident_of, vtable_macro_ident_of,
    vtable_static_ident_of,
};
use crate::slots::{
    claim_of, claims_fit, distinct_claims, sort_virtuals, table_of, Slot, SlotError,
};

verus! {

/// One field of a table, in layout order.
#[derive(Clone, Copy, Debug, PartialEq, Eq, Structural)]
pub enum TableField {
    /// The embedded table of the primary base.
    Base,
    /// The function pointer of the virtual at this place of the declaration.
    Method { virt: usize },
    /// The stub of a slot that no virtual claims.
    Unimplemented { slot: usize },
    /// The zero-sized marker that mentions the class's generic parameters.
    Marker,
}

/// The field of a slot.
pub open spec fn field_of_slot(table: Seq<Slot>, slot: int) -> TableField {
    match table[slot] {
        Slot::Method(virt) => TableField::Method { virt },
        Slot::Placeholder => TableField::Unimplemented { slot: slot as usize },
    }
}

/// The fields of a table: the embedded table of the primary base, if there
/// is one; then one field per slot, in slot order; then the marker, if the
/// table needs one.
pub open spec fn table_fields_of(has_base: bool, table: Seq<Slot>, has_marker: bool) -> Seq<
    TableField,
> {
    (if has_base {
        seq![TableField::Base]
    } else {
        Seq::empty()
    }) + Seq::new(table.len(), |s: int| field_of_slot(table, s)) + (if has_marker {
        seq![TableField::Marker]
    } else {
        Seq::empty()
    })
}

/// The name of a field of the table.
pub open spec fn table_field_name_of(class: &ItemClass, field: TableField) -> Seq<char> {
    match field {
        TableField::Base => base_name_of(class.bases.bases@[0].ident@),
        TableField::Method { virt } => class.body.virtuals@[virt as int].name@,
        TableField::Unimplemented { slot } => unimpl_ident_of(slot as nat),
        TableField::Marker => "_marker"@,
    }
}

/// A field of the table points into the class.
pub open spec fn valid_table_field(class: &ItemClass, field: TableField) -> bool {
    match field {
        TableField::Base => class.bases.bases.len() > 0,
        TableField::Method { virt } => virt < class.body.virtuals.len(),
        _ => true,
    }
}

/// Whether a field of the table points into the class.
pub fn is_valid_table_field(class: &ItemClass, field: TableField) -> (res: bool)
    ensures
        res == valid_table_field(class, field),
{
    match field {
        TableField::Base => class.bases.bases.len() > 0,
        TableField::Method { virt } => virt < class.body.virtuals.len(),
        _ => true,
    }
}

/// Gives the name of a field of the table.
pub fn table_field_name(class: &ItemClass, field: TableField) -> (res: String)
    requires
        valid_table_field(class, field),
    ensures
        res@ == table_field_name_of(class, field),
{
    match field {
        TableField::Base => make_base_name(&class.bases.bases[0].ident),
        TableField::Method { virt } => class.body.virtuals[virt].name.clone(),
        TableField::Unimplemented { slot } => make_unimpl_ident(slot),
        TableField::Marker => String::from_str("_marker"),
    }
}

/// Generates the fields of the table of a class from its slots.
pub fn gen_vtable_struct(class: &ItemClass, table: &Vec<Slot>) -> (res: Vec<TableField>)
    ensures
        res@ == table_fields_of(class.bases.bases.len() > 0, table@, needs_marker(class)),
{
    let mut fields: Vec<TableField> = Vec::new();
    if class.bases.bases.len() > 0 {
        fields.push(TableField::Base);
    }
    let ghost head = fields@;
    let mut s: usize = 0;
    while s < table.len()
        invariant
            s <= table.len(),
            fields@ == head + Seq::new(s as nat, |k: int| field_of_slot(table@, k)),
        decreases table.len() - s,
    {
        let field = match table[s] {
            Slot::Method(virt) => TableField::Method { virt },
            Slot::Placeholder => TableField::Unimplemented { slot: s },
        };
        fields.push(field);
        s += 1;
        proof {
            assert(fields@ =~= head + Seq::new(s as nat, |k: int| field_of_slot(table@, k)));
        }
    }
    if unused_params(class).len() > 0 {
        fields.push(TableField::Marker);
    }
    proof {
        assert(fields@ =~= table_fields_of(
            class.bases.bases.len() > 0,
            table@,
            needs_marker(class),
        ));
    }
    fields
}

/// Whether the generic parameter at `k` is unused in the fields of the
/// table: the class has no virtual, whose function pointer would take the
/// object with all its parameters, and the primary base, whose table is
/// embedded, does not take the parameter as an argument.
pub open spec fn param_unused(class: &ItemClass, k: int) -> bool {
    class.body.virtuals.len() == 0 && (class.bases.bases.len() == 0 || first_text(
        class.bases.bases@[0].args@,
        class.generics@[k].ident@,
        class.bases.bases@[0].args.len() as int,
    ) is None)
}

/// The positions of the unused parameters among the first `n` generic
/// parameters, in order.
pub open spec fn unused_params_of(class: &ItemClass, n: int) -> Seq<usize>
    decreases n,
{
    if n <= 0 {
        Seq::empty()
    } else if param_unused(class, n - 1) {
        unused_params_of(class, n - 1).push((n - 1) as usize)
    } else {
        unused_params_of(class, n - 1)
    }
}

/// Whether the table needs the marker: some generic parameter of the class
/// is unused in its fields.
pub open spec fn needs_marker(class: &ItemClass) -> bool {
    unused_params_of(class, class.generics.len() as int).len() > 0
}

/// The positions of the unused type parameters among the first `n` generic
/// parameters, in order: the marker mentions these.
pub open spec fn marker_params_of(class: &ItemClass, n: int) -> Seq<usize>
    decreases n,
{
    if n <= 0 {
        Seq::empty()
    } else if param_unused(class, n - 1) && class.generics@[n - 1].kind == ParamKind::Type {
        marker_params_of(class, n - 1).push((n - 1) as usize)
    } else {
        marker_params_of(class, n - 1)
    }
}

/// Whether the generic parameter at `k` is unused in the fields of the table.
fn is_unused(class: &ItemClass, k: usize) -> (res: bool)
    requires
        k < class.generics.len(),
    ensures
        res == param_unused(class, k as int),
{
    if class.body.virtuals.len() > 0 {
        return false;
    }
    if class.bases.bases.len() == 0 {
        return true;
    }
    find_text(&class.bases.bases[0].args, &class.generics[k].ident).is_none()
}

/// Collects the positions of the generic parameters that are unused in the
/// fields of the table.
pub fn unused_params(class: &ItemClass) -> (res: Vec<usize>)
    ensures
        res@ == unused_params_of(class, class.generics.len() as int),
{
    let mut out: Vec<usize> = Vec::new();
    let mut i: usize = 0;
    while i < class.generics.len()
        invariant
            i <= class.generics.len(),
            out@ == unused_params_of(class, i as int),
        decreases class.generics.len() - i,
    {
        if is_unused(class, i) {
            out.push(i);
        }
        i += 1;
    }
    out
}

/// Collects the positions of the type parameters that the marker mentions:
/// those that are unused in the fields of the table.
pub fn marker_params(class: &ItemClass) -> (res: Vec<usize>)
    ensures
        res@ == marker_params_of(class, class.generics.len() as int),
{
    let mut out: Vec<usize> = Vec::new();
    let mut i: usize = 0;
    while i < class.generics.len()
        invariant
            i <= class.generics.len(),
            out@ == marker_params_of(class, i as int),
        decreases class.generics.len() - i,
    {
        let unused = is_unused(class, i);
        match class.generics[i].kind {
            ParamKind::Type => {
                if unused {
                    out.push(i);
                }
            },
            _ => {},
        }
        i += 1;
    }
    out
}

/// A parameter that the primary base takes as an argument is not unused,
/// and no parameter of a class with a virtual is: a class whose parameters
/// are all of these kinds gets no marker.
pub proof fn lemma_used_params_need_no_marker(class: &ItemClass, n: int)
    requires
        0 <= n <= class.generics.len(),
        forall|k: int| 0 <= k < n ==> !param_unused(class, k),
    ensures
        unused_params_of(class, n).len() == 0,
        marker_params_of(class, n).len() == 0,
    decreases n,
{
    if n > 0 {
        lemma_used_params_need_no_marker(class, n - 1);
    }
}

/// An argument that a template hands to the template of a base.
#[derive(Clone, Copy, Debug, PartialEq, Eq, Structural)]
pub enum TemplateArg {
    /// The template's own parameter for the class's generic at `position`.
    Generic { position: usize },
    /// The argument of the base path at `arg`, as it is written.
    Verbatim { arg: usize },
}

/// The first of the first `n` generic parameters that is called `wanted`.
pub open spec fn first_param(generics: Seq<GenericParam>, wanted: Seq<char>, n: int) -> Option<int>
    decreases n,
{
    if n <= 0 {
        None
    } else {
        match first_param(generics, wanted, n - 1) {
            Some(i) => Some(i),
            None => if generics[n - 1].ident@ == wanted {
                Some(n - 1)
            } else {
                None
            },
        }
    }
}

/// A parameter found among the first `n` is the one found among more.
pub proof fn lemma_found_param_stays(generics: Seq<GenericParam>, wanted: Seq<char>, n: int, m: int)
    requires
        0 <= n <= m <= generics.len(),
        first_param(generics, wanted, n) is Some,
    ensures
        first_param(generics, wanted, m) == first_param(generics, wanted, n),
    decreases m,
{
    if m > n {
        lemma_found_param_stays(generics, wanted, n, m - 1);
    }
}

/// The template argument for one argument of a base path: the class's own
/// generic of that name, where there is one, else the argument as written.
pub open spec fn template_arg_of(generics: Seq<GenericParam>, args: Seq<String>, j: int) -> TemplateArg {
    match first_param(generics, args[j]@, generics.len() as int) {
        Some(p) => TemplateArg::Generic { position: p as usize },
        None => TemplateArg::Verbatim { arg: j as usize },
    }
}

/// Finds the first generic parameter of a name.
pub fn find_param(generics: &Vec<GenericParam>, wanted: &String) -> (res: Option<usize>)
    ensures
        match res {
            Some(i) => first_param(generics@, wanted@, generics.len() as int) == Some(i as int),
            None => first_param(generics@, wanted@, generics.len() as int) is None,
        },
{
    let mut i: usize = 0;
    while i < generics.len()
        invariant
            i <= generics.len(),
            first_param(generics@, wanted@, i as int) is None,
        decreases generics.len() - i,
    {
        if *(&generics[i].ident) == *wanted {
            proof {
                lemma_found_param_stays(generics@, wanted@, i as int + 1, generics.len() as int);
            }
            return Some(i);
        }
        i += 1;
    }
    None
}

/// Extracts the generics that an implementor hands to the template of the
/// declared base at `base`: one per argument of the base path.
pub fn extract_implementor_generics(class: &ItemClass, base: usize) -> (res: Vec<TemplateArg>)
    requires
        base < class.bases.bases.len(),
    ensures
        res@ == Seq::new(
            class.bases.bases@[base as int].args@.len(),
            |j: int| template_arg_of(class.generics@, class.bases.bases@[base as int].args@, j),
        ),
{
    let args = &class.bases.bases[base].args;
    let mut out: Vec<TemplateArg> = Vec::new();
    let mut j: usize = 0;
    while j < args.len()
        invariant
            j <= args.len(),
            out@ == Seq::new(j as nat, |k: int| template_arg_of(class.generics@, args@, k)),
        decreases args.len() - j,
    {
        let arg = match find_param(&class.generics, &args[j]) {
            Some(p) => TemplateArg::Generic { position: p },
            None => TemplateArg::Verbatim { arg: j },
        };
        out.push(arg);
        j += 1;
        proof {
            assert(out@ =~= Seq::new(
                j as nat,
                |k: int| template_arg_of(class.generics@, args@, k),
            ));
        }
    }
    out
}

/// The template that populates the table of a class for an implementor.
#[derive(Clone, Debug, PartialEq, Eq)]
pub struct TemplatePlan {
    /// The template's name.
    pub name: String,
    /// The table type that it builds.
    pub table: String,
    /// The dispatch interface from which it takes the implementations.
    pub interface: String,
    /// Its parameters after the implementor: one per generic of the class.
    pub params: Vec<String>,
    /// The template of the primary base, which fills the embedded table.
    pub base_template: Option<String>,
    /// What it hands to the template of the primary base.
    pub base_args: Vec<TemplateArg>,
    /// The fields that it fills, in layout order.
    pub fields: Vec<TableField>,
}

/// The names of the template parameters of a class with `n` generics.
pub open spec fn template_params_of(n: nat) -> Seq<Seq<char>> {
    Seq::new(n, |k: int| def_generic_ident_of(k as nat))
}

/// The plan `t` is the population template of the class's table: its names,
/// its parameters, the fields that it fills, and the call of the primary
/// base's template for the embedded table.
pub open spec fn is_template_of(class: &ItemClass, table: Seq<Slot>, t: TemplatePlan) -> bool {
    &&& t.name@ == vtable_macro_ident_of(class.ident@)
    &&& t.table@ == vtable_ident_of(class.ident@)
    &&& t.interface@ == virtuals_of(class.ident@)
    &&& crate::text::texts_of(t.params@) == template_params_of(class.generics.len() as nat)
    &&& t.fields@ == table_fields_of(
        class.bases.bases.len() > 0,
        table,
        needs_marker(class),
    )
    &&& class.bases.bases.len() == 0 ==> t.base_template is None && t.base_args@.len() == 0
    &&& class.bases.bases.len() > 0 ==> (t.base_template matches Some(b) && b@
        == vtable_macro_ident_of(class.bases.bases@[0].ident@)) && t.base_args@ == Seq::new(
        class.bases.bases@[0].args@.len(),
        |j: int| template_arg_of(class.generics@, class.bases.bases@[0].args@, j),
    )
}

/// Generates the template that populates the table of a class.
pub fn gen_vtable_macro(class: &ItemClass, table: &Vec<Slot>) -> (res: TemplatePlan)
    ensures
        is_template_of(class, table@, res),
{
    let mut params: Vec<String> = Vec::new();
    let mut k: usize = 0;
    while k < class.generics.len()
        invariant
            k <= class.generics.len(),
            params.len() == k,
            forall|i: int| 0 <= i < k ==> (#[trigger] params@[i])@ == def_generic_ident_of(i as nat),
        decreases class.generics.len() - k,
    {
        params.push(make_def_generic_ident(k));
        k += 1;
    }
    proof {
        assert(crate::text::texts_of(params@) =~= template_params_of(
            class.generics.len() as nat,
        ));
    }
    let (base_template, base_args) = if class.bases.bases.len() > 0 {
        (
            Some(make_vtable_macro_ident(&class.bases.bases[0].ident)),
            extract_implementor_generics(class, 0),
        )
    } else {
        (None, Vec::new())
    };
    TemplatePlan {
        name: make_vtable_macro_ident(&class.ident),
        table: make_vtable_ident(&class.ident),
        interface: make_virtuals(&class.ident),
        params,
        base_template,
        base_args,
        fields: gen_vtable_struct(class, table),
    }
}

/// One static table of a class.
#[derive(Clone, Debug, PartialEq, Eq)]
pub struct StaticPlan {
    /// The constant's name.
    pub constant: String,
    /// The table type.
    pub table: String,
    /// The template that populates it, with the class as implementor.
    pub template: String,
    /// The secondary base that the table is for; none for the class's own.
    pub base: Option<BaseRef>,
}

/// The static is the one of a class for the type called `ident`.
pub open spec fn static_is_for(plan: StaticPlan, ident: Seq<char>) -> bool {
    plan.constant@ == vtable_static_ident_of(ident) && plan.table@ == vtable_ident_of(ident)
        && plan.template@ == vtable_macro_ident_of(ident)
}

/// Generates one static table of a class, for the type called `ident`.
fn gen_vtable_static_for(class: &ItemClass, ident: &String, base: Option<BaseRef>) -> (res: StaticPlan)
    ensures
        static_is_for(res, ident@),
        res.base == base,
{
    let path = make_vtable_static(&class.ident, ident, Vec::new());
    StaticPlan {
        constant: path.constant,
        table: make_vtable_ident(ident),
        template: make_vtable_macro_ident(ident),
        base,
    }
}

/// The plans `statics` are the static tables of the class: its own first,
/// then one for each secondary base of the closure, in the closure's order.
pub open spec fn is_statics_of(
    class: &ItemClass,
    additional: Seq<SecondaryBase>,
    statics: Seq<StaticPlan>,
) -> bool {
    let closure = secondary_bases_of(class.bases.bases@, additional);
    &&& statics.len() == 1 + closure.len()
    &&& static_is_for(statics[0], class.ident@) && statics[0].base is None
    &&& forall|k: int|
        1 <= k < statics.len() ==> (#[trigger] statics[k]).base == Some(closure[k - 1])
            && static_is_for(
            statics[k],
            path_of(class.bases.bases@, additional, closure[k - 1]).ident@,
        )
}

/// Generates the static tables of a class: its own first, then one for each
/// secondary base of the closure, in the closure's order.
pub fn gen_vtable_static(class: &ItemClass, additional: &Vec<SecondaryBase>) -> (res: Vec<StaticPlan>)
    ensures
        is_statics_of(class, additional@, res@),
{
    let secondary = collect_secondary_bases(class, additional);
    let mut out: Vec<StaticPlan> = Vec::new();
    out.push(gen_vtable_static_for(class, &class.ident, None));
    let mut k: usize = 0;
    while k < secondary.len()
        invariant
            k <= secondary.len(),
            out.len() == 1 + k,
            secondary@ == secondary_bases_of(class.bases.bases@, additional@),
            forall|j: int|
                0 <= j < secondary.len() ==> valid_ref(
                    class.bases.bases@,
                    additional@,
                    #[trigger] secondary@[j],
                ),
            static_is_for(out@[0], class.ident@) && out@[0].base is None,
            forall|j: int|
                1 <= j < out.len() ==> {
                    &&& (#[trigger] out@[j]).base == Some(secondary@[j - 1])
                    &&& static_is_for(
                        out@[j],
                        path_of(class.bases.bases@, additional@, secondary@[j - 1]).ident@,
                    )
                },
        decreases secondary.len() - k,
    {
        let r = secondary[k];
        let path = resolve(class, additional, r);
        out.push(gen_vtable_static_for(class, &path.ident, Some(r)));
        k += 1;
    }
    out
}

/// All that is generated for the table of a class.
#[derive(Clone, Debug, PartialEq, Eq)]
pub struct VTablePlan {
    /// The slots, in slot order.
    pub slots: Vec<Slot>,
    /// The fields of the table type.
    pub fields: Vec<TableField>,
    /// The population template.
    pub template: TemplatePlan,
    /// The static tables; none where table generation is not enabled.
    pub statics: Vec<StaticPlan>,
}

/// The plan `plan` is the table of the class: the slots of its virtuals,
/// the fields of the table type, the population template and, where they
/// are asked for, the static tables.
pub open spec fn is_vtable_plan(
    class: &ItemClass,
    additional: Seq<SecondaryBase>,
    gen_static: bool,
    plan: VTablePlan,
) -> bool {
    &&& distinct_claims(claims_of(class.body.virtuals@), class.body.virtuals.len() as int)
    &&& claims_fit(claims_of(class.body.virtuals@), class.body.virtuals.len() as int)
    &&& plan.slots@ == table_of(claims_of(class.body.virtuals@))
    &&& plan.fields@ == table_fields_of(
        class.bases.bases.len() > 0,
        plan.slots@,
        needs_marker(class),
    )
    &&& is_template_of(class, plan.slots@, plan.template)
    &&& !gen_static ==> plan.statics.len() == 0
    &&& gen_static ==> is_statics_of(class, additional, plan.statics@)
}

/// Generates the table of a class: the slots, the table type, the population
/// template and, where `gen_static` is set, the static tables.
///
/// It fails exactly where the slots of the virtuals cannot be allocated,
/// with the first virtual that cannot be placed.
pub fn gen_vtable(class: &ItemClass, additional: &Vec<SecondaryBase>, gen_static: bool) -> (res: Result<
    VTablePlan,
    GenError,
>)
    ensures
        match res {
            Ok(plan) => is_vtable_plan(class, additional@, gen_static, plan),
            Err(GenError::VirtualSlotCollision { holder, claimant, slot }) => holder < claimant
                < class.body.virtuals.len() && claim_of(claims_of(class.body.virtuals@), holder as int)
                == slot && claim_of(claims_of(class.body.virtuals@), claimant as int) == slot
                && distinct_claims(claims_of(class.body.virtuals@), claimant as int) && claims_fit(
                claims_of(class.body.virtuals@),
                claimant as int,
            ),
            Err(GenError::VirtualSlotTooLarge { claimant }) => claimant < class.body.virtuals.len()
                && claim_of(claims_of(class.body.virtuals@), claimant as int) >= usize::MAX
                && distinct_claims(claims_of(class.body.virtuals@), claimant as int) && claims_fit(
                claims_of(class.body.virtuals@),
                claimant as int,
            ),
            Err(_) => false,
        },
{
    let slots = match sort_virtuals(class) {
        Ok(slots) => slots,
        Err(SlotError::Collision { holder, claimant, slot }) => {
            return Err(GenError::VirtualSlotCollision { holder, claimant, slot });
        },
        Err(SlotError::TooLarge { claimant }) => {
            return Err(GenError::VirtualSlotTooLarge { claimant });
        },
    };
    let fields = gen_vtable_struct(class, &slots);
    let template = gen_vtable_macro(class, &slots);
    let statics = if gen_static {
        gen_vtable_static(class, additional)
    } else {
        Vec::new()
    };
    Ok(VTablePlan { slots, fields, template, statics })
}

} // verus!
