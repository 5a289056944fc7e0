//! The data layout of an object: which fields it has, and in which order.

use vstd::prelude::*;
use vstd::string::*;
use crate::attrs::{derived_default_of, find_derived_default, has_repr_c, spec_has_repr_c};
use crate::decl::{ItemClass, GenError};
use crate::naming::{base_name_of, make_base_name};

verus! {

/// One field of the object, in layout order.
#[derive(Clone, Copy, Debug, PartialEq, Eq, Structural)]
pub enum LayoutField {
    /// The pointer to the table of virtual functions.
    VTablePointer,
    /// The embedded base at this position of the base list.
    Base { base: usize },
    /// The declared field at this position of the field list.
    Own { field: usize },
}

/// The plan of the object's data layout.
#[derive(Clone, Debug, PartialEq, Eq)]
pub struct StructPlan {
    /// The fields in layout order.
    pub fields: Vec<LayoutField>,
    /// Whether the attribute for the C layout has to be added.
    pub add_repr_c: bool,
    /// The attribute and the place in its list of a derived `Default`, which
    /// a generated constructor replaces.
    pub derived_default: Option<(usize, usize)>,
}

/// The fields of an object: one embedded field per base in declaration
/// order, or the table pointer where the class has no base, and then the
/// declared fields in their order.
pub open spec fn layout_of(bases: nat, fields: nat) -> Seq<LayoutField> {
    if bases == 0 {
        seq![LayoutField::VTablePointer] + Seq::new(
            fields,
            |f: int| LayoutField::Own { field: f as usize },
        )
    } else {
        Seq::new(bases, |b: int| LayoutField::Base { base: b as usize }) + Seq::new(
            fields,
            |f: int| LayoutField::Own { field: f as usize },
        )
    }
}

/// The name of a field of the layout.
pub open spec fn layout_field_name_of(class: &ItemClass, field: LayoutField) -> Seq<char> {
    match field {
        LayoutField::VTablePointer => "vfptr"@,
        LayoutField::Base { base } => base_name_of(class.bases.bases@[base as int].ident@),
        LayoutField::Own { field } => class.body.fields@[field as int].name@,
    }
}

/// A field of the layout points into the class.
pub open spec fn valid_layout_field(class: &ItemClass, field: LayoutField) -> bool {
    match field {
        LayoutField::VTablePointer => true,
        LayoutField::Base { base } => base < class.bases.bases.len(),
        LayoutField::Own { field } => field < class.body.fields.len(),
    }
}

/// Whether a field of the layout points into the class.
pub fn is_valid_layout_field(class: &ItemClass, field: LayoutField) -> (res: bool)
    ensures
        res == valid_layout_field(class, field),
{
    match field {
        LayoutField::VTablePointer => true,
        LayoutField::Base { base } => base < class.bases.bases.len(),
        LayoutField::Own { field } => field < class.body.fields.len(),
    }
}

/// Gives the name of a field of the layout.
pub fn layout_field_name(class: &ItemClass, field: LayoutField) -> (res: String)
    requires
        valid_layout_field(class, field),
    ensures
        res@ == layout_field_name_of(class, field),
{
    match field {
        LayoutField::VTablePointer => String::from_str("vfptr"),
        LayoutField::Base { base } => make_base_name(&class.bases.bases[base].ident),
        LayoutField::Own { field } => class.body.fields[field].name.clone(),
    }
}

/// The plan `plan` is the data layout of the class: the fields in layout
/// order, whether the C layout has to be asked for, and where a derived
/// `Default` stands.
pub open spec fn is_struct_plan(class: &ItemClass, plan: StructPlan) -> bool {
    &&& plan.fields@ == layout_of(class.bases.bases.len() as nat, class.body.fields.len() as nat)
    &&& plan.add_repr_c == !spec_has_repr_c(class.attrs@, class.attrs.len() as int)
    &&& match plan.derived_default {
        Some((i, j)) => derived_default_of(class.attrs@) == Some((i as int, j as int)),
        None => derived_default_of(class.attrs@) is None,
    }
}

/// Generates the plan of the object's data layout.
///
/// A class with neither bases nor virtuals has no layout. Every other class
/// has one: the embedded bases or the table pointer come first, the declared
/// fields follow.
pub fn gen_struct(class: &ItemClass) -> (res: Result<StructPlan, GenError>)
    ensures
        class.bases.bases.len() == 0 && class.body.virtuals.len() == 0 ==> res == Err::<StructPlan, GenError>(
            GenError::NonVirtualBaseUnsupported,
        ),
        !(class.bases.bases.len() == 0 && class.body.virtuals.len() == 0) ==> (res matches Ok(plan)
            && is_struct_plan(class, plan)),
{
    if class.bases.bases.len() == 0 && class.body.virtuals.len() == 0 {
        return Err(GenError::NonVirtualBaseUnsupported);
    }
    let mut fields: Vec<LayoutField> = Vec::new();
    if class.bases.bases.len() == 0 {
        fields.push(LayoutField::VTablePointer);
    } else {
        let mut b: usize = 0;
        while b < class.bases.bases.len()
            invariant
                b <= class.bases.bases.len(),
                fields@ == Seq::new(b as nat, |k: int| LayoutField::Base { base: k as usize }),
            decreases class.bases.bases.len() - b,
        {
            fields.push(LayoutField::Base { base: b });
            b += 1;
            proof {
                assert(fields@ =~= Seq::new(
                    b as nat,
                    |k: int| LayoutField::Base { base: k as usize },
                ));
            }
        }
    }
    let ghost head = fields@;
    let mut f: usize = 0;
    while f < class.body.fields.len()
        invariant
            f <= class.body.fields.len(),
            fields@ == head + Seq::new(f as nat, |k: int| LayoutField::Own { field: k as usize }),
        decreases class.body.fields.len() - f,
    {
        fields.push(LayoutField::Own { field: f });
        f += 1;
        proof {
            assert(fields@ =~= head + Seq::new(
                f as nat,
                |k: int| LayoutField::Own { field: k as usize },
            ));
        }
    }
    proof {
        assert(fields@ =~= layout_of(class.bases.bases.len() as nat, class.body.fields.len() as nat));
    }
    let add_repr_c = !has_repr_c(&class.attrs);
    let derived_default = find_derived_default(&class.attrs);
    Ok(StructPlan { fields, add_repr_c, derived_default })
}

/// A class with only a primary base lays out the embedded base first and its
/// own fields after it, in their order: the object is the base followed by
/// what the class declares.
pub proof fn lemma_single_base_layout(fields: nat)
    ensures
        layout_of(1, fields).len() == 1 + fields,
        layout_of(1, fields)[0] == (LayoutField::Base { base: 0 }),
        forall|f: int|
            0 <= f < fields ==> #[trigger] layout_of(1, fields)[1 + f] == (LayoutField::Own {
                field: f as usize,
            }),
{
}


/// The room that a field takes: its size and its alignment, in bytes.
#[derive(Clone, Copy, Debug, PartialEq, Eq, Structural)]
pub struct Extent {
    pub size: usize,
    pub align: usize,
}

/// The least multiple of `a` that is not below `x`.
pub open spec fn round_up(x: int, a: int) -> int {
    if a <= 0 || x % a == 0 {
        x
    } else {
        x + a - x % a
    }
}

/// Where the first `n` fields end, each placed at the next offset that its
/// alignment allows.
pub open spec fn end_of(fields: Seq<Extent>, n: int) -> int
    decreases n,
{
    if n <= 0 {
        0
    } else {
        round_up(end_of(fields, n - 1), fields[n - 1].align as int) + fields[n - 1].size
    }
}

/// The alignment of the first `n` fields together: the largest among them,
/// 1 where there is none.
pub open spec fn align_of(fields: Seq<Extent>, n: int) -> int
    decreases n,
{
    if n <= 0 {
        1
    } else if fields[n - 1].align > align_of(fields, n - 1) {
        fields[n - 1].align as int
    } else {
        align_of(fields, n - 1)
    }
}

/// The size of a struct of these fields under the C layout: the end of the
/// last field, rounded up to the struct's alignment.
pub open spec fn size_of(fields: Seq<Extent>) -> int {
    round_up(end_of(fields, fields.len() as int), align_of(fields, fields.len() as int))
}

/// Every field has an alignment.
pub open spec fn aligned(fields: Seq<Extent>) -> bool {
    forall|k: int| 0 <= k < fields.len() ==> (#[trigger] fields[k]).align > 0
}

/// Rounding up does not go down, and adds less than the alignment.
pub proof fn lemma_round_up(x: int, a: int)
    requires
        0 <= x,
        0 < a,
    ensures
        x <= round_up(x, a) < x + a,
        round_up(x, a) % a == 0,
{
    vstd::arithmetic::div_mod::lemma_fundamental_div_mod(x, a);
    vstd::arithmetic::div_mod::lemma_mod_bound(x, a);
    if x % a != 0 {
        let q = x / a;
        assert(x + a - x % a == a * (q + 1)) by (nonlinear_arith)
            requires
                x == a * q + x % a,
        ;
        vstd::arithmetic::div_mod::lemma_mod_multiples_basic(q + 1, a);
        assert((a * (q + 1)) % a == 0) by {
            vstd::arithmetic::mul::lemma_mul_is_commutative(a, q + 1);
        }
    }
}

/// Rounding up commutes with a shift by a multiple of the alignment.
pub proof fn lemma_round_up_shift(s: int, x: int, a: int)
    requires
        0 <= s,
        0 <= x,
        0 < a,
        s % a == 0,
    ensures
        round_up(s + x, a) == s + round_up(x, a),
{
    vstd::arithmetic::div_mod::lemma_fundamental_div_mod(s, a);
    let q = s / a;
    assert(s == a * q);
    vstd::arithmetic::div_mod::lemma_mod_multiples_vanish(q, x, a);
    assert(a * q + x == s + x);
    assert((s + x) % a == x % a);
}

/// The ends of the fields do not go down, and the alignment is at least 1.
pub proof fn lemma_end_grows(fields: Seq<Extent>, n: int)
    requires
        aligned(fields),
        0 <= n <= fields.len(),
    ensures
        0 <= end_of(fields, n),
        1 <= align_of(fields, n),
        n > 0 ==> end_of(fields, n - 1) <= end_of(fields, n),
        forall|k: int| 0 <= k < n ==> (#[trigger] fields[k]).align <= align_of(fields, n),
    decreases n,
{
    if n > 0 {
        lemma_end_grows(fields, n - 1);
        lemma_round_up(end_of(fields, n - 1), fields[n - 1].align as int);
    }
}

/// Computes the size and the alignment of a struct of these fields under
/// the C layout; nothing where a field has no alignment, or where the size
/// is more than can be counted.
pub fn struct_extent(fields: &Vec<Extent>) -> (res: Option<Extent>)
    ensures
        match res {
            Some(e) => aligned(fields@) && e.size == size_of(fields@) && e.align == align_of(
                fields@,
                fields.len() as int,
            ),
            None => !aligned(fields@) || size_of(fields@) > usize::MAX,
        },
{
    let mut end: usize = 0;
    let mut align: usize = 1;
    let mut k: usize = 0;
    while k < fields.len()
        invariant
            k <= fields.len(),
            forall|j: int| 0 <= j < k ==> (#[trigger] fields@[j]).align > 0,
            end == end_of(fields@, k as int),
            align == align_of(fields@, k as int),
            align >= 1,
        decreases fields.len() - k,
    {
        let f = fields[k];
        if f.align == 0 {
            return None;
        }
        let rest = end % f.align;
        let pad: usize = if rest == 0 {
            0
        } else {
            f.align - rest
        };
        if pad > usize::MAX - end || f.size > usize::MAX - end - pad {
            proof {
                if aligned(fields@) {
                    lemma_size_bounds(fields@, k as int + 1);
                }
            }
            return None;
        }
        end = end + pad + f.size;
        if f.align > align {
            align = f.align;
        }
        k += 1;
    }
    let rest = end % align;
    let pad: usize = if rest == 0 {
        0
    } else {
        align - rest
    };
    if pad > usize::MAX - end {
        return None;
    }
    Some(Extent { size: end + pad, align })
}

/// The size of a struct is not below the end of any of its fields.
pub proof fn lemma_size_bounds(fields: Seq<Extent>, n: int)
    requires
        aligned(fields),
        0 <= n <= fields.len(),
    ensures
        end_of(fields, n) <= size_of(fields),
    decreases fields.len() - n,
{
    lemma_end_grows(fields, fields.len() as int);
    if n < fields.len() {
        lemma_size_bounds(fields, n + 1);
        lemma_end_grows(fields, n + 1);
    } else {
        lemma_round_up(end_of(fields, n), align_of(fields, n));
    }
}

/// An object with a primary base only is as large as the base and the
/// declared fields together, where the base is no less aligned than any
/// declared field needs and its size leaves every declared field in place:
/// the alignment of the declared fields is that of the base, and the size of
/// the base is a multiple of the alignment of every declared field.
pub proof fn lemma_derived_size(base: Extent, own: Seq<Extent>)
    requires
        aligned(own),
        base.align > 0,
        base.align == align_of(own, own.len() as int),
        forall|k: int| 0 <= k < own.len() ==> (base.size as int) % ((#[trigger] own[k]).align as int) == 0,
        (base.size as int) % (base.align as int) == 0,
    ensures
        size_of(seq![base] + own) == base.size + size_of(own),
{
    let all = seq![base] + own;
    assert(aligned(all)) by {
        assert forall|k: int| 0 <= k < all.len() implies (#[trigger] all[k]).align > 0 by {
            if k > 0 {
                assert(all[k] == own[k - 1]);
            }
        }
    }
    lemma_shifted(base, own, own.len() as int);
    lemma_end_grows(own, own.len() as int);
    lemma_round_up_shift(
        base.size as int,
        end_of(own, own.len() as int),
        base.align as int,
    );
}

/// Behind the base every declared field stands where it stands in a struct
/// of the declared fields alone, moved by the size of the base.
proof fn lemma_shifted(base: Extent, own: Seq<Extent>, n: int)
    requires
        aligned(own),
        base.align > 0,
        0 <= n <= own.len(),
        base.align >= align_of(own, own.len() as int),
        forall|k: int| 0 <= k < own.len() ==> (base.size as int) % ((#[trigger] own[k]).align as int) == 0,
    ensures
        end_of(seq![base] + own, n + 1) == base.size + end_of(own, n),
        align_of(seq![base] + own, n + 1) == base.align,
    decreases n,
{
    let all = seq![base] + own;
    lemma_end_grows(own, own.len() as int);
    if n > 0 {
        lemma_shifted(base, own, n - 1);
        assert(all[n] == own[n - 1]);
        lemma_end_grows(own, n - 1);
        lemma_round_up_shift(base.size as int, end_of(own, n - 1), own[n - 1].align as int);
        assert(own[n - 1].align <= align_of(own, own.len() as int));
    } else {
        assert(all[0] == base);
        assert(end_of(all, 0) == 0);
        assert(align_of(all, 0) == 1);
        assert(0int % (base.align as int) == 0) by {
            vstd::arithmetic::div_mod::lemma_small_mod(0, base.align as nat);
        }
    }
}

} // verus!
