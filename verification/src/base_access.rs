//! Base access: the conversions from an object to its bases.

use vstd::prelude::*;
use crate::decl::ItemClass;
use crate::naming::{base_name_of, make_base_name};

verus! {

/// The conversions of a class to its bases.
#[derive(Clone, Debug, PartialEq, Eq)]
pub struct AccessPlan {
    /// The field through which the object is used as its primary base
    /// without a call; none where the class has no base.
    pub deref: Option<String>,
    /// For each base, in declaration order, the field that the explicit
    /// conversion to that base's type refers to.
    pub as_ref: Vec<String>,
}

/// The plan `plan` is the base access of the class: the transparent
/// conversion goes through the field of the primary base, and there is an
/// explicit conversion through the field of every base.
pub open spec fn is_access_of(class: &ItemClass, plan: AccessPlan) -> bool {
    &&& class.bases.bases.len() == 0 ==> plan.deref is None
    &&& class.bases.bases.len() > 0 ==> (plan.deref matches Some(field) && field@ == base_name_of(
        class.bases.bases@[0].ident@,
    ))
    &&& plan.as_ref.len() == class.bases.bases.len()
    &&& forall|k: int|
        0 <= k < class.bases.bases.len() ==> (#[trigger] plan.as_ref@[k])@ == base_name_of(
            class.bases.bases@[k].ident@,
        )
}

/// Implements what is necessary for the base classes: the transparent
/// conversion to the primary base, and an explicit one to every base.
pub fn gen_base_helpers(class: &ItemClass) -> (res: AccessPlan)
    ensures
        is_access_of(class, res),
{
    let deref = if class.bases.bases.len() > 0 {
        Some(make_base_name(&class.bases.bases[0].ident))
    } else {
        None
    };
    let mut as_ref: Vec<String> = Vec::new();
    let mut k: usize = 0;
    while k < class.bases.bases.len()
        invariant
            k <= class.bases.bases.len(),
            as_ref.len() == k,
            forall|j: int|
                0 <= j < k ==> (#[trigger] as_ref@[j])@ == base_name_of(class.bases.bases@[j].ident@),
        decreases class.bases.bases.len() - k,
    {
        as_ref.push(make_base_name(&class.bases.bases[k].ident));
        k += 1;
    }
    AccessPlan { deref, as_ref }
}

} // verus!
