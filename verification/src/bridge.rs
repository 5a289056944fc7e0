//! The bridge: one method per virtual that calls through the object's table.

use vstd::prelude::*;
use vstd::string::*;
use crate::decl::{ItemClass, GenError, Param, Receiver, Virtual};
use crate::naming::{make_vtable_ident, vtable_ident_of};

verus! {

/// The bridge methods of a class.
#[derive(Clone, Debug, PartialEq, Eq)]
pub struct BridgePlan {
    /// The table type as which every bridge method reads the stored pointer.
    pub table: String,
    /// For each virtual, in declaration order, the arguments that its bridge
    /// method forwards to the function pointer.
    pub forwarded: Vec<Vec<String>>,
}

/// Whether each of the first `n` parameters has a name.
pub open spec fn all_named(params: Seq<Param>, n: int) -> bool {
    forall|k: int| 0 <= k < n ==> (#[trigger] params[k]).name is Some
}

/// Whether every parameter of each of the first `n` virtuals has a name.
pub open spec fn all_bridgeable(virtuals: Seq<Virtual>, n: int) -> bool {
    forall|i: int|
        0 <= i < n ==> all_named((#[trigger] virtuals[i]).params@, virtuals[i].params.len() as int)
}

/// The arguments that the bridge method of a virtual forwards: `self` for
/// the receiver, then every parameter by its name.
pub open spec fn forwarded_of(virt: Virtual) -> Seq<Seq<char>> {
    (if virt.receiver == Receiver::Absent {
        Seq::<Seq<char>>::empty()
    } else {
        seq!["self"@]
    }) + Seq::new(virt.params@.len(), |k: int| virt.params@[k].name->Some_0@)
}

/// The forwarded arguments of one virtual; nothing where a parameter has no
/// name.
fn forwarded_args(virt: &Virtual) -> (res: Option<Vec<String>>)
    ensures
        match res {
            Some(names) => all_named(virt.params@, virt.params.len() as int)
                && crate::text::texts_of(names@) == forwarded_of(*virt),
            None => !all_named(virt.params@, virt.params.len() as int),
        },
{
    let mut out: Vec<String> = Vec::new();
    match virt.receiver {
        Receiver::Absent => {},
        _ => {
            out.push(String::from_str("self"));
        },
    }
    let ghost head = crate::text::texts_of(out@);
    proof {
        assert(head =~= if virt.receiver == Receiver::Absent {
            Seq::<Seq<char>>::empty()
        } else {
            seq!["self"@]
        });
    }
    let mut k: usize = 0;
    while k < virt.params.len()
        invariant
            k <= virt.params.len(),
            all_named(virt.params@, k as int),
            crate::text::texts_of(out@) == head + Seq::new(
                k as nat,
                |j: int| virt.params@[j].name->Some_0@,
            ),
        decreases virt.params.len() - k,
    {
        match &virt.params[k].name {
            Some(name) => {
                let ghost prev = crate::text::texts_of(out@);
                out.push(name.clone());
                proof {
                    assert(crate::text::texts_of(out@) =~= prev.push(name@));
                    assert(crate::text::texts_of(out@) =~= head + Seq::new(
                        (k + 1) as nat,
                        |j: int| virt.params@[j].name->Some_0@,
                    ));
                }
            },
            None => {
                return None;
            },
        }
        k += 1;
    }
    Some(out)
}

/// The plan `plan` is the bridge of the class: every method reads the
/// stored pointer as the class's table, and forwards `self` and its named
/// parameters.
pub open spec fn is_bridge_of(class: &ItemClass, plan: BridgePlan) -> bool {
    &&& plan.table@ == vtable_ident_of(class.ident@)
    &&& plan.forwarded.len() == class.body.virtuals.len()
    &&& forall|i: int|
        0 <= i < class.body.virtuals.len() ==> crate::text::texts_of(
            (#[trigger] plan.forwarded@[i])@,
        ) == forwarded_of(class.body.virtuals@[i])
}

/// Generates the bridge between a class and its virtuals, from the virtuals
/// as they are declared.
///
/// It fails at the first virtual that has a parameter without a name, and
/// succeeds where there is none.
pub fn gen_bridge(class: &ItemClass) -> (res: Result<BridgePlan, GenError>)
    ensures
        match res {
            Ok(plan) => all_bridgeable(class.body.virtuals@, class.body.virtuals.len() as int)
                && is_bridge_of(class, plan),
            Err(GenError::MalformedDeclaration { virt }) => virt < class.body.virtuals.len()
                && all_bridgeable(class.body.virtuals@, virt as int) && !all_named(
                class.body.virtuals@[virt as int].params@,
                class.body.virtuals@[virt as int].params.len() as int,
            ),
            Err(_) => false,
        },
{
    let mut forwarded: Vec<Vec<String>> = Vec::new();
    let mut i: usize = 0;
    while i < class.body.virtuals.len()
        invariant
            i <= class.body.virtuals.len(),
            forwarded.len() == i,
            all_bridgeable(class.body.virtuals@, i as int),
            forall|j: int|
                0 <= j < i ==> crate::text::texts_of((#[trigger] forwarded@[j])@) == forwarded_of(
                    class.body.virtuals@[j],
                ),
        decreases class.body.virtuals.len() - i,
    {
        match forwarded_args(&class.body.virtuals[i]) {
            Some(names) => {
                forwarded.push(names);
            },
            None => {
                return Err(GenError::MalformedDeclaration { virt: i });
            },
        }
        i += 1;
    }
    Ok(BridgePlan { table: make_vtable_ident(&class.ident), forwarded })
}

} // verus!
