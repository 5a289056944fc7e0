//! The virtual slot allocator.

use vstd::prelude::*;
use crate::decl::{ItemClass, claims_of};

verus! {

/// One position of a table: a declared virtual, by its place in the
/// declaration, or a placeholder.
#[derive(Clone, Copy, Debug, PartialEq, Eq, Structural)]
pub enum Slot {
    Method(usize),
    Placeholder,
}

/// Why no table could be made.
#[derive(Clone, Copy, Debug, PartialEq, Eq, Structural)]
pub enum SlotError {
    /// The virtual `claimant` asks for `slot`, which `holder` occupies.
    Collision { holder: usize, claimant: usize, slot: usize },
    /// The slot of the virtual `claimant` is too large for a table.
    TooLarge { claimant: usize },
}

/// The slot that the virtual at `i` claims: its explicit index, or one more
/// than the slot of the virtual before it, or 0 for the first.
pub open spec fn claim_of(claims: Seq<Option<usize>>, i: int) -> int
    decreases i,
{
    if i < 0 || i >= claims.len() {
        -1
    } else {
        match claims[i] {
            Some(k) => k as int,
            None => if i == 0 {
                0
            } else {
                claim_of(claims, i - 1) + 1
            },
        }
    }
}

/// The highest slot claimed by the first `n` virtuals, -1 where `n` is 0.
pub open spec fn high_of(claims: Seq<Option<usize>>, n: int) -> int
    decreases n,
{
    if n <= 0 {
        -1
    } else {
        let rest = high_of(claims, n - 1);
        let c = claim_of(claims, n - 1);
        if c > rest {
            c
        } else {
            rest
        }
    }
}

/// The last of the first `n` virtuals that claims `slot`, if any does.
pub open spec fn holder_of(claims: Seq<Option<usize>>, n: int, slot: int) -> Option<int>
    decreases n,
{
    if n <= 0 {
        None
    } else if claim_of(claims, n - 1) == slot {
        Some(n - 1)
    } else {
        holder_of(claims, n - 1, slot)
    }
}

/// No two of the first `n` virtuals claim the same slot.
pub open spec fn distinct_claims(claims: Seq<Option<usize>>, n: int) -> bool {
    forall|a: int, b: int|
        0 <= a < b < n ==> #[trigger] claim_of(claims, a) != #[trigger] claim_of(claims, b)
}

/// Each of the first `n` virtuals claims a slot that a table can hold.
pub open spec fn claims_fit(claims: Seq<Option<usize>>, n: int) -> bool {
    forall|a: int| 0 <= a < n ==> #[trigger] claim_of(claims, a) < usize::MAX
}

/// What the table holds at `slot`, going by the first `n` virtuals.
pub open spec fn slot_at(claims: Seq<Option<usize>>, n: int, slot: int) -> Slot {
    match holder_of(claims, n, slot) {
        Some(i) => Slot::Method(i as usize),
        None => Slot::Placeholder,
    }
}

/// The table of a list of claims: it spans 0 to the highest claimed slot,
/// holds each virtual at its slot and a placeholder everywhere else.
pub open spec fn table_of(claims: Seq<Option<usize>>) -> Seq<Slot> {
    Seq::new(
        (high_of(claims, claims.len() as int) + 1) as nat,
        |s: int| slot_at(claims, claims.len() as int, s),
    )
}

/// A holder claims the slot it holds, and every claim has a holder.
pub proof fn lemma_holder(claims: Seq<Option<usize>>, n: int, slot: int)
    requires
        0 <= n <= claims.len(),
    ensures
        match holder_of(claims, n, slot) {
            Some(i) => 0 <= i < n && claim_of(claims, i) == slot,
            None => forall|j: int| 0 <= j < n ==> #[trigger] claim_of(claims, j) != slot,
        },
    decreases n,
{
    if n > 0 {
        lemma_holder(claims, n - 1, slot);
    }
}

/// No claim among the first `n` lies above the highest, and every claim is
/// at least 0.
pub proof fn lemma_high(claims: Seq<Option<usize>>, n: int)
    requires
        0 <= n <= claims.len(),
    ensures
        -1 <= high_of(claims, n),
        n > 0 ==> 0 <= high_of(claims, n),
        forall|j: int| 0 <= j < n ==> 0 <= #[trigger] claim_of(claims, j) <= high_of(claims, n),
    decreases n,
{
    if n > 0 {
        lemma_high(claims, n - 1);
        lemma_claim_nonnegative(claims, n - 1);
    }
}

/// A claim is never negative.
pub proof fn lemma_claim_nonnegative(claims: Seq<Option<usize>>, i: int)
    requires
        0 <= i < claims.len(),
    ensures
        0 <= claim_of(claims, i),
    decreases i,
{
    if i > 0 {
        lemma_claim_nonnegative(claims, i - 1);
    }
}

/// Virtuals without an explicit index take the slots 0, 1, 2, ... in
/// declaration order.
pub proof fn lemma_implicit_claims_sequential(claims: Seq<Option<usize>>, i: int)
    requires
        0 <= i < claims.len(),
        forall|k: int| 0 <= k <= i ==> claims[k] is None,
    ensures
        claim_of(claims, i) == i,
    decreases i,
{
    if i > 0 {
        lemma_implicit_claims_sequential(claims, i - 1);
    }
}

/// A virtual without an explicit index takes the slot after that of the
/// virtual before it.
pub proof fn lemma_implicit_claim_follows(claims: Seq<Option<usize>>, i: int)
    requires
        0 < i < claims.len(),
        claims[i] is None,
    ensures
        claim_of(claims, i) == claim_of(claims, i - 1) + 1,
{
}

/// A virtual with an explicit index takes exactly that slot.
pub proof fn lemma_explicit_claim_honored(claims: Seq<Option<usize>>, i: int, k: usize)
    requires
        0 <= i < claims.len(),
        claims[i] == Some(k),
    ensures
        claim_of(claims, i) == k,
{
}

/// Where no two virtuals collide, the table holds every virtual at the slot
/// it claims, and every other position of the table is a placeholder.
pub proof fn lemma_table_places_every_virtual(claims: Seq<Option<usize>>)
    requires
        distinct_claims(claims, claims.len() as int),
    ensures
        forall|i: int|
            0 <= i < claims.len() ==> 0 <= #[trigger] claim_of(claims, i) < table_of(claims).len()
                && table_of(claims)[claim_of(claims, i)] == Slot::Method(i as usize),
        forall|s: int|
            0 <= s < table_of(claims).len() && (forall|j: int|
                0 <= j < claims.len() ==> #[trigger] claim_of(claims, j) != s)
                ==> #[trigger] table_of(claims)[s] == Slot::Placeholder,
{
    let n = claims.len() as int;
    lemma_high(claims, n);
    assert forall|i: int| 0 <= i < claims.len() implies 0 <= #[trigger] claim_of(claims, i)
        < table_of(claims).len() && table_of(claims)[claim_of(claims, i)] == Slot::Method(
        i as usize,
    ) by {
        lemma_holder(claims, n, claim_of(claims, i));
    }
    assert forall|s: int|
        0 <= s < table_of(claims).len() && (forall|j: int|
            0 <= j < claims.len() ==> #[trigger] claim_of(claims, j) != s)
            implies #[trigger] table_of(claims)[s] == Slot::Placeholder by {
        lemma_holder(claims, n, s);
    }
}

/// An explicit index is honored exactly: where no two virtuals collide, the
/// table holds a virtual with the explicit index `k` at `k`, whatever its
/// place in the declaration and whatever the other virtuals claim.
pub proof fn lemma_explicit_index_holds_its_virtual(claims: Seq<Option<usize>>, i: int, k: usize)
    requires
        0 <= i < claims.len(),
        claims[i] == Some(k),
        distinct_claims(claims, claims.len() as int),
    ensures
        k < table_of(claims).len(),
        table_of(claims)[k as int] == Slot::Method(i as usize),
{
    lemma_table_places_every_virtual(claims);
    assert(claim_of(claims, i) == k);
}

/// What the allocator gives for a list of claims: the table, where no two
/// claims collide and every claim fits; else the first virtual that cannot
/// be placed, because its slot is too large or because an earlier virtual
/// holds it.
pub open spec fn is_allocation(claims: Seq<Option<usize>>, res: Result<Seq<Slot>, SlotError>) -> bool {
    match res {
        Ok(table) => distinct_claims(claims, claims.len() as int) && claims_fit(
            claims,
            claims.len() as int,
        ) && table == table_of(claims),
        Err(SlotError::Collision { holder, claimant, slot }) => holder < claimant < claims.len()
            && claim_of(claims, holder as int) == slot && claim_of(claims, claimant as int)
            == slot && distinct_claims(claims, claimant as int) && claims_fit(
            claims,
            claimant as int,
        ),
        Err(SlotError::TooLarge { claimant }) => claimant < claims.len() && claim_of(
            claims,
            claimant as int,
        ) >= usize::MAX && distinct_claims(claims, claimant as int) && claims_fit(
            claims,
            claimant as int,
        ),
    }
}

/// The result of an allocation as plain values.
pub open spec fn allocation_view(res: Result<Vec<Slot>, SlotError>) -> Result<Seq<Slot>, SlotError> {
    match res {
        Ok(table) => Ok(table@),
        Err(e) => Err(e),
    }
}

/// The first claimant that cannot be placed is the same for any two
/// failures.
proof fn lemma_first_failure(claims: Seq<Option<usize>>, first: SlotError, second: SlotError)
    requires
        is_allocation(claims, Err(first)),
        is_allocation(claims, Err(second)),
    ensures
        failing_claimant(first) <= failing_claimant(second),
{
    let c1 = failing_claimant(first) as int;
    let c2 = failing_claimant(second) as int;
    if c2 < c1 {
        match second {
            SlotError::Collision { holder, claimant, slot } => {
                assert(claim_of(claims, holder as int) == claim_of(claims, claimant as int));
            },
            SlotError::TooLarge { claimant } => {
                assert(claim_of(claims, claimant as int) >= usize::MAX);
            },
        }
    }
}

/// The virtual that a failure names as the one that cannot be placed.
pub open spec fn failing_claimant(e: SlotError) -> usize {
    match e {
        SlotError::Collision { claimant, .. } => claimant,
        SlotError::TooLarge { claimant } => claimant,
    }
}

/// Allocation is deterministic: for one list of claims there is one result,
/// so generating twice from the same declaration gives the same table, or
/// the same failure.
pub proof fn lemma_allocation_is_deterministic(
    claims: Seq<Option<usize>>,
    first: Result<Seq<Slot>, SlotError>,
    second: Result<Seq<Slot>, SlotError>,
)
    requires
        is_allocation(claims, first),
        is_allocation(claims, second),
    ensures
        first == second,
{
    match (first, second) {
        (Ok(_), Ok(_)) => {},
        (Ok(_), Err(e)) => {
            lemma_failure_excludes_success(claims, e);
        },
        (Err(e), Ok(_)) => {
            lemma_failure_excludes_success(claims, e);
        },
        (Err(a), Err(b)) => {
            lemma_first_failure(claims, a, b);
            lemma_first_failure(claims, b, a);
            match (a, b) {
                (
                    SlotError::Collision { holder: h1, claimant, slot: s1 },
                    SlotError::Collision { holder: h2, claimant: _, slot: s2 },
                ) => {
                    if h1 < h2 {
                        assert(claim_of(claims, h1 as int) == claim_of(claims, h2 as int));
                    } else if h2 < h1 {
                        assert(claim_of(claims, h2 as int) == claim_of(claims, h1 as int));
                    }
                },
                (SlotError::Collision { holder, .. }, SlotError::TooLarge { .. }) => {
                    assert(claim_of(claims, holder as int) < usize::MAX);
                },
                (SlotError::TooLarge { .. }, SlotError::Collision { holder, .. }) => {
                    assert(claim_of(claims, holder as int) < usize::MAX);
                },
                (SlotError::TooLarge { .. }, SlotError::TooLarge { .. }) => {},
            }
        },
    }
}

/// Where the allocator may fail, it may not succeed.
proof fn lemma_failure_excludes_success(claims: Seq<Option<usize>>, e: SlotError)
    requires
        is_allocation(claims, Err(e)),
    ensures
        !(distinct_claims(claims, claims.len() as int) && claims_fit(claims, claims.len() as int)),
{
    match e {
        SlotError::Collision { holder, claimant, slot } => {
            assert(claim_of(claims, holder as int) == claim_of(claims, claimant as int));
        },
        SlotError::TooLarge { claimant } => {
            assert(claim_of(claims, claimant as int) >= usize::MAX);
        },
    }
}

/// Allocates the slots of a list of claims, walking it in order.
///
/// It succeeds exactly where no two claims collide and every claim fits, and
/// then gives the table. Otherwise it reports the first virtual that cannot
/// be placed: one whose slot is too large, or one that collides with an
/// earlier holder.
pub fn allocate_slots(claims: &Vec<Option<usize>>) -> (res: Result<Vec<Slot>, SlotError>)
    ensures
        is_allocation(claims@, allocation_view(res)),
{
    let mut table: Vec<Slot> = Vec::new();
    let mut last: Option<usize> = None;
    let mut i: usize = 0;
    while i < claims.len()
        invariant
            i <= claims.len(),
            i == 0 ==> last is None,
            i > 0 ==> (last matches Some(p) && p as int == claim_of(claims@, i as int - 1)
                && p < usize::MAX),
            distinct_claims(claims@, i as int),
            claims_fit(claims@, i as int),
            table.len() == high_of(claims@, i as int) + 1,
            forall|s: int|
                0 <= s < table.len() ==> #[trigger] table@[s] == slot_at(claims@, i as int, s),
        decreases claims.len() - i,
    {
        proof {
            lemma_high(claims@, i as int);
            lemma_claim_nonnegative(claims@, i as int);
        }
        let slot: usize = match claims[i] {
            Some(k) => k,
            None => match last {
                Some(p) => p + 1,
                None => 0,
            },
        };
        assert(slot == claim_of(claims@, i as int));
        if slot == usize::MAX {
            return Err(SlotError::TooLarge { claimant: i });
        }
        let ghost before = table@;
        while table.len() <= slot
            invariant
                slot < usize::MAX,
                before.len() <= table.len(),
                table.len() <= slot + 1 || table.len() == before.len(),
                forall|s: int| 0 <= s < before.len() ==> #[trigger] table@[s] == before[s],
                forall|s: int|
                    0 <= s < before.len() ==> #[trigger] before[s] == slot_at(
                        claims@,
                        i as int,
                        s,
                    ),
                before.len() == high_of(claims@, i as int) + 1,
                forall|s: int|
                    before.len() <= s < table.len() ==> #[trigger] table@[s] == Slot::Placeholder,
            decreases slot + 1 - table.len(),
        {
            table.push(Slot::Placeholder);
        }
        proof {
            assert forall|s: int| before.len() <= s < table.len() implies slot_at(
                claims@,
                i as int,
                s,
            ) == Slot::Placeholder by {
                lemma_holder(claims@, i as int, s);
            }
            lemma_holder(claims@, i as int, slot as int);
        }
        match table[slot] {
            Slot::Method(holder) => {
                proof {
                    assert(slot < before.len());
                    assert(table@[slot as int] == slot_at(claims@, i as int, slot as int));
                    assert(holder_of(claims@, i as int, slot as int) == Some(holder as int));
                }
                return Err(SlotError::Collision { holder, claimant: i, slot });
            },
            Slot::Placeholder => {},
        }
        let ghost grown = table@;
        table.set(slot, Slot::Method(i));
        last = Some(slot);
        i += 1;
        proof {
            assert(holder_of(claims@, i as int - 1, slot as int) is None);
            assert forall|s: int| 0 <= s < table.len() implies table@[s] == slot_at(
                claims@,
                i as int,
                s,
            ) by {
                if s != slot {
                    assert(grown[s] == slot_at(claims@, i as int - 1, s));
                }
            }
            assert forall|a: int, b: int| 0 <= a < b < i implies #[trigger] claim_of(claims@, a)
                != #[trigger] claim_of(claims@, b) by {
                if b == i - 1 {
                    assert(claim_of(claims@, a) != slot);
                }
            }
        }
    }
    proof {
        assert(table@ =~= table_of(claims@));
    }
    Ok(table)
}

/// Organizes the virtuals of a class in slot order: the allocation of the
/// slots that its virtuals claim.
pub fn sort_virtuals(class: &ItemClass) -> (res: Result<Vec<Slot>, SlotError>)
    ensures
        is_allocation(claims_of(class.body.virtuals@), allocation_view(res)),
{
    let mut claims: Vec<Option<usize>> = Vec::new();
    let mut i: usize = 0;
    while i < class.body.virtuals.len()
        invariant
            i <= class.body.virtuals.len(),
            claims.len() == i,
            forall|k: int| 0 <= k < i ==> claims@[k] == class.body.virtuals@[k].index.idx,
        decreases class.body.virtuals.len() - i,
    {
        claims.push(class.body.virtuals[i].index.idx);
        i += 1;
    }
    proof {
        assert(claims@ =~= claims_of(class.body.virtuals@));
    }
    allocate_slots(&claims)
}

} // verus!
