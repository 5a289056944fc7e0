//! Secondary bases: the directive that declares further bases of a base, and
//! the closure of bases for which a class holds a table of its own.

use vstd::prelude::*;
use crate::decl::{BasePath, ItemClass};
use crate::text::{same_text, same_texts, texts_of};

verus! {

/// One entry of the additional-bases directive: a base and the further bases
/// that it is understood to carry.
#[derive(Clone, Debug, PartialEq, Eq)]
pub struct SecondaryBase {
    pub target: BasePath,
    pub bases: Vec<BasePath>,
}

/// A base of the closure: one that the class declares, by its position, or
/// one that the directive adds, by its entry and its position there.
#[derive(Clone, Copy, Debug, PartialEq, Eq, Structural)]
pub enum BaseRef {
    Declared { base: usize },
    Additional { entry: usize, position: usize },
}

/// Two paths are the same: segment by segment and argument by argument.
pub open spec fn same_path(a: BasePath, b: BasePath) -> bool {
    texts_of(a.leading@) == texts_of(b.leading@) && a.ident@ == b.ident@ && texts_of(a.args@)
        == texts_of(b.args@)
}

/// Whether two paths are the same.
pub fn path_eq(a: &BasePath, b: &BasePath) -> (res: bool)
    ensures
        res == same_path(*a, *b),
{
    same_texts(&a.leading, &b.leading) && same_text(&a.ident, &b.ident) && same_texts(
        &a.args,
        &b.args,
    )
}

/// The entry that the directive holds for `path`: the last of the first `n`
/// entries whose target is that path. A later entry for a path replaces an
/// earlier one.
pub open spec fn entry_of(additional: Seq<SecondaryBase>, path: BasePath, n: int) -> Option<int>
    decreases n,
{
    if n <= 0 {
        None
    } else if same_path(additional[n - 1].target, path) {
        Some(n - 1)
    } else {
        entry_of(additional, path, n - 1)
    }
}

/// Looks a path up in the directive.
pub fn find_entry(additional: &Vec<SecondaryBase>, path: &BasePath) -> (res: Option<usize>)
    ensures
        match res {
            Some(e) => entry_of(additional@, *path, additional.len() as int) == Some(e as int)
                && e < additional.len(),
            None => entry_of(additional@, *path, additional.len() as int) is None,
        },
{
    let mut i: usize = additional.len();
    while i > 0
        invariant
            i <= additional.len(),
            entry_of(additional@, *path, additional.len() as int) == entry_of(
                additional@,
                *path,
                i as int,
            ),
        decreases i,
    {
        if path_eq(&additional[i - 1].target, path) {
            return Some(i - 1);
        }
        i -= 1;
    }
    None
}

/// The bases that an entry adds, in its order; none where there is no entry.
pub open spec fn added_by(additional: Seq<SecondaryBase>, entry: Option<int>) -> Seq<BaseRef> {
    match entry {
        Some(e) => Seq::new(
            additional[e].bases@.len(),
            |p: int| BaseRef::Additional { entry: e as usize, position: p as usize },
        ),
        None => Seq::empty(),
    }
}

/// The declared bases of a class with `n` bases, in declaration order.
pub open spec fn declared_of(n: nat) -> Seq<BaseRef> {
    Seq::new(n, |k: int| BaseRef::Declared { base: k as usize })
}

/// How many entries of the directive have not been followed yet.
pub open spec fn pending(done: Seq<bool>) -> nat
    decreases done.len(),
{
    if done.len() == 0 {
        0
    } else {
        pending(done.drop_last()) + if done.last() {
            0nat
        } else {
            1nat
        }
    }
}

/// Following an entry leaves one entry less to follow.
pub proof fn lemma_pending_drops(done: Seq<bool>, e: int)
    requires
        0 <= e < done.len(),
        !done[e],
    ensures
        pending(done.update(e, true)) + 1 == pending(done),
    decreases done.len(),
{
    let after = done.update(e, true);
    if e == done.len() - 1 {
        assert(after.drop_last() =~= done.drop_last());
    } else {
        lemma_pending_drops(done.drop_last(), e);
        assert(after.drop_last() =~= done.drop_last().update(e, true));
    }
}

/// The entry of the directive that the base at `i` of `found` leads to, if
/// it leads to one that has not been followed yet.
pub open spec fn next_entry(
    bases: Seq<BasePath>,
    additional: Seq<SecondaryBase>,
    found: Seq<BaseRef>,
    done: Seq<bool>,
    i: int,
) -> Option<int> {
    match entry_of(additional, path_of(bases, additional, found[i]), additional.len() as int) {
        Some(e) => if 0 <= e < done.len() && !done[e] {
            Some(e)
        } else {
            None
        },
        None => None,
    }
}

/// The bases reached from the bases `found`, looked at from position `i` on:
/// each base in turn is looked up in the directive, and what its entry adds
/// is put at the end, to be looked up later in the same way. An entry is
/// followed once, so that a directive that leads back to a base ends too.
pub open spec fn followed(
    bases: Seq<BasePath>,
    additional: Seq<SecondaryBase>,
    found: Seq<BaseRef>,
    done: Seq<bool>,
    i: int,
) -> Seq<BaseRef>
    decreases pending(done), found.len() - i,
{
    if i < 0 || i >= found.len() {
        found
    } else {
        match next_entry(bases, additional, found, done, i) {
            Some(e) => {
                proof {
                    lemma_pending_drops(done, e);
                }
                followed(
                    bases,
                    additional,
                    found + added_by(additional, Some(e)),
                    done.update(e, true),
                    i + 1,
                )
            },
            None => followed(bases, additional, found, done, i + 1),
        }
    }
}

/// All bases of a class: the declared ones, then every base that is reached
/// from them through the directive, each entry of the directive followed
/// once, in the order in which the bases are reached.
pub open spec fn reached_of(bases: Seq<BasePath>, additional: Seq<SecondaryBase>) -> Seq<BaseRef> {
    followed(bases, additional, declared_of(bases.len()), fresh(additional), 0)
}

/// All that the directive adds to a class: the bases reached from its
/// declared bases through the directive, without the declared bases
/// themselves.
pub open spec fn all_added_of(bases: Seq<BasePath>, additional: Seq<SecondaryBase>) -> Seq<BaseRef> {
    reached_of(bases, additional).subrange(
        bases.len() as int,
        reached_of(bases, additional).len() as int,
    )
}

/// The declared bases after the primary one, among the first `n`.
pub open spec fn declared_secondary_of(n: int) -> Seq<BaseRef> {
    if n <= 1 {
        Seq::empty()
    } else {
        Seq::new((n - 1) as nat, |k: int| BaseRef::Declared { base: (k + 1) as usize })
    }
}

/// No entry of the directive has been followed yet.
pub open spec fn fresh(additional: Seq<SecondaryBase>) -> Seq<bool> {
    Seq::new(additional.len(), |e: int| false)
}

/// The bases reached from the declared base at `k` through the directive,
/// without that base itself: what the directive adds to it comes first,
/// then what is reached from there.
pub open spec fn reached_from(bases: Seq<BasePath>, additional: Seq<SecondaryBase>, k: int) -> Seq<
    BaseRef,
> {
    let all = followed(
        bases,
        additional,
        seq![BaseRef::Declared { base: k as usize }],
        fresh(additional),
        0,
    );
    all.subrange(1, all.len() as int)
}

/// The secondary bases of a class, going by its first `n` declared bases:
/// every declared base but the primary one, each right behind what came
/// before it and followed directly by what is reached from it.
pub open spec fn secondary_upto(bases: Seq<BasePath>, additional: Seq<SecondaryBase>, n: int) -> Seq<
    BaseRef,
>
    decreases n,
{
    if n <= 0 {
        Seq::empty()
    } else if n == 1 {
        reached_from(bases, additional, 0)
    } else {
        secondary_upto(bases, additional, n - 1).push(
            BaseRef::Declared { base: (n - 1) as usize },
        ) + reached_from(bases, additional, n - 1)
    }
}

/// The secondary bases of a class, for each of which it holds a table of
/// its own: for every declared base in declaration order, the base itself,
/// but for the primary one, followed directly by the bases that are reached
/// from it through the directive.
pub open spec fn secondary_bases_of(bases: Seq<BasePath>, additional: Seq<SecondaryBase>) -> Seq<
    BaseRef,
> {
    secondary_upto(bases, additional, bases.len() as int)
}

/// The bases for which a constructor takes a table pointer besides its own:
/// the declared bases after the primary one, then all that the directive
/// adds.
pub open spec fn threaded_bases_of(bases: Seq<BasePath>, additional: Seq<SecondaryBase>) -> Seq<
    BaseRef,
> {
    declared_secondary_of(bases.len() as int) + all_added_of(bases, additional)
}

/// From position `i` on nothing more is reached where no base from there on
/// leads to an entry that has not been followed.
pub proof fn lemma_followed_idle(
    bases: Seq<BasePath>,
    additional: Seq<SecondaryBase>,
    found: Seq<BaseRef>,
    done: Seq<bool>,
    i: int,
)
    requires
        0 <= i,
        forall|j: int|
            i <= j < found.len() ==> (#[trigger] next_entry(bases, additional, found, done, j))
                is None,
    ensures
        followed(bases, additional, found, done, i) == found,
    decreases found.len() - i,
{
    if i < found.len() {
        assert(next_entry(bases, additional, found, done, i) is None);
        lemma_followed_idle(bases, additional, found, done, i + 1);
    }
}

/// The bases that the directive adds to the declared base at `k`.
pub open spec fn added_to(bases: Seq<BasePath>, additional: Seq<SecondaryBase>, k: int) -> Seq<
    BaseRef,
> {
    added_by(additional, entry_of(additional, bases[k], additional.len() as int))
}

/// None of the bases that the directive adds to the declared base at `k`
/// has an entry of its own.
pub open spec fn leads_no_further(bases: Seq<BasePath>, additional: Seq<SecondaryBase>, k: int) -> bool {
    forall|p: int|
        0 <= p < added_to(bases, additional, k).len() ==> entry_of(
            additional,
            path_of(bases, additional, #[trigger] added_to(bases, additional, k)[p]),
            additional.len() as int,
        ) is None
}

/// Where the bases that the directive adds to a declared base lead no
/// further, what is reached from that base is what the directive adds to
/// it, in the directive's order.
pub proof fn lemma_direct_additions(bases: Seq<BasePath>, additional: Seq<SecondaryBase>, k: int)
    requires
        0 <= k < bases.len(),
        k <= usize::MAX,
        leads_no_further(bases, additional, k),
    ensures
        reached_from(bases, additional, k) == added_to(bases, additional, k),
{
    let start = seq![BaseRef::Declared { base: k as usize }];
    let none = fresh(additional);
    let entry = entry_of(additional, bases[k], additional.len() as int);
    let added = added_to(bases, additional, k);
    lemma_entry_of(additional, bases[k], additional.len() as int);
    assert(path_of(bases, additional, start[0]) == bases[k]);
    match entry {
        Some(e) => {
            assert(next_entry(bases, additional, start, none, 0) == Some(e));
            let more = start + added;
            let after = none.update(e, true);
            assert forall|j: int| 1 <= j < more.len() implies (#[trigger] next_entry(
                bases,
                additional,
                more,
                after,
                j,
            )) is None by {
                assert(more[j] == added[j - 1]);
            }
            lemma_followed_idle(bases, additional, more, after, 1);
            assert(more.subrange(1, more.len() as int) =~= added);
        },
        None => {
            assert(next_entry(bases, additional, start, none, 0) is None);
            lemma_followed_idle(bases, additional, start, none, 1);
            assert(start.subrange(1, 1) =~= added);
        },
    }
}

/// The declared bases of the first `n`, each followed directly by what the
/// directive adds to it, without the primary base itself.
pub open spec fn direct_secondary_of(bases: Seq<BasePath>, additional: Seq<SecondaryBase>, n: int) -> Seq<
    BaseRef,
>
    decreases n,
{
    if n <= 0 {
        Seq::empty()
    } else if n == 1 {
        added_to(bases, additional, 0)
    } else {
        direct_secondary_of(bases, additional, n - 1).push(
            BaseRef::Declared { base: (n - 1) as usize },
        ) + added_to(bases, additional, n - 1)
    }
}

/// Where no base that the directive adds to a declared base has an entry of
/// its own, the secondary bases are the declared bases in declaration
/// order, each followed directly by what the directive adds to it, without
/// the primary base.
pub proof fn lemma_secondary_of_direct_additions(
    bases: Seq<BasePath>,
    additional: Seq<SecondaryBase>,
    n: int,
)
    requires
        0 <= n <= bases.len(),
        bases.len() <= usize::MAX,
        forall|k: int| 0 <= k < n ==> #[trigger] leads_no_further(bases, additional, k),
    ensures
        secondary_upto(bases, additional, n) == direct_secondary_of(bases, additional, n),
    decreases n,
{
    if n > 0 {
        lemma_secondary_of_direct_additions(bases, additional, n - 1);
        assert(leads_no_further(bases, additional, n - 1));
        lemma_direct_additions(bases, additional, n - 1);
    }
}

/// What is reached holds the bases it started from, in their places.
pub proof fn lemma_followed_keeps(
    bases: Seq<BasePath>,
    additional: Seq<SecondaryBase>,
    found: Seq<BaseRef>,
    done: Seq<bool>,
    i: int,
)
    ensures
        followed(bases, additional, found, done, i).len() >= found.len(),
        forall|j: int|
            0 <= j < found.len() ==> #[trigger] followed(bases, additional, found, done, i)[j]
                == found[j],
    decreases pending(done), found.len() - i,
{
    if !(i < 0 || i >= found.len()) {
        match next_entry(bases, additional, found, done, i) {
            Some(e) => {
                lemma_pending_drops(done, e);
                let more = found + added_by(additional, Some(e));
                lemma_followed_keeps(bases, additional, more, done.update(e, true), i + 1);
                assert forall|j: int| 0 <= j < found.len() implies #[trigger] followed(
                    bases,
                    additional,
                    found,
                    done,
                    i,
                )[j] == found[j] by {
                    assert(more[j] == found[j]);
                }
            },
            None => {
                lemma_followed_keeps(bases, additional, found, done, i + 1);
            },
        }
    }
}

/// A reference points into the class and the directive.
pub open spec fn valid_ref(bases: Seq<BasePath>, additional: Seq<SecondaryBase>, r: BaseRef) -> bool {
    match r {
        BaseRef::Declared { base } => base < bases.len(),
        BaseRef::Additional { entry, position } => entry < additional.len() && position
            < additional[entry as int].bases.len(),
    }
}

/// The path that a reference stands for.
pub open spec fn path_of(bases: Seq<BasePath>, additional: Seq<SecondaryBase>, r: BaseRef) -> BasePath {
    match r {
        BaseRef::Declared { base } => bases[base as int],
        BaseRef::Additional { entry, position } => additional[entry as int].bases[position as int],
    }
}

/// Gives the path that a reference stands for.
pub fn resolve<'a>(
    class: &'a ItemClass,
    additional: &'a Vec<SecondaryBase>,
    r: BaseRef,
) -> (res: &'a BasePath)
    requires
        valid_ref(class.bases.bases@, additional@, r),
    ensures
        *res == path_of(class.bases.bases@, additional@, r),
{
    match r {
        BaseRef::Declared { base } => &class.bases.bases[base],
        BaseRef::Additional { entry, position } => &additional[entry].bases[position],
    }
}

/// Follows the directive from the bases `start`: gives them, and behind
/// them every base that is reached from them.
fn follow(class: &ItemClass, additional: &Vec<SecondaryBase>, start: Vec<BaseRef>) -> (res: Vec<BaseRef>)
    requires
        forall|j: int|
            0 <= j < start.len() ==> valid_ref(class.bases.bases@, additional@, #[trigger] start@[j]),
    ensures
        res@ == followed(class.bases.bases@, additional@, start@, fresh(additional@), 0),
        res.len() >= start.len(),
        forall|k: int| 0 <= k < start.len() ==> #[trigger] res@[k] == start@[k],
        forall|j: int|
            0 <= j < res.len() ==> valid_ref(class.bases.bases@, additional@, #[trigger] res@[j]),
{
    let ghost begin = start@;
    let n = start.len();
    let mut found = start;
    let mut done: Vec<bool> = Vec::new();
    let mut e: usize = 0;
    while e < additional.len()
        invariant
            e <= additional.len(),
            done@ == Seq::new(e as nat, |x: int| false),
        decreases additional.len() - e,
    {
        done.push(false);
        e += 1;
        proof {
            assert(done@ =~= Seq::new(e as nat, |x: int| false));
        }
    }
    let ghost none = done@;
    let mut i: usize = 0;
    while i < found.len()
        invariant
            n == begin.len(),
            none == fresh(additional@),
            i <= found.len(),
            done.len() == additional.len(),
            found.len() >= n,
            forall|k: int| 0 <= k < n ==> #[trigger] found@[k] == begin[k],
            forall|j: int|
                0 <= j < found.len() ==> valid_ref(
                    class.bases.bases@,
                    additional@,
                    #[trigger] found@[j],
                ),
            followed(class.bases.bases@, additional@, found@, done@, i as int) == followed(
                class.bases.bases@,
                additional@,
                begin,
                none,
                0,
            ),
        decreases pending(done@), found.len() - i,
    {
        let path = resolve(class, additional, found[i]);
        let ghost before = found@;
        let ghost was = done@;
        let next = match find_entry(additional, path) {
            Some(e) => if done[e] {
                None
            } else {
                Some(e)
            },
            None => None,
        };
        proof {
            assert(match next {
                Some(e) => next_entry(class.bases.bases@, additional@, before, was, i as int)
                    == Some(e as int),
                None => next_entry(class.bases.bases@, additional@, before, was, i as int) is None,
            });
        }
        match next {
            Some(e) => {
                let mut p: usize = 0;
                while p < additional[e].bases.len()
                    invariant
                        e < additional.len(),
                        p <= additional[e as int].bases.len(),
                        found@ == before + added_by(additional@, Some(e as int)).subrange(
                            0,
                            p as int,
                        ),
                        forall|j: int|
                            0 <= j < found.len() ==> valid_ref(
                                class.bases.bases@,
                                additional@,
                                #[trigger] found@[j],
                            ),
                    decreases additional[e as int].bases.len() - p,
                {
                    found.push(BaseRef::Additional { entry: e, position: p });
                    p += 1;
                    proof {
                        let all = added_by(additional@, Some(e as int));
                        assert(all.subrange(0, p as int) =~= all.subrange(0, p as int - 1).push(
                            all[p as int - 1],
                        ));
                        assert(found@ =~= before + all.subrange(0, p as int));
                    }
                }
                done.set(e, true);
                proof {
                    let all = added_by(additional@, Some(e as int));
                    assert(all.subrange(0, p as int) =~= all);
                    assert(found@ == before + all);
                    lemma_pending_drops(was, e as int);
                    assert forall|k: int| 0 <= k < n implies #[trigger] found@[k] == begin[k] by {
                        assert(found@[k] == before[k]);
                    }
                }
            },
            None => {},
        }
        i += 1;
    }
    found
}

/// Collects all bases of a class: the declared ones, then every base
/// reached from them through the directive.
fn reach(class: &ItemClass, additional: &Vec<SecondaryBase>) -> (res: Vec<BaseRef>)
    ensures
        res@ == reached_of(class.bases.bases@, additional@),
        res.len() >= class.bases.bases.len(),
        forall|k: int|
            0 <= k < class.bases.bases.len() ==> #[trigger] res@[k] == (BaseRef::Declared {
                base: k as usize,
            }),
        forall|j: int|
            0 <= j < res.len() ==> valid_ref(class.bases.bases@, additional@, #[trigger] res@[j]),
{
    let n = class.bases.bases.len();
    let mut declared: Vec<BaseRef> = Vec::new();
    let mut k: usize = 0;
    while k < n
        invariant
            n == class.bases.bases.len(),
            k <= n,
            declared@ == declared_of(k as nat),
        decreases n - k,
    {
        declared.push(BaseRef::Declared { base: k });
        k += 1;
        proof {
            assert(declared@ =~= declared_of(k as nat));
        }
    }
    follow(class, additional, declared)
}

/// Collects the secondary bases of a class: for every declared base in
/// declaration order, the base itself, but for the primary one, followed
/// directly by the bases that are reached from it through the directive.
pub fn collect_secondary_bases(class: &ItemClass, additional: &Vec<SecondaryBase>) -> (res: Vec<BaseRef>)
    ensures
        res@ == secondary_bases_of(class.bases.bases@, additional@),
        forall|j: int|
            0 <= j < res.len() ==> valid_ref(class.bases.bases@, additional@, #[trigger] res@[j]),
{
    let mut out: Vec<BaseRef> = Vec::new();
    let mut k: usize = 0;
    while k < class.bases.bases.len()
        invariant
            k <= class.bases.bases.len(),
            out@ == secondary_upto(class.bases.bases@, additional@, k as int),
            forall|j: int|
                0 <= j < out.len() ==> valid_ref(
                    class.bases.bases@,
                    additional@,
                    #[trigger] out@[j],
                ),
        decreases class.bases.bases.len() - k,
    {
        if k > 0 {
            out.push(BaseRef::Declared { base: k });
        }
        let mut start: Vec<BaseRef> = Vec::new();
        start.push(BaseRef::Declared { base: k });
        proof {
            assert(start@ =~= seq![BaseRef::Declared { base: k }]);
        }
        let all = follow(class, additional, start);
        let ghost head = out@;
        let mut p: usize = 1;
        while p < all.len()
            invariant
                1 <= p <= all.len(),
                out@ == head + all@.subrange(1, p as int),
                forall|j: int|
                    0 <= j < all.len() ==> valid_ref(
                        class.bases.bases@,
                        additional@,
                        #[trigger] all@[j],
                    ),
                forall|j: int|
                    0 <= j < out.len() ==> valid_ref(
                        class.bases.bases@,
                        additional@,
                        #[trigger] out@[j],
                    ),
            decreases all.len() - p,
        {
            out.push(all[p]);
            p += 1;
            proof {
                assert(out@ =~= head + all@.subrange(1, p as int));
            }
        }
        k += 1;
        proof {
            assert(out@ =~= secondary_upto(class.bases.bases@, additional@, k as int));
        }
    }
    out
}

/// Collects all that the directive adds to a class: every base that is
/// reached from its declared bases through the directive.
pub fn collect_added_bases(class: &ItemClass, additional: &Vec<SecondaryBase>) -> (res: Vec<BaseRef>)
    ensures
        res@ == all_added_of(class.bases.bases@, additional@),
        forall|j: int|
            0 <= j < res.len() ==> valid_ref(class.bases.bases@, additional@, #[trigger] res@[j]),
{
    let all = reach(class, additional);
    let n = class.bases.bases.len();
    let mut out: Vec<BaseRef> = Vec::new();
    let mut k: usize = n;
    while k < all.len()
        invariant
            n <= k <= all.len(),
            out@ == all@.subrange(n as int, k as int),
            forall|j: int|
                0 <= j < all.len() ==> valid_ref(
                    class.bases.bases@,
                    additional@,
                    #[trigger] all@[j],
                ),
            forall|j: int|
                0 <= j < out.len() ==> valid_ref(
                    class.bases.bases@,
                    additional@,
                    #[trigger] out@[j],
                ),
        decreases all.len() - k,
    {
        out.push(all[k]);
        k += 1;
        proof {
            assert(out@ =~= all@.subrange(n as int, k as int));
        }
    }
    out
}

/// Collects the bases for which a constructor of the class takes a table
/// pointer besides its own: the declared bases after the primary one, then
/// every base that is reached from the declared bases through the
/// directive.
pub fn collect_threaded_bases(class: &ItemClass, additional: &Vec<SecondaryBase>) -> (res: Vec<BaseRef>)
    ensures
        res@ == threaded_bases_of(class.bases.bases@, additional@),
        forall|j: int|
            0 <= j < res.len() ==> valid_ref(class.bases.bases@, additional@, #[trigger] res@[j]),
{
    let all = reach(class, additional);
    let mut out: Vec<BaseRef> = Vec::new();
    if all.len() == 0 {
        proof {
            assert(out@ =~= threaded_bases_of(class.bases.bases@, additional@));
        }
        return out;
    }
    proof {
        assert(out@ =~= all@.subrange(1, 1));
    }
    let mut k: usize = 1;
    while k < all.len()
        invariant
            1 <= k <= all.len(),
            out@ == all@.subrange(1, k as int),
            forall|j: int|
                0 <= j < all.len() ==> valid_ref(
                    class.bases.bases@,
                    additional@,
                    #[trigger] all@[j],
                ),
            forall|j: int|
                0 <= j < out.len() ==> valid_ref(
                    class.bases.bases@,
                    additional@,
                    #[trigger] out@[j],
                ),
        decreases all.len() - k,
    {
        out.push(all[k]);
        k += 1;
        proof {
            assert(out@ =~= all@.subrange(1, k as int));
        }
    }
    proof {
        let n = class.bases.bases.len() as int;
        let want = threaded_bases_of(class.bases.bases@, additional@);
        if n == 0 {
            lemma_entry_free(class.bases.bases@, additional@);
        } else {
            assert(want.len() == out@.len());
            assert forall|j: int| 0 <= j < out@.len() implies out@[j] == want[j] by {
                assert(out@[j] == all@[j + 1]);
                if j + 1 < n {
                    assert(all@[j + 1] == BaseRef::Declared { base: (j + 1) as usize });
                }
            }
            assert(out@ =~= want);
        }
    }
    out
}

/// The entry found lies among the entries.
pub proof fn lemma_entry_of(additional: Seq<SecondaryBase>, path: BasePath, n: int)
    requires
        0 <= n <= additional.len(),
    ensures
        entry_of(additional, path, n) matches Some(e) ==> 0 <= e < n,
    decreases n,
{
    if n > 0 {
        lemma_entry_of(additional, path, n - 1);
    }
}

/// The entry of the directive that a base leads to.
pub open spec fn leads_to(
    bases: Seq<BasePath>,
    additional: Seq<SecondaryBase>,
    r: BaseRef,
) -> Option<int> {
    entry_of(additional, path_of(bases, additional, r), additional.len() as int)
}

/// Every base that the entry `e` adds is among `found`.
pub open spec fn holds_entry(additional: Seq<SecondaryBase>, found: Seq<BaseRef>, e: int) -> bool {
    forall|p: int|
        0 <= p < additional[e].bases.len() ==> found.contains(
            #[trigger] added_by(additional, Some(e))[p],
        )
}

/// The bases `found` are closed under the directive: with a base they hold
/// every base that the directive adds to it.
pub open spec fn closed(
    bases: Seq<BasePath>,
    additional: Seq<SecondaryBase>,
    found: Seq<BaseRef>,
) -> bool {
    forall|j: int|
        0 <= j < found.len() ==> (#[trigger] leads_to(bases, additional, found[j]) matches Some(
            e,
        ) ==> holds_entry(additional, found, e))
}

/// While the directive is followed, what every followed entry adds has been
/// found, and the entry of every base looked at has been followed.
pub open spec fn following(
    bases: Seq<BasePath>,
    additional: Seq<SecondaryBase>,
    found: Seq<BaseRef>,
    done: Seq<bool>,
    i: int,
) -> bool {
    &&& done.len() == additional.len()
    &&& forall|e: int| 0 <= e < done.len() && #[trigger] done[e] ==> holds_entry(additional, found, e)
    &&& forall|j: int|
        0 <= j < i ==> (#[trigger] leads_to(bases, additional, found[j]) matches Some(e) ==> 0
            <= e < done.len() && done[e])
}

/// What an entry adds stays found when more is found.
proof fn lemma_holds_more(
    additional: Seq<SecondaryBase>,
    found: Seq<BaseRef>,
    more: Seq<BaseRef>,
    e: int,
)
    requires
        holds_entry(additional, found, e),
    ensures
        holds_entry(additional, found + more, e),
{
    assert forall|p: int| 0 <= p < additional[e].bases.len() implies (found + more).contains(
        #[trigger] added_by(additional, Some(e))[p],
    ) by {
        let x = added_by(additional, Some(e))[p];
        assert(found.contains(x));
        let k = choose|k: int| 0 <= k < found.len() && found[k] == x;
        assert((found + more)[k] == x);
    }
}

/// Following the directive to its end gives bases that are closed under it.
proof fn lemma_followed_closed(
    bases: Seq<BasePath>,
    additional: Seq<SecondaryBase>,
    found: Seq<BaseRef>,
    done: Seq<bool>,
    i: int,
)
    requires
        following(bases, additional, found, done, i),
        0 <= i <= found.len(),
    ensures
        closed(bases, additional, followed(bases, additional, found, done, i)),
    decreases pending(done), found.len() - i,
{
    if i < found.len() {
        lemma_entry_of(
            additional,
            path_of(bases, additional, found[i]),
            additional.len() as int,
        );
        match next_entry(bases, additional, found, done, i) {
            Some(e) => {
                lemma_pending_drops(done, e);
                let added = added_by(additional, Some(e));
                let more = found + added;
                let after = done.update(e, true);
                assert forall|x: int| 0 <= x < after.len() && #[trigger] after[x] implies holds_entry(
                    additional,
                    more,
                    x,
                ) by {
                    if x == e {
                        assert forall|p: int| 0 <= p < additional[e].bases.len() implies more.contains(
                            #[trigger] added_by(additional, Some(e))[p],
                        ) by {
                            assert(more[found.len() + p] == added[p]);
                        }
                    } else {
                        assert(done[x]);
                        lemma_holds_more(additional, found, added, x);
                    }
                }
                assert forall|j: int| 0 <= j < i + 1 implies (#[trigger] leads_to(
                    bases,
                    additional,
                    more[j],
                ) matches Some(x) ==> 0 <= x < after.len() && after[x]) by {
                    assert(more[j] == found[j]);
                    if j < i {
                        let _ = leads_to(bases, additional, found[j]);
                    }
                }
                lemma_followed_closed(bases, additional, more, after, i + 1);
            },
            None => {
                assert forall|j: int| 0 <= j < i + 1 implies (#[trigger] leads_to(
                    bases,
                    additional,
                    found[j],
                ) matches Some(x) ==> 0 <= x < done.len() && done[x]) by {}
                lemma_followed_closed(bases, additional, found, done, i + 1);
            },
        }
    }
}

/// The closure is complete: the bases of a class hold its declared bases
/// and, with every base, all that the directive adds to that base; so a
/// base that is reached through any number of entries is among them.
pub proof fn lemma_closure_is_complete(bases: Seq<BasePath>, additional: Seq<SecondaryBase>)
    ensures
        closed(bases, additional, reached_of(bases, additional)),
        reached_of(bases, additional).len() >= bases.len(),
        forall|k: int|
            0 <= k < bases.len() ==> #[trigger] reached_of(bases, additional)[k]
                == (BaseRef::Declared { base: k as usize }),
{
    let none = fresh(additional);
    lemma_followed_closed(bases, additional, declared_of(bases.len()), none, 0);
    lemma_followed_keeps(bases, additional, declared_of(bases.len()), none, 0);
}

/// A class without declared bases reaches nothing.
pub proof fn lemma_entry_free(bases: Seq<BasePath>, additional: Seq<SecondaryBase>)
    requires
        bases.len() == 0,
    ensures
        reached_of(bases, additional).len() == 0,
{
}

} // verus!
