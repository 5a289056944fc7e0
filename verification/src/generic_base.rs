//! The generic-base resolver: it makes a class concrete for the types that a
//! substitution group binds to its generic parameters.

use vstd::prelude::*;
use crate::decl::{BaseClasses, BasePath, GenericParam, ItemClass, ParamKind};
use crate::naming::{concrete_ident_of, make_concrete_ident};
use crate::text::{copy_text, copy_texts, texts_of};

verus! {

/// One substitution: the generic parameter `base` stands for the type `repl`.
#[derive(Clone, Debug, PartialEq, Eq)]
pub struct GenericBase {
    pub base: String,
    pub repl: BasePath,
}

/// A path as plain texts: its leading segments, its identifier and its
/// generic arguments.
pub struct PathView {
    pub leading: Seq<Seq<char>>,
    pub ident: Seq<char>,
    pub args: Seq<Seq<char>>,
}

/// The view of a path.
pub open spec fn path_view(path: BasePath) -> PathView {
    PathView { leading: texts_of(path.leading@), ident: path.ident@, args: texts_of(path.args@) }
}

/// The first `n` arguments without those that name the parameter.
pub open spec fn kept_args(args: Seq<Seq<char>>, param: Seq<char>, n: int) -> Seq<Seq<char>>
    decreases n,
{
    if n <= 0 {
        Seq::empty()
    } else if args[n - 1] == param {
        kept_args(args, param, n - 1)
    } else {
        kept_args(args, param, n - 1).push(args[n - 1])
    }
}

/// The identifier of a path after the parameter was taken out of its first
/// `n` arguments: the concrete type's name is appended once for every
/// argument taken out.
pub open spec fn stripped_ident(
    args: Seq<Seq<char>>,
    ident: Seq<char>,
    param: Seq<char>,
    concrete: Seq<char>,
    n: int,
) -> Seq<char>
    decreases n,
{
    if n <= 0 {
        ident
    } else if args[n - 1] == param {
        concrete_ident_of(stripped_ident(args, ident, param, concrete, n - 1), concrete)
    } else {
        stripped_ident(args, ident, param, concrete, n - 1)
    }
}

/// A path after the parameter was taken out of its arguments.
pub open spec fn stripped(path: PathView, param: Seq<char>, concrete: Seq<char>) -> PathView {
    PathView {
        leading: path.leading,
        ident: stripped_ident(path.args, path.ident, param, concrete, path.args.len() as int),
        args: kept_args(path.args, param, path.args.len() as int),
    }
}

/// The first of the first `n` bases whose identifier is the parameter.
pub open spec fn first_base(bases: Seq<BasePath>, param: Seq<char>, n: int) -> Option<int>
    decreases n,
{
    if n <= 0 {
        None
    } else {
        match first_base(bases, param, n - 1) {
            Some(i) => Some(i),
            None => if bases[n - 1].ident@ == param {
                Some(n - 1)
            } else {
                None
            },
        }
    }
}

/// A base found among the first `n` is the one found among more, and lies
/// among them.
pub proof fn lemma_first_base(bases: Seq<BasePath>, param: Seq<char>, n: int, m: int)
    requires
        0 <= n <= m <= bases.len(),
    ensures
        first_base(bases, param, n) matches Some(i) ==> 0 <= i < n && first_base(bases, param, m)
            == Some(i),
    decreases m,
{
    if n > 0 {
        lemma_first_base(bases, param, n - 1, n - 1);
    }
    if m > n {
        lemma_first_base(bases, param, n, m - 1);
    }
}

/// The base at `k` once the parameter is bound: the concrete type where the
/// base is the first that names the parameter, else the base itself; in both
/// cases without the parameter among its arguments.
pub open spec fn concrete_base(bases: Seq<BasePath>, sub: GenericBase, k: int) -> PathView {
    let bound = if first_base(bases, sub.base@, bases.len() as int) == Some(k) {
        path_view(sub.repl)
    } else {
        path_view(bases[k])
    };
    stripped(bound, sub.base@, sub.repl.ident@)
}

/// The first `n` generic parameters without the type parameters of a name.
pub open spec fn kept_params(generics: Seq<GenericParam>, param: Seq<char>, n: int) -> Seq<
    GenericParam,
>
    decreases n,
{
    if n <= 0 {
        Seq::empty()
    } else if generics[n - 1].kind == ParamKind::Type && generics[n - 1].ident@ == param {
        kept_params(generics, param, n - 1)
    } else {
        kept_params(generics, param, n - 1).push(generics[n - 1])
    }
}

/// The class `after` is `before` with one substitution applied: it is named
/// for the concrete type, the parameter is gone from its generics, the first
/// base that names the parameter is the concrete type, and no base has the
/// parameter among its arguments. Everything else is as it was.
pub open spec fn substituted(before: ItemClass, sub: GenericBase, after: ItemClass) -> bool {
    &&& after.ident@ == concrete_ident_of(before.ident@, sub.repl.ident@)
    &&& after.generics@ == kept_params(before.generics@, sub.base@, before.generics.len() as int)
    &&& after.bases.bases.len() == before.bases.bases.len()
    &&& forall|k: int|
        0 <= k < before.bases.bases.len() ==> path_view(#[trigger] after.bases.bases@[k]) == concrete_base(
            before.bases.bases@,
            sub,
            k,
        )
    &&& after.attrs == before.attrs
    &&& after.vis == before.vis
    &&& after.body == before.body
}

/// Takes the parameter out of the arguments of a path.
fn strip_path(path: BasePath, param: &String, concrete: &String) -> (res: BasePath)
    ensures
        path_view(res) == stripped(path_view(path), param@, concrete@),
{
    let ghost orig = texts_of(path.args@);
    let ghost ident0 = path.ident@;
    let BasePath { leading, ident, args } = path;
    let mut ident = ident;
    let mut args = args;
    let mut i: usize = 0;
    let ghost mut j: int = 0;
    while i < args.len()
        invariant
            0 <= j <= orig.len(),
            i <= args.len(),
            args.len() - i == orig.len() - j,
            texts_of(args@).subrange(0, i as int) == kept_args(orig, param@, j),
            forall|k: int| 0 <= k < args.len() - i ==> (#[trigger] args@[i + k])@ == orig[j + k],
            ident@ == stripped_ident(orig, ident0, param@, concrete@, j),
        decreases args.len() - i,
    {
        let ghost before = args@;
        if *(&args[i]) == *param {
            let _ = args.remove(i);
            ident = make_concrete_ident(&ident, concrete);
            proof {
                assert(texts_of(args@).subrange(0, i as int) =~= texts_of(before).subrange(
                    0,
                    i as int,
                ));
                assert forall|k: int| 0 <= k < args.len() - i implies (#[trigger] args@[i + k])@
                    == orig[j + 1 + k] by {
                    assert(args@[i + k] == before[i + (k + 1)]);
                }
                j = j + 1;
            }
        } else {
            proof {
                assert(args@[i + 0]@ == orig[j + 0]);
                assert(texts_of(args@).subrange(0, i as int + 1) =~= texts_of(args@).subrange(
                    0,
                    i as int,
                ).push(args@[i as int]@));
                assert forall|k: int| 0 <= k < args.len() - (i + 1) implies (#[trigger] args@[i
                    + 1 + k])@ == orig[j + 1 + k] by {
                    assert(args@[i + (k + 1)]@ == orig[j + (k + 1)]);
                }
                j = j + 1;
            }
            i += 1;
        }
    }
    proof {
        assert(texts_of(args@).subrange(0, i as int) =~= texts_of(args@));
    }
    BasePath { leading, ident, args }
}

/// Takes the type parameters of a name out of a list of generics.
fn strip_params(generics: Vec<GenericParam>, param: &String) -> (res: Vec<GenericParam>)
    ensures
        res@ == kept_params(generics@, param@, generics.len() as int),
{
    let ghost orig = generics@;
    let mut generics = generics;
    let mut i: usize = 0;
    let ghost mut j: int = 0;
    while i < generics.len()
        invariant
            0 <= j <= orig.len(),
            i <= generics.len(),
            generics.len() - i == orig.len() - j,
            generics@.subrange(0, i as int) == kept_params(orig, param@, j),
            forall|k: int|
                0 <= k < generics.len() - i ==> #[trigger] generics@[i + k] == orig[j + k],
        decreases generics.len() - i,
    {
        let ghost before = generics@;
        let hit = match generics[i].kind {
            ParamKind::Type => *(&generics[i].ident) == *param,
            _ => false,
        };
        proof {
            assert(generics@[i + 0] == orig[j + 0]);
        }
        if hit {
            let _ = generics.remove(i);
            proof {
                assert(generics@.subrange(0, i as int) =~= before.subrange(0, i as int));
                assert forall|k: int| 0 <= k < generics.len() - i implies #[trigger] generics@[i
                    + k] == orig[j + 1 + k] by {
                    assert(generics@[i + k] == before[i + (k + 1)]);
                }
                j = j + 1;
            }
        } else {
            proof {
                assert(generics@.subrange(0, i as int + 1) =~= generics@.subrange(
                    0,
                    i as int,
                ).push(generics@[i as int]));
                assert forall|k: int| 0 <= k < generics.len() - (i + 1) implies #[trigger] generics@[i
                    + 1 + k] == orig[j + 1 + k] by {
                    assert(generics@[i + (k + 1)] == orig[j + (k + 1)]);
                }
                j = j + 1;
            }
            i += 1;
        }
    }
    proof {
        assert(generics@.subrange(0, i as int) =~= generics@);
    }
    generics
}

/// Finds the first base whose identifier is the parameter.
fn find_base(bases: &Vec<BasePath>, param: &String) -> (res: Option<usize>)
    ensures
        match res {
            Some(i) => first_base(bases@, param@, bases.len() as int) == Some(i as int) && i
                < bases.len(),
            None => first_base(bases@, param@, bases.len() as int) is None,
        },
{
    let mut i: usize = 0;
    while i < bases.len()
        invariant
            i <= bases.len(),
            first_base(bases@, param@, i as int) is None,
        decreases bases.len() - i,
    {
        if *(&bases[i].ident) == *param {
            proof {
                lemma_first_base(bases@, param@, i as int + 1, bases.len() as int);
            }
            return Some(i);
        }
        i += 1;
    }
    None
}

/// Applies one substitution to a class.
pub fn apply_generic_base(class: ItemClass, sub: &GenericBase) -> (res: ItemClass)
    ensures
        substituted(class, *sub, res),
{
    let ghost before = class;
    let ItemClass { attrs, vis, ident, generics, bases, body } = class;
    let BaseClasses { bases } = bases;
    let new_ident = make_concrete_ident(&ident, &sub.repl.ident);
    let target = find_base(&bases, &sub.base);
    let generics = strip_params(generics, &sub.base);
    let mut bases = bases;
    let n = bases.len();
    let mut k: usize = 0;
    while k < n
        invariant
            n == before.bases.bases.len(),
            bases.len() == n,
            k <= n,
            match target {
                Some(i) => first_base(before.bases.bases@, sub.base@, n as int) == Some(i as int),
                None => first_base(before.bases.bases@, sub.base@, n as int) is None,
            },
            forall|j: int|
                0 <= j < k ==> path_view(#[trigger] bases@[j]) == concrete_base(
                    before.bases.bases@,
                    *sub,
                    j,
                ),
            forall|j: int| k <= j < n ==> #[trigger] bases@[j] == before.bases.bases@[j],
        decreases n - k,
    {
        let ghost prev = bases@;
        let taken = bases.remove(k);
        let bound = if target == Some(k) {
            BasePath {
                leading: copy_texts(&sub.repl.leading),
                ident: copy_text(&sub.repl.ident),
                args: copy_texts(&sub.repl.args),
            }
        } else {
            taken
        };
        let made = strip_path(bound, &sub.base, &sub.repl.ident);
        bases.insert(k, made);
        proof {
            assert forall|j: int| 0 <= j < k + 1 implies path_view(#[trigger] bases@[j])
                == concrete_base(before.bases.bases@, *sub, j) by {
                if j < k {
                    assert(bases@[j] == prev[j]);
                }
            }
            assert forall|j: int| k + 1 <= j < n implies #[trigger] bases@[j] == before.bases.bases@[j] by {
                assert(bases@[j] == prev[j]);
            }
        }
        k += 1;
    }
    ItemClass { attrs, vis, ident: new_ident, generics, bases: BaseClasses { bases }, body }
}

/// The classes `stages` lead from `before` to `after` by the first `n`
/// substitutions of a group, applied one after the other.
pub open spec fn leads_to(
    before: ItemClass,
    group: Seq<GenericBase>,
    n: int,
    stages: Seq<ItemClass>,
    after: ItemClass,
) -> bool {
    &&& stages.len() == n + 1
    &&& stages[0] == before
    &&& stages[n] == after
    &&& forall|k: int|
        0 <= k < n ==> substituted(#[trigger] stages[k], group[k], stages[k + 1])
}

/// The class `after` is `before` with the substitutions of a group applied
/// in order.
pub open spec fn monomorphized(before: ItemClass, group: Seq<GenericBase>, after: ItemClass) -> bool {
    exists|stages: Seq<ItemClass>| #[trigger]
        leads_to(before, group, group.len() as int, stages, after)
}

/// Makes a class concrete for one substitution group: the substitutions
/// apply in the group's order. A class with an empty group passes through
/// unchanged.
pub fn monomorphize(class: ItemClass, group: &Vec<GenericBase>) -> (res: ItemClass)
    ensures
        monomorphized(class, group@, res),
        group.len() == 0 ==> res == class,
{
    let ghost before = class;
    let ghost mut stages: Seq<ItemClass> = seq![class];
    let mut current = class;
    let mut k: usize = 0;
    while k < group.len()
        invariant
            k <= group.len(),
            k == 0 ==> current == before,
            leads_to(before, group@, k as int, stages, current),
        decreases group.len() - k,
    {
        let ghost mid = current;
        let ghost old_stages = stages;
        current = apply_generic_base(current, &group[k]);
        k += 1;
        proof {
            stages = old_stages.push(current);
            assert forall|j: int| 0 <= j < k implies substituted(
                #[trigger] stages[j],
                group@[j],
                stages[j + 1],
            ) by {
                if j < k - 1 {
                    assert(stages[j] == old_stages[j]);
                    assert(stages[j + 1] == old_stages[j + 1]);
                }
            }
        }
    }
    current
}

/// Binding the parameter `T` of `Wrapper<T>: T` to a type names the class
/// for that type, takes `T` out of its parameters and puts the type in the
/// place of the base: a class with one type parameter, which is its only
/// base, becomes a class without parameters whose only base is the concrete
/// type.
pub proof fn lemma_wrapper_becomes_concrete(before: ItemClass, sub: GenericBase, after: ItemClass)
    requires
        substituted(before, sub, after),
        before.generics.len() == 1,
        before.generics@[0].kind == ParamKind::Type,
        before.generics@[0].ident@ == sub.base@,
        before.bases.bases.len() == 1,
        before.bases.bases@[0].ident@ == sub.base@,
        forall|k: int| 0 <= k < sub.repl.args.len() ==> (#[trigger] sub.repl.args@[k])@ != sub.base@,
    ensures
        after.ident@ == before.ident@ + "_"@ + sub.repl.ident@,
        after.generics.len() == 0,
        after.bases.bases.len() == 1,
        after.bases.bases@[0].ident@ == sub.repl.ident@,
        texts_of(after.bases.bases@[0].args@) == texts_of(sub.repl.args@),
        texts_of(after.bases.bases@[0].leading@) == texts_of(sub.repl.leading@),
{
    assert(kept_params(before.generics@, sub.base@, 0) == Seq::<GenericParam>::empty());
    assert(first_base(before.bases.bases@, sub.base@, 0) is None);
    assert(first_base(before.bases.bases@, sub.base@, 1) == Some(0int));
    assert(path_view(after.bases.bases@[0]) == concrete_base(before.bases.bases@, sub, 0));
    lemma_nothing_to_strip(
        texts_of(sub.repl.args@),
        sub.repl.ident@,
        sub.base@,
        sub.repl.ident@,
        sub.repl.args.len() as int,
    );
}

/// A path that does not have the parameter among its arguments stays as it
/// is.
pub proof fn lemma_nothing_to_strip(
    args: Seq<Seq<char>>,
    ident: Seq<char>,
    param: Seq<char>,
    concrete: Seq<char>,
    n: int,
)
    requires
        0 <= n <= args.len(),
        forall|k: int| 0 <= k < n ==> #[trigger] args[k] != param,
    ensures
        kept_args(args, param, n) == args.subrange(0, n),
        stripped_ident(args, ident, param, concrete, n) == ident,
    decreases n,
{
    if n > 0 {
        lemma_nothing_to_strip(args, ident, param, concrete, n - 1);
        assert(args.subrange(0, n) =~= args.subrange(0, n - 1).push(args[n - 1]));
    } else {
        assert(args.subrange(0, 0) =~= Seq::<Seq<char>>::empty());
    }
}

} // verus!
