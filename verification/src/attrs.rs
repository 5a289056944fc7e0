//! Attributes of a declaration: finding them, taking a directive out, and the
//! two that the data layout cares about (`repr(C)` and a derived `Default`).

use vstd::prelude::*;
use vstd::string::*;
use crate::decl::{Attr, GenError};

verus! {

/// Whether a text equals a given one.
pub fn text_is(text: &String, wanted: &str) -> (res: bool)
    ensures
        res == (text@ == wanted@),
{
    let other = String::from_str(wanted);
    *text == other
}

/// The first position among the first `n` items whose text is `wanted`.
pub open spec fn first_text(items: Seq<String>, wanted: Seq<char>, n: int) -> Option<int>
    decreases n,
{
    if n <= 0 {
        None
    } else {
        match first_text(items, wanted, n - 1) {
            Some(i) => Some(i),
            None => if items[n - 1]@ == wanted {
                Some(n - 1)
            } else {
                None
            },
        }
    }
}

/// The first position among the first `n` attributes whose name is `wanted`.
pub open spec fn first_attr(attrs: Seq<Attr>, wanted: Seq<char>, n: int) -> Option<int>
    decreases n,
{
    if n <= 0 {
        None
    } else {
        match first_attr(attrs, wanted, n - 1) {
            Some(i) => Some(i),
            None => if attrs[n - 1].name@ == wanted {
                Some(n - 1)
            } else {
                None
            },
        }
    }
}

/// What `first_attr` finds is the first match, and it finds one if there is
/// any.
pub proof fn lemma_first_attr(attrs: Seq<Attr>, wanted: Seq<char>, n: int)
    requires
        0 <= n <= attrs.len(),
    ensures
        match first_attr(attrs, wanted, n) {
            Some(i) => 0 <= i < n && attrs[i].name@ == wanted && forall|k: int|
                0 <= k < i ==> (#[trigger] attrs[k]).name@ != wanted,
            None => forall|k: int| 0 <= k < n ==> (#[trigger] attrs[k]).name@ != wanted,
        },
    decreases n,
{
    if n > 0 {
        lemma_first_attr(attrs, wanted, n - 1);
    }
}

/// Finds the first item with the given text.
pub fn find_text(items: &Vec<String>, wanted: &String) -> (res: Option<usize>)
    ensures
        match res {
            Some(i) => first_text(items@, wanted@, items.len() as int) == Some(i as int),
            None => first_text(items@, wanted@, items.len() as int) is None,
        },
{
    let mut i: usize = 0;
    while i < items.len()
        invariant
            i <= items.len(),
            first_text(items@, wanted@, i as int) is None,
        decreases items.len() - i,
    {
        if *(&items[i]) == *wanted {
            proof {
                lemma_found_text_stays(items@, wanted@, i as int + 1, items.len() as int);
            }
            return Some(i);
        }
        i += 1;
    }
    None
}

/// A match found among the first `n` items is the one found among more.
pub proof fn lemma_found_text_stays(items: Seq<String>, wanted: Seq<char>, n: int, m: int)
    requires
        0 <= n <= m <= items.len(),
        first_text(items, wanted, n) is Some,
    ensures
        first_text(items, wanted, m) == first_text(items, wanted, n),
    decreases m,
{
    if m > n {
        lemma_found_text_stays(items, wanted, n, m - 1);
    }
}

/// A match found among the first `n` attributes is the one found among more.
pub proof fn lemma_found_attr_stays(attrs: Seq<Attr>, wanted: Seq<char>, n: int, m: int)
    requires
        0 <= n <= m <= attrs.len(),
        first_attr(attrs, wanted, n) is Some,
    ensures
        first_attr(attrs, wanted, m) == first_attr(attrs, wanted, n),
    decreases m,
{
    if m > n {
        lemma_found_attr_stays(attrs, wanted, n, m - 1);
    }
}

/// Finds the first attribute with the given name.
pub fn find_attr(attrs: &Vec<Attr>, wanted: &str) -> (res: Option<usize>)
    ensures
        match res {
            Some(i) => first_attr(attrs@, wanted@, attrs.len() as int) == Some(i as int),
            None => first_attr(attrs@, wanted@, attrs.len() as int) is None,
        },
{
    let mut i: usize = 0;
    while i < attrs.len()
        invariant
            i <= attrs.len(),
            first_attr(attrs@, wanted@, i as int) is None,
        decreases attrs.len() - i,
    {
        if text_is(&attrs[i].name, wanted) {
            proof {
                lemma_found_attr_stays(attrs@, wanted@, i as int + 1, attrs.len() as int);
            }
            return Some(i);
        }
        i += 1;
    }
    None
}

/// What taking the directive `name` out of the attributes `before` gives:
/// nothing, and the list as it was, where no attribute has the name; the
/// attribute, and the list without it, where one has; a failure, and the
/// list as it was, where a second one has, with the place of the second.
pub open spec fn extracted(
    before: Seq<Attr>,
    name: Seq<char>,
    res: Result<Option<Attr>, GenError>,
    after: Seq<Attr>,
) -> bool {
    match first_attr(before, name, before.len() as int) {
        None => res == Ok::<Option<Attr>, GenError>(None) && after == before,
        Some(i) => match res {
            Ok(taken) => taken == Some(before[i]) && after == before.remove(i) && forall|k: int|
                i < k < before.len() ==> (#[trigger] before[k]).name@ != name,
            Err(GenError::DuplicateDirective { place }) => after == before && i < place
                < before.len() && before[place as int].name@ == name && forall|k: int|
                i < k < place ==> (#[trigger] before[k]).name@ != name,
            Err(_) => false,
        },
    }
}

/// Takes the directive `name` out of an attribute list. A declaration
/// carries a directive once: a second attribute of the name is refused.
pub fn extract(attrs: &mut Vec<Attr>, name: &str) -> (res: Result<Option<Attr>, GenError>)
    ensures
        extracted(old(attrs)@, name@, res, final(attrs)@),
{
    match find_attr(attrs, name) {
        Some(i) => {
            proof {
                lemma_first_attr(attrs@, name@, attrs.len() as int);
            }
            let mut k: usize = i + 1;
            while k < attrs.len()
                invariant
                    attrs@ == old(attrs)@,
                    first_attr(attrs@, name@, attrs.len() as int) == Some(i as int),
                    i < k <= attrs.len(),
                    forall|j: int| i < j < k ==> (#[trigger] attrs@[j]).name@ != name@,
                decreases attrs.len() - k,
            {
                if text_is(&attrs[k].name, name) {
                    return Err(GenError::DuplicateDirective { place: k });
                }
                k += 1;
            }
            let taken = attrs.remove(i);
            Ok(Some(taken))
        },
        None => Ok(None),
    }
}

/// Whether the attribute list asks for the C layout: some attribute named
/// `repr` lists `C`.
pub open spec fn spec_has_repr_c(attrs: Seq<Attr>, n: int) -> bool
    decreases n,
{
    if n <= 0 {
        false
    } else {
        spec_has_repr_c(attrs, n - 1) || (attrs[n - 1].name@ == "repr"@ && first_text(
            attrs[n - 1].args@,
            "C"@,
            attrs[n - 1].args.len() as int,
        ) is Some)
    }
}

/// Checks an attribute list for `repr(C)`.
pub fn has_repr_c(attrs: &Vec<Attr>) -> (res: bool)
    ensures
        res == spec_has_repr_c(attrs@, attrs.len() as int),
{
    let mut found = false;
    let mut i: usize = 0;
    while i < attrs.len()
        invariant
            i <= attrs.len(),
            found == spec_has_repr_c(attrs@, i as int),
        decreases attrs.len() - i,
    {
        if text_is(&attrs[i].name, "repr") {
            let c = String::from_str("C");
            if find_text(&attrs[i].args, &c).is_some() {
                found = true;
            }
        }
        i += 1;
    }
    found
}

/// Where a derived `Default` stands: the first attribute named `derive`, and
/// the first `Default` in its list. Nothing where there is no `derive`, or
/// where the first one does not list `Default`.
pub open spec fn derived_default_of(attrs: Seq<Attr>) -> Option<(int, int)> {
    match first_attr(attrs, "derive"@, attrs.len() as int) {
        Some(i) => match first_text(attrs[i].args@, "Default"@, attrs[i].args.len() as int) {
            Some(j) => Some((i, j)),
            None => None,
        },
        None => None,
    }
}

/// Finds the derived `Default` that the generated constructor replaces.
pub fn find_derived_default(attrs: &Vec<Attr>) -> (res: Option<(usize, usize)>)
    ensures
        match res {
            Some((i, j)) => derived_default_of(attrs@) == Some((i as int, j as int)),
            None => derived_default_of(attrs@) is None,
        },
{
    match find_attr(attrs, "derive") {
        Some(i) => {
            proof {
                lemma_first_attr(attrs@, "derive"@, attrs.len() as int);
            }
            let d = String::from_str("Default");
            match find_text(&attrs[i].args, &d) {
                Some(j) => Some((i, j)),
                None => None,
            }
        },
        None => None,
    }
}

} // verus!
