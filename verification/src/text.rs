//! Text helpers: identifiers are `String`s, seen in contracts as `Seq<char>`.

use vstd::prelude::*;
use vstd::string::*;
use convert_case::{Case, Casing};

verus! {

/// The snake-case form that `convert_case` gives a text.
pub uninterp spec fn snake_case_of(text: Seq<char>) -> Seq<char>;

/// The screaming-snake-case form that `convert_case` gives a text.
pub uninterp spec fn screaming_snake_case_of(text: Seq<char>) -> Seq<char>;

/// The upper-case form that std gives a text.
pub uninterp spec fn uppercase_of(text: Seq<char>) -> Seq<char>;

/// The decimal digits of a number, most significant first, without sign or
/// leading zeros (`0` is written "0").
pub open spec fn decimal_of(n: nat) -> Seq<char>
    decreases n,
{
    if n < 10 {
        seq![digit_char(n)]
    } else {
        decimal_of(n / 10).push(digit_char(n % 10))
    }
}

/// The character of one decimal digit.
pub open spec fn digit_char(d: nat) -> char {
    if d == 0 {
        '0'
    } else if d == 1 {
        '1'
    } else if d == 2 {
        '2'
    } else if d == 3 {
        '3'
    } else if d == 4 {
        '4'
    } else if d == 5 {
        '5'
    } else if d == 6 {
        '6'
    } else if d == 7 {
        '7'
    } else if d == 8 {
        '8'
    } else {
        '9'
    }
}

/// Two optional texts are the same text, or both absent.
pub open spec fn same_option(a: Option<String>, b: Option<String>) -> bool {
    match (a, b) {
        (Some(x), Some(y)) => x@ == y@,
        (None, None) => true,
        _ => false,
    }
}

/// The texts of a list of strings.
pub open spec fn texts_of(items: Seq<String>) -> Seq<Seq<char>> {
    Seq::new(items.len(), |i: int| items[i]@)
}

/// Calls `convert_case::Casing::to_case` with `Case::Snake`. Trusted: the
/// result is the crate's snake-case form of the text, a function of the text
/// alone.
#[verifier::external_body]
pub(crate) fn snake_case(text: &str) -> (res: String)
    ensures
        res@ == snake_case_of(text@),
{
    text.to_case(Case::Snake)
}

/// Calls `convert_case::Casing::to_case` with `Case::ScreamingSnake`.
/// Trusted: the result is the crate's screaming-snake-case form of the text,
/// a function of the text alone.
#[verifier::external_body]
pub(crate) fn screaming_snake_case(text: &str) -> (res: String)
    ensures
        res@ == screaming_snake_case_of(text@),
{
    text.to_case(Case::ScreamingSnake)
}

/// Calls `str::to_uppercase`. Trusted: the result is std's upper-case form
/// of the text, a function of the text alone.
#[verifier::external_body]
pub(crate) fn uppercase(text: &str) -> (res: String)
    ensures
        res@ == uppercase_of(text@),
{
    text.to_uppercase()
}

/// The text of one decimal digit.
fn digit_text(d: usize) -> (res: &'static str)
    requires
        d < 10,
    ensures
        res@ == seq![digit_char(d as nat)],
{
    proof {
        reveal_strlit("0");
        reveal_strlit("1");
        reveal_strlit("2");
        reveal_strlit("3");
        reveal_strlit("4");
        reveal_strlit("5");
        reveal_strlit("6");
        reveal_strlit("7");
        reveal_strlit("8");
        reveal_strlit("9");
    }
    let res = if d == 0 {
        "0"
    } else if d == 1 {
        "1"
    } else if d == 2 {
        "2"
    } else if d == 3 {
        "3"
    } else if d == 4 {
        "4"
    } else if d == 5 {
        "5"
    } else if d == 6 {
        "6"
    } else if d == 7 {
        "7"
    } else if d == 8 {
        "8"
    } else {
        "9"
    };
    proof {
        assert(res@ =~= seq![digit_char(d as nat)]);
    }
    res
}

/// Writes a number in decimal.
pub fn decimal(n: usize) -> (res: String)
    ensures
        res@ == decimal_of(n as nat),
    decreases n,
{
    if n < 10 {
        String::from_str(digit_text(n))
    } else {
        let mut out = decimal(n / 10);
        out.append(digit_text(n % 10));
        proof {
            assert(out@ =~= decimal_of((n / 10) as nat).push(digit_char((n % 10) as nat)));
        }
        out
    }
}

/// A copy of a text.
pub fn copy_text(text: &String) -> (res: String)
    ensures
        res@ == text@,
{
    text.clone()
}

/// Whether two texts are the same.
pub fn same_text(a: &String, b: &String) -> (res: bool)
    ensures
        res == (a@ == b@),
{
    *a == *b
}

/// Whether two lists of texts are the same, item by item.
pub fn same_texts(a: &Vec<String>, b: &Vec<String>) -> (res: bool)
    ensures
        res == (texts_of(a@) == texts_of(b@)),
{
    if a.len() != b.len() {
        proof {
            assert(texts_of(a@).len() != texts_of(b@).len());
        }
        return false;
    }
    let mut i: usize = 0;
    while i < a.len()
        invariant
            a.len() == b.len(),
            i <= a.len(),
            forall|k: int| 0 <= k < i ==> a@[k]@ == b@[k]@,
        decreases a.len() - i,
    {
        if !same_text(&a[i], &b[i]) {
            proof {
                assert(texts_of(a@)[i as int] != texts_of(b@)[i as int]);
            }
            return false;
        }
        i += 1;
    }
    proof {
        assert(texts_of(a@) =~= texts_of(b@));
    }
    true
}

/// A copy of a list of texts.
pub fn copy_texts(items: &Vec<String>) -> (res: Vec<String>)
    ensures
        texts_of(res@) == texts_of(items@),
{
    let mut out: Vec<String> = Vec::new();
    let mut i: usize = 0;
    while i < items.len()
        invariant
            i <= items.len(),
            out.len() == i,
            forall|k: int| 0 <= k < i ==> out@[k]@ == items@[k]@,
        decreases items.len() - i,
    {
        out.push(copy_text(&items[i]));
        i += 1;
    }
    proof {
        assert(texts_of(out@) =~= texts_of(items@));
    }
    out
}

} // verus!
