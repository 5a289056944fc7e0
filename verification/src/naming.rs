//! The naming conventions by which generated artifacts refer to each other.

use vstd::prelude::*;
use vstd::string::*;
use crate::text::{snake_case, screaming_snake_case, snake_case_of, screaming_snake_case_of, decimal, decimal_of};

verus! {

/// Name of the table type of a class: the class name followed by `VTable`.
pub open spec fn vtable_ident_of(ident: Seq<char>) -> Seq<char> {
    ident + "VTable"@
}

/// Name of the population template of a class's table.
pub open spec fn vtable_macro_ident_of(ident: Seq<char>) -> Seq<char> {
    "gen_"@ + snake_case_of(ident) + "_vtable"@
}

/// Name of the static table that a class holds for a base.
pub open spec fn vtable_static_ident_of(base: Seq<char>) -> Seq<char> {
    "VTBL_FOR_"@ + screaming_snake_case_of(base)
}

/// Name of the dispatch interface of a class.
pub open spec fn virtuals_of(ident: Seq<char>) -> Seq<char> {
    ident + "Virtuals"@
}

/// Name of the template that implements a class's interface by forwarding.
pub open spec fn virtuals_macro_ident_of(ident: Seq<char>) -> Seq<char> {
    "gen_"@ + snake_case_of(ident) + "_unimpl"@
}

/// Name of the field that embeds a base.
pub open spec fn base_name_of(ident: Seq<char>) -> Seq<char> {
    "base_"@ + snake_case_of(ident)
}

/// Name of the constructor variant that takes table pointers.
pub open spec fn ctor_call_of(ident: Seq<char>) -> Seq<char> {
    "_"@ + ident + "_with_vtable"@
}

/// Name of the placeholder field at a slot.
pub open spec fn unimpl_ident_of(slot: nat) -> Seq<char> {
    "unimpl_"@ + decimal_of(slot)
}

/// Name of the template parameter that stands for the generic at a position.
pub open spec fn def_generic_ident_of(position: nat) -> Seq<char> {
    "def_generic_"@ + decimal_of(position)
}

/// Name of a class made concrete for a type: both names joined by `_`.
pub open spec fn concrete_ident_of(ident: Seq<char>, concrete: Seq<char>) -> Seq<char> {
    ident + "_"@ + concrete
}

/// Make the table type's identifier.
pub fn make_vtable_ident(ident: &String) -> (res: String)
    ensures
        res@ == vtable_ident_of(ident@),
{
    let mut out = ident.clone();
    out.append("VTable");
    out
}

/// Make the identifier of the table's population template.
pub fn make_vtable_macro_ident(ident: &String) -> (res: String)
    ensures
        res@ == vtable_macro_ident_of(ident@),
{
    let mut out = String::from_str("gen_");
    let snake = snake_case(ident.as_str());
    out.append(snake.as_str());
    out.append("_vtable");
    out
}

/// A path to a static table: the owning class, its generic arguments, and the
/// constant's name.
pub struct StaticPath {
    pub owner: String,
    pub generics: Vec<String>,
    pub constant: String,
}

/// Make the path of the static table that class `ident` holds for `base`.
pub fn make_vtable_static(ident: &String, base: &String, generics: Vec<String>) -> (res: StaticPath)
    ensures
        res.owner@ == ident@,
        res.generics == generics,
        res.constant@ == vtable_static_ident_of(base@),
{
    let mut constant = String::from_str("VTBL_FOR_");
    let upper = screaming_snake_case(base.as_str());
    constant.append(upper.as_str());
    StaticPath { owner: ident.clone(), generics, constant }
}

/// Make the identifier of a class's dispatch interface.
pub fn make_virtuals(ident: &String) -> (res: String)
    ensures
        res@ == virtuals_of(ident@),
{
    let mut out = ident.clone();
    out.append("Virtuals");
    out
}

/// Make the identifier of the forwarding template of a class's interface.
pub fn make_virtuals_macro_ident(ident: &String) -> (res: String)
    ensures
        res@ == virtuals_macro_ident_of(ident@),
{
    let mut out = String::from_str("gen_");
    let snake = snake_case(ident.as_str());
    out.append(snake.as_str());
    out.append("_unimpl");
    out
}

/// Make the name of the field that embeds the base `ident`.
pub fn make_base_name(ident: &String) -> (res: String)
    ensures
        res@ == base_name_of(ident@),
{
    let mut out = String::from_str("base_");
    let snake = snake_case(ident.as_str());
    out.append(snake.as_str());
    out
}

/// Make the name of the constructor variant with table pointers.
pub fn make_ctor_call(ident: &String) -> (res: String)
    ensures
        res@ == ctor_call_of(ident@),
{
    let mut out = String::from_str("_");
    out.append(ident.as_str());
    out.append("_with_vtable");
    out
}

/// Make the name of the placeholder field at `slot`.
pub fn make_unimpl_ident(slot: usize) -> (res: String)
    ensures
        res@ == unimpl_ident_of(slot as nat),
{
    let mut out = String::from_str("unimpl_");
    let digits = decimal(slot);
    out.append(digits.as_str());
    out
}

/// Make the name of the template parameter for the generic at `position`.
pub fn make_def_generic_ident(position: usize) -> (res: String)
    ensures
        res@ == def_generic_ident_of(position as nat),
{
    let mut out = String::from_str("def_generic_");
    let digits = decimal(position);
    out.append(digits.as_str());
    out
}

/// Make the name of a class made concrete for the type `concrete`.
pub fn make_concrete_ident(ident: &String, concrete: &String) -> (res: String)
    ensures
        res@ == concrete_ident_of(ident@, concrete@),
{
    let mut out = ident.clone();
    out.append("_");
    out.append(concrete.as_str());
    out
}

} // verus!
