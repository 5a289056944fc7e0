//! The protocol by which a directive is taken out of a declaration.

use vstd::prelude::*;
use vstd::string::*;
use crate::attrs::{extract, extracted};
use crate::bases::SecondaryBase;
use crate::decl::{Attr, BasePath, DirectiveKind, GenError, GenVTable, ItemClass};
use crate::interface::{gen_vtable_of, parse_gen_vtable};
use crate::generic_base::GenericBase;

verus! {

/// A directive that a class declaration may carry once, under its own name.
pub trait AttributeExtractor {
    /// What the front end reads of the directive's contents.
    type Input;

    /// What the directive says.
    type Output;

    /// The attribute name of the directive.
    spec fn attr_name() -> Seq<char>;

    /// Which directive this is.
    spec fn kind() -> DirectiveKind;

    /// Returns the attribute name, by which a failure names the directive.
    fn attr() -> (res: String)
        ensures
            res@ == Self::attr_name(),
            res@ == directive_name_of(Self::kind()),
    ;

    /// Parses the contents of the directive. A malformed directive is
    /// fatal: contents that could not be read never give a value, and the
    /// failure names this directive.
    fn parse_attr(contents: Contents<Self::Input>) -> (res: Result<Self::Output, GenError>)
        ensures
            contents is Unreadable ==> res == Err::<Self::Output, GenError>(
                GenError::MalformedDirective { directive: Self::kind(), entry: 0 },
            ),
            res matches Err(GenError::MalformedDirective { directive, entry }) ==> directive
                == Self::kind(),
    ;

    /// Extracts the directive out of a class: the attribute of that name
    /// leaves the class's attribute list and is returned; where there is
    /// none, nothing is returned; where there are two, the second is
    /// refused. Nothing else of the class changes.
    fn extract(class: &mut ItemClass) -> (res: Result<Option<Attr>, GenError>)
        ensures
            extracted(old(class).attrs@, Self::attr_name(), res, final(class).attrs@),
            final(class).vis == old(class).vis,
            final(class).ident == old(class).ident,
            final(class).generics == old(class).generics,
            final(class).bases == old(class).bases,
            final(class).body == old(class).body,
    {
        let name = Self::attr();
        extract(&mut class.attrs, name.as_str())
    }
}

impl AttributeExtractor for GenVTable {
    type Input = Vec<String>;

    type Output = GenVTable;

    open spec fn attr_name() -> Seq<char> {
        "gen_vtable"@
    }

    open spec fn kind() -> DirectiveKind {
        DirectiveKind::GenVTable
    }

    fn parse_attr(contents: Contents<Vec<String>>) -> (res: Result<GenVTable, GenError>) {
        read_gen_vtable(contents)
    }

    fn attr() -> (res: String) {
        proof {
            assert(Self::kind() == DirectiveKind::GenVTable);
        }
        directive_name(DirectiveKind::GenVTable)
    }
}

impl AttributeExtractor for GenericBase {
    type Input = Vec<Vec<GenericBase>>;

    type Output = Vec<Vec<GenericBase>>;

    open spec fn attr_name() -> Seq<char> {
        "impl_generic_base"@
    }

    open spec fn kind() -> DirectiveKind {
        DirectiveKind::ImplGenericBase
    }

    fn parse_attr(contents: Contents<Vec<Vec<GenericBase>>>) -> (res: Result<
        Vec<Vec<GenericBase>>,
        GenError,
    >) {
        read_generic_base(contents)
    }

    fn attr() -> (res: String) {
        proof {
            assert(Self::kind() == DirectiveKind::ImplGenericBase);
        }
        directive_name(DirectiveKind::ImplGenericBase)
    }
}

impl AttributeExtractor for SecondaryBase {
    type Input = Vec<SecondaryBase>;

    type Output = Vec<SecondaryBase>;

    open spec fn attr_name() -> Seq<char> {
        "gen_base"@
    }

    open spec fn kind() -> DirectiveKind {
        DirectiveKind::GenBase
    }

    fn parse_attr(contents: Contents<Vec<SecondaryBase>>) -> (res: Result<
        Vec<SecondaryBase>,
        GenError,
    >) {
        read_gen_base(contents)
    }

    fn attr() -> (res: String) {
        proof {
            assert(Self::kind() == DirectiveKind::GenBase);
        }
        directive_name(DirectiveKind::GenBase)
    }
}

/// What the front end hands over of the contents of a directive: what it
/// read, or that it could not read them.
#[derive(Clone, Debug, PartialEq, Eq)]
pub enum Contents<T> {
    Read(T),
    Unreadable,
}

/// The attribute name of a directive.
pub open spec fn directive_name_of(kind: DirectiveKind) -> Seq<char> {
    match kind {
        DirectiveKind::GenVTable => "gen_vtable"@,
        DirectiveKind::GenBase => "gen_base"@,
        DirectiveKind::ImplGenericBase => "impl_generic_base"@,
    }
}

/// Gives the attribute name of a directive, by which a failure names it.
pub fn directive_name(kind: DirectiveKind) -> (res: String)
    ensures
        res@ == directive_name_of(kind),
{
    match kind {
        DirectiveKind::GenVTable => String::from_str("gen_vtable"),
        DirectiveKind::GenBase => String::from_str("gen_base"),
        DirectiveKind::ImplGenericBase => String::from_str("impl_generic_base"),
    }
}

/// A path names something: its identifier and every segment before it have
/// at least one character.
pub open spec fn path_formed(path: BasePath) -> bool {
    path.ident@.len() > 0 && forall|k: int|
        0 <= k < path.leading.len() ==> (#[trigger] path.leading@[k])@.len() > 0
}

/// Every path of the first `n` names something.
pub open spec fn paths_formed(paths: Seq<BasePath>, n: int) -> bool {
    forall|k: int| 0 <= k < n ==> path_formed(#[trigger] paths[k])
}

/// An entry of the additional-bases directive is well formed: its target
/// and all its bases name something.
pub open spec fn entry_formed(entry: SecondaryBase) -> bool {
    path_formed(entry.target) && paths_formed(entry.bases@, entry.bases.len() as int)
}

/// A substitution is well formed: the parameter and the concrete type name
/// something.
pub open spec fn substitution_formed(sub: GenericBase) -> bool {
    sub.base@.len() > 0 && path_formed(sub.repl)
}

/// A substitution group is well formed: all its substitutions are.
pub open spec fn group_formed(group: Vec<GenericBase>) -> bool {
    forall|k: int| 0 <= k < group.len() ==> substitution_formed(#[trigger] group@[k])
}

/// Whether a text has at least one character.
fn has_text(text: &String) -> (res: bool)
    ensures
        res == (text@.len() > 0),
{
    text.as_str().unicode_len() > 0
}

/// Whether a path names something.
fn is_path_formed(path: &BasePath) -> (res: bool)
    ensures
        res == path_formed(*path),
{
    if !has_text(&path.ident) {
        return false;
    }
    let mut k: usize = 0;
    while k < path.leading.len()
        invariant
            k <= path.leading.len(),
            path.ident@.len() > 0,
            forall|j: int| 0 <= j < k ==> (#[trigger] path.leading@[j])@.len() > 0,
        decreases path.leading.len() - k,
    {
        if !has_text(&path.leading[k]) {
            return false;
        }
        k += 1;
    }
    true
}

/// Whether an entry of the additional-bases directive is well formed.
fn is_entry_formed(entry: &SecondaryBase) -> (res: bool)
    ensures
        res == entry_formed(*entry),
{
    if !is_path_formed(&entry.target) {
        return false;
    }
    let mut k: usize = 0;
    while k < entry.bases.len()
        invariant
            k <= entry.bases.len(),
            path_formed(entry.target),
            paths_formed(entry.bases@, k as int),
        decreases entry.bases.len() - k,
    {
        if !is_path_formed(&entry.bases[k]) {
            return false;
        }
        k += 1;
    }
    true
}

/// Whether a substitution group is well formed.
fn is_group_formed(group: &Vec<GenericBase>) -> (res: bool)
    ensures
        res == group_formed(*group),
{
    let mut k: usize = 0;
    while k < group.len()
        invariant
            k <= group.len(),
            forall|j: int| 0 <= j < k ==> substitution_formed(#[trigger] group@[j]),
        decreases group.len() - k,
    {
        if !(has_text(&group[k].base) && is_path_formed(&group[k].repl)) {
            return false;
        }
        k += 1;
    }
    true
}

/// Reads the additional-bases directive. A malformed directive is fatal
/// and is named: it fails where the contents could not be read, and at the
/// first entry that is not well formed; else it gives the entries.
pub fn read_gen_base(contents: Contents<Vec<SecondaryBase>>) -> (res: Result<
    Vec<SecondaryBase>,
    GenError,
>)
    ensures
        match contents {
            Contents::Unreadable => res == Err::<Vec<SecondaryBase>, GenError>(
                GenError::MalformedDirective { directive: DirectiveKind::GenBase, entry: 0 },
            ),
            Contents::Read(entries) => match res {
                Ok(read) => read == entries && forall|k: int|
                    0 <= k < entries.len() ==> entry_formed(#[trigger] entries@[k]),
                Err(GenError::MalformedDirective { directive, entry }) => directive
                    == DirectiveKind::GenBase && entry < entries.len() && !entry_formed(
                    entries@[entry as int],
                ) && forall|k: int| 0 <= k < entry ==> entry_formed(#[trigger] entries@[k]),
                Err(_) => false,
            },
        },
{
    match contents {
        Contents::Unreadable => Err(
            GenError::MalformedDirective { directive: DirectiveKind::GenBase, entry: 0 },
        ),
        Contents::Read(entries) => {
            let mut k: usize = 0;
            while k < entries.len()
                invariant
                    contents == Contents::<Vec<SecondaryBase>>::Read(entries),
                    k <= entries.len(),
                    forall|j: int| 0 <= j < k ==> entry_formed(#[trigger] entries@[j]),
                decreases entries.len() - k,
            {
                if !is_entry_formed(&entries[k]) {
                    return Err(
                        GenError::MalformedDirective {
                            directive: DirectiveKind::GenBase,
                            entry: k,
                        },
                    );
                }
                k += 1;
            }
            Ok(entries)
        },
    }
}

/// Reads the generic-base directive. A malformed directive is fatal and is
/// named: it fails where the contents could not be read, and at the first
/// substitution group that is not well formed; else it gives the groups.
pub fn read_generic_base(contents: Contents<Vec<Vec<GenericBase>>>) -> (res: Result<
    Vec<Vec<GenericBase>>,
    GenError,
>)
    ensures
        match contents {
            Contents::Unreadable => res == Err::<Vec<Vec<GenericBase>>, GenError>(
                GenError::MalformedDirective {
                    directive: DirectiveKind::ImplGenericBase,
                    entry: 0,
                },
            ),
            Contents::Read(groups) => match res {
                Ok(read) => read == groups && forall|k: int|
                    0 <= k < groups.len() ==> group_formed(#[trigger] groups@[k]),
                Err(GenError::MalformedDirective { directive, entry }) => directive
                    == DirectiveKind::ImplGenericBase && entry < groups.len() && !group_formed(
                    groups@[entry as int],
                ) && forall|k: int| 0 <= k < entry ==> group_formed(#[trigger] groups@[k]),
                Err(_) => false,
            },
        },
{
    match contents {
        Contents::Unreadable => Err(
            GenError::MalformedDirective { directive: DirectiveKind::ImplGenericBase, entry: 0 },
        ),
        Contents::Read(groups) => {
            let mut k: usize = 0;
            while k < groups.len()
                invariant
                    contents == Contents::<Vec<Vec<GenericBase>>>::Read(groups),
                    k <= groups.len(),
                    forall|j: int| 0 <= j < k ==> group_formed(#[trigger] groups@[j]),
                decreases groups.len() - k,
            {
                if !is_group_formed(&groups[k]) {
                    return Err(
                        GenError::MalformedDirective {
                            directive: DirectiveKind::ImplGenericBase,
                            entry: k,
                        },
                    );
                }
                k += 1;
            }
            Ok(groups)
        },
    }
}

/// Reads the table-generation directive. A malformed directive is fatal
/// and is named: it fails where the contents could not be read, and at the
/// first key that is not known or occurs a second time; else it gives the
/// options.
pub fn read_gen_vtable(contents: Contents<Vec<String>>) -> (res: Result<GenVTable, GenError>)
    ensures
        match contents {
            Contents::Unreadable => res == Err::<GenVTable, GenError>(
                GenError::MalformedDirective { directive: DirectiveKind::GenVTable, entry: 0 },
            ),
            Contents::Read(keys) => res == gen_vtable_of(keys@) && (res matches Err(e)
                ==> e is DuplicateConfigurationOption || e is UnrecognizedConfigurationOption),
        },
{
    match contents {
        Contents::Unreadable => Err(
            GenError::MalformedDirective { directive: DirectiveKind::GenVTable, entry: 0 },
        ),
        Contents::Read(keys) => parse_gen_vtable(&keys),
    }
}

} // verus!
