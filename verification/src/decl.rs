//! The declaration model: one class as the front end hands it over.

use vstd::prelude::*;
use crate::ctor::Constructor;

verus! {

/// Options of the directive that enables table generation.
#[derive(Clone, Copy, Debug, PartialEq, Eq, Default)]
pub struct GenVTable {
    /// Do not apply the forwarding implementation of the interface to the
    /// class itself.
    pub no_unimpl: bool,
}

/// What a generic parameter ranges over.
#[derive(Clone, Copy, Debug, PartialEq, Eq, Structural)]
pub enum ParamKind {
    Type,
    Lifetime,
    Const,
}

/// One generic parameter of a class.
#[derive(Clone, Debug, PartialEq, Eq)]
pub struct GenericParam {
    pub kind: ParamKind,
    pub ident: String,
    /// The bounds written after the colon, one text per bound.
    pub bounds: Vec<String>,
}

/// A reference to a base type: the segments before the last, the last
/// segment's identifier, and its generic arguments.
#[derive(Clone, Debug, PartialEq, Eq)]
pub struct BasePath {
    pub leading: Vec<String>,
    pub ident: String,
    pub args: Vec<String>,
}

/// A declared field.
#[derive(Clone, Debug, PartialEq, Eq)]
pub struct Field {
    pub name: String,
    pub ty: String,
}

/// How a virtual takes its object.
#[derive(Clone, Copy, Debug, PartialEq, Eq, Structural)]
pub enum Receiver {
    /// No receiver: the first parameter is an ordinary one, or there is none.
    Absent,
    /// `&self`
    Shared,
    /// `&mut self`
    Exclusive,
}

/// A parameter of a virtual or of a constructor. The name is absent where the
/// pattern is not a plain identifier.
#[derive(Clone, Debug, PartialEq, Eq)]
pub struct Param {
    pub name: Option<String>,
    pub ty: String,
}

/// The index of a virtual method: the explicit slot, if one is written.
#[derive(Clone, Copy, Debug, PartialEq, Eq, Default)]
pub struct VirtualIndex {
    pub idx: Option<usize>,
}

/// A virtual method as declared.
#[derive(Clone, Debug, PartialEq, Eq)]
pub struct Virtual {
    pub index: VirtualIndex,
    pub attrs: Vec<String>,
    pub vis: String,
    pub unsafety: bool,
    /// The calling convention, if one is written.
    pub abi: Option<String>,
    pub name: String,
    pub receiver: Receiver,
    /// The parameters after the receiver.
    pub params: Vec<Param>,
    pub output: Option<String>,
}

/// An attribute: its name and the names listed in its parentheses.
#[derive(Clone, Debug, PartialEq, Eq)]
pub struct Attr {
    pub name: String,
    pub args: Vec<String>,
}

/// The base classes of a class, in declaration order. Base 0 is the primary
/// base; the others are secondary bases.
#[derive(Clone, Debug, PartialEq, Eq, Default)]
pub struct BaseClasses {
    pub bases: Vec<BasePath>,
}

/// The body of a class: its fields, then its virtuals.
#[derive(Clone, Debug, PartialEq, Eq, Default)]
pub struct ClassBody {
    pub fields: Vec<Field>,
    pub virtuals: Vec<Virtual>,
}

/// One class declaration.
#[derive(Clone, Debug, PartialEq, Eq)]
pub struct ItemClass {
    pub attrs: Vec<Attr>,
    pub vis: String,
    pub ident: String,
    pub generics: Vec<GenericParam>,
    pub bases: BaseClasses,
    pub body: ClassBody,
}

/// A whole definition: the class, and the constructors of its method-set
/// block where it has one.
#[derive(Clone, Debug, PartialEq, Eq)]
pub struct CppDef {
    pub class: ItemClass,
    pub new_impl: Option<Vec<Constructor>>,
}

/// The constructors of a definition; none where it has no method-set block.
pub open spec fn constructors_of(def: &CppDef) -> Seq<Constructor> {
    match def.new_impl {
        Some(ctors) => ctors@,
        None => Seq::empty(),
    }
}

impl BaseClasses {
    /// The identifiers of all bases, in order.
    pub fn idents(&self) -> (res: Vec<String>)
        ensures
            crate::text::texts_of(res@) == base_idents(self.bases@),
    {
        let mut out: Vec<String> = Vec::new();
        let mut i: usize = 0;
        while i < self.bases.len()
            invariant
                i <= self.bases.len(),
                out.len() == i,
                forall|k: int| 0 <= k < i ==> (#[trigger] out@[k])@ == self.bases@[k].ident@,
            decreases self.bases.len() - i,
        {
            out.push(self.bases[i].ident.clone());
            i += 1;
        }
        proof {
            assert(crate::text::texts_of(out@) =~= base_idents(self.bases@));
        }
        out
    }

    /// The identifier of the base at `index`.
    pub fn ident(&self, index: usize) -> (res: Option<&String>)
        ensures
            index < self.bases.len() ==> res == Some(&self.bases@[index as int].ident),
            index >= self.bases.len() ==> res is None,
    {
        if index < self.bases.len() {
            Some(&self.bases[index].ident)
        } else {
            None
        }
    }

    /// Whether there are no base classes.
    pub fn is_empty(&self) -> (res: bool)
        ensures
            res == (self.bases@.len() == 0),
    {
        self.bases.len() == 0
    }

    /// The path of the base at `index`.
    pub fn path(&self, index: usize) -> (res: Option<&BasePath>)
        ensures
            index < self.bases.len() ==> res == Some(&self.bases@[index as int]),
            index >= self.bases.len() ==> res is None,
    {
        if index < self.bases.len() {
            Some(&self.bases[index])
        } else {
            None
        }
    }

    /// The paths of all bases, in order.
    pub fn paths(&self) -> (res: &Vec<BasePath>)
        ensures
            res@ == self.bases@,
    {
        &self.bases
    }
}

/// Extracts the identifier at the end of a path.
pub fn extract_ident(path: &BasePath) -> (res: &String)
    ensures
        res == &path.ident,
{
    &path.ident
}

/// The identifiers of a list of generic parameters, in order.
pub open spec fn param_idents(generics: Seq<GenericParam>) -> Seq<Seq<char>> {
    Seq::new(generics.len(), |i: int| generics[i].ident@)
}

/// The identifiers of a list of bases, in order.
pub open spec fn base_idents(bases: Seq<BasePath>) -> Seq<Seq<char>> {
    Seq::new(bases.len(), |i: int| bases[i].ident@)
}

/// The slot that each virtual asks for, in declaration order.
pub open spec fn claims_of(virtuals: Seq<Virtual>) -> Seq<Option<usize>> {
    Seq::new(virtuals.len(), |i: int| virtuals[i].index.idx)
}

impl ItemClass {
    /// The generic arguments that name the class's own parameters: one
    /// identifier per parameter, whatever its kind.
    pub fn generic_args(&self) -> (res: Vec<String>)
        ensures
            crate::text::texts_of(res@) == param_idents(self.generics@),
    {
        let mut out: Vec<String> = Vec::new();
        let mut i: usize = 0;
        while i < self.generics.len()
            invariant
                i <= self.generics.len(),
                out.len() == i,
                forall|k: int| 0 <= k < i ==> out@[k]@ == self.generics@[k].ident@,
            decreases self.generics.len() - i,
        {
            out.push(self.generics[i].ident.clone());
            i += 1;
        }
        proof {
            assert(crate::text::texts_of(out@) =~= param_idents(self.generics@));
        }
        out
    }
}


/// The directives that a class declaration may carry.
#[derive(Clone, Copy, Debug, PartialEq, Eq, Structural)]
pub enum DirectiveKind {
    /// Enables table generation.
    GenVTable,
    /// Declares the bases that a base is understood to carry.
    GenBase,
    /// Declares the substitution groups of a generic base.
    ImplGenericBase,
}

/// Why generation for a class stopped. Positions refer to the declaration:
/// a virtual, a base or a parameter by its place in its list.
#[derive(Clone, Copy, Debug, PartialEq, Eq, Structural)]
pub enum GenError {
    /// The shape of a virtual does not match the grammar: the virtual takes
    /// no `&self` or `&mut self`, or one of its parameters has no name.
    MalformedDeclaration { virt: usize },
    /// Two virtuals claim the same slot.
    VirtualSlotCollision { holder: usize, claimant: usize, slot: usize },
    /// The slot of a virtual is too large for any table.
    VirtualSlotTooLarge { claimant: usize },
    /// The class has neither bases nor virtuals.
    NonVirtualBaseUnsupported,
    /// An instantiation in a constructor does not initialize the field of a
    /// base.
    MissingBaseInitializer { base: usize },
    /// The field of a base is initialized by something that is no call.
    NonCallBaseInitializer { base: usize },
    /// The field of a base is initialized by a call whose callee is no path.
    UnresolvableConstructorPath { base: usize },
    /// A constructor never builds the class.
    NoInstantiationFound,
    /// The attribute at this place of the list is a directive that the
    /// declaration carries already.
    DuplicateDirective { place: usize },
    /// A directive is malformed: its contents could not be read, then
    /// `entry` is 0, or its entry at this position names nothing.
    MalformedDirective { directive: DirectiveKind, entry: usize },
    /// A directive holds an option that is not known, at this position.
    UnrecognizedConfigurationOption { option: usize },
    /// A directive holds an option a second time, at this position.
    DuplicateConfigurationOption { option: usize },
    /// A constructor has not the shape that the rewriter asks for: it is not
    /// called `new`, it takes a receiver or a parameter without a name, it
    /// names no type for the object, it sets the table pointer itself, or an
    /// instantiation gives a field by position.
    MalformedConstructor,
    /// The declared base at this position names no class that is known.
    UnknownBase { base: usize },
    /// Of the bases that the additional-bases directive adds to the class,
    /// the one at this position names no class that is known.
    UnknownAddedBase { position: usize },
    /// The table of the class would hold more entries than can be counted.
    TableTooLarge,
}

} // verus!
