//! A class-hierarchy-to-ABI compiler.
//!
//! Given the declaration of a class (fields, base classes, virtual methods,
//! generic parameters) the library decides the layout of the object and of its
//! table of virtual functions, names every generated artifact, allocates the
//! virtual slots, threads table pointers through constructors and resolves
//! which implementation a virtual call reaches.

pub mod text;
pub mod naming;
pub mod decl;
pub mod slots;
pub mod attrs;
pub mod extractor;
pub mod bases;
pub mod layout;
pub mod vtable;
pub mod ctor;
pub mod hierarchy;
pub mod generic_base;
pub mod bridge;
pub mod base_access;
pub mod interface;
pub mod class;
pub mod handwritten;
