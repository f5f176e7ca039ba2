//! The declarations of one parsed source file, as plain values.

use vstd::prelude::*;

verus! {

/// One annotation attached to a declaration.
pub struct Attr {
    /// The annotation as written, in token form.
    pub text: String,
    /// For a documentation annotation of the form `doc = <value>`, the token
    /// text of the value (a quoted string literal); `None` for any other.
    pub doc: Option<String>,
}

/// One formal parameter of a function or method.
pub struct Param {
    /// The binding pattern, in token form (`self` for a receiver).
    pub pattern: String,
    /// The declared type in token form; `None` for a receiver.
    pub ty: Option<String>,
}

/// What kind of declaration an [`Item`] is.
#[derive(Clone, Copy, Debug, PartialEq, Eq, Structural)]
pub enum ItemKind {
    /// A free function; its `children` are the items declared in its body.
    Function,
    /// A function inside an implementation block.
    Method,
    /// A struct declaration.
    Struct,
    /// A module; `name` is its identifier.
    Module,
    /// An implementation block; `name` is the implementing type in token form.
    Impl,
    /// Any other declaration; its `children` are the items nested in it.
    Other,
}

/// One declaration of the tree, with the declarations nested in it.
pub struct Item {
    pub kind: ItemKind,
    pub name: String,
    pub attrs: Vec<Attr>,
    /// The formal parameters (functions and methods only).
    pub params: Vec<Param>,
    /// The declared return type in token form, `None` when there is none.
    pub output: Option<String>,
    /// The body in token form (functions and methods only).
    pub body: String,
    /// The declarations nested in this one, in source order.
    pub children: Vec<Item>,
}

/// A parsed source file together with its path.
pub struct SourceFile {
    pub path: String,
    pub items: Vec<Item>,
}

} // verus!
