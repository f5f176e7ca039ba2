//! The indexed unit: one function, method or struct with its metadata.

use vstd::prelude::*;

verus! {

/// The structural kind of a code element.
#[derive(Clone, Copy, Debug, PartialEq, Eq, Structural)]
pub enum ElementKind {
    Function,
    Struct,
    Method,
}

/// The label of a kind, as it appears in rendered text.
pub open spec fn kind_label(k: ElementKind) -> Seq<char> {
    match k {
        ElementKind::Function => "function"@,
        ElementKind::Struct => "struct"@,
        ElementKind::Method => "method"@,
    }
}

impl ElementKind {
    /// The label of this kind: `function`, `struct` or `method`.
    pub fn label(&self) -> (r: String)
        ensures
            r@ == kind_label(*self),
    {
        match self {
            ElementKind::Function => "function".to_owned(),
            ElementKind::Struct => "struct".to_owned(),
            ElementKind::Method => "method".to_owned(),
        }
    }
}

/// One extracted declaration.
pub struct CodeElement {
    pub name: String,
    pub code_type: ElementKind,
    /// A canonical reconstruction of the signature and body.
    pub content: String,
    /// The file the element was extracted from.
    pub path: String,
    pub language: String,
    /// The documentation text, one line per documentation annotation.
    pub docs: String,
    /// Every annotation as written, in source order.
    pub attributes: Vec<String>,
    /// The typed parameters as (pattern, type); `None` for a struct.
    pub parameters: Option<Vec<(String, String)>>,
    pub return_type: Option<String>,
    /// The enclosing scopes, outermost first.
    pub context: Vec<String>,
}

/// The mathematical value of a [`CodeElement`].
pub struct ElementView {
    pub name: Seq<char>,
    pub code_type: ElementKind,
    pub content: Seq<char>,
    pub path: Seq<char>,
    pub language: Seq<char>,
    pub docs: Seq<char>,
    pub attributes: Seq<Seq<char>>,
    pub parameters: Option<Seq<(Seq<char>, Seq<char>)>>,
    pub return_type: Option<Seq<char>>,
    pub context: Seq<Seq<char>>,
}

pub open spec fn opt_view(o: Option<String>) -> Option<Seq<char>> {
    match o {
        Some(s) => Some(s@),
        None => None,
    }
}

pub open spec fn pair_views(v: Seq<(String, String)>) -> Seq<(Seq<char>, Seq<char>)> {
    v.map_values(|p: (String, String)| (p.0@, p.1@))
}

impl View for CodeElement {
    type V = ElementView;

    open spec fn view(&self) -> ElementView {
        ElementView {
            name: self.name@,
            code_type: self.code_type,
            content: self.content@,
            path: self.path@,
            language: self.language@,
            docs: self.docs@,
            attributes: crate::text::views(self.attributes@),
            parameters: match self.parameters {
                Some(v) => Some(pair_views(v@)),
                None => None,
            },
            return_type: opt_view(self.return_type),
            context: crate::text::views(self.context@),
        }
    }
}

/// The views of a sequence of elements.
pub open spec fn element_views(s: Seq<CodeElement>) -> Seq<ElementView> {
    s.map_values(|e: CodeElement| e@)
}

} // verus!
