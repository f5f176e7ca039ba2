//! The rich-context rendering of a code element: the text that is embedded.

use vstd::prelude::*;
use vstd::string::StringExecFns;
use crate::element::{CodeElement, ElementView, kind_label, pair_views};
use crate::extract::or_empty;
use crate::text::{join, join_strings, views};

verus! {

/// The parameters as they stand in the rich context: `name: type`, separated
/// by `", "`; empty when there is no parameter list.
pub open spec fn context_params(p: Option<Seq<(Seq<char>, Seq<char>)>>) -> Seq<char> {
    match p {
        Some(pairs) => join(pairs.map_values(|q: (Seq<char>, Seq<char>)| q.0 + ": "@ + q.1), ", "@),
        None => Seq::empty(),
    }
}

/// The labelled fields of an element, in a fixed order, one per line.
pub open spec fn rich_context(e: ElementView) -> Seq<char> {
    "Name: "@ + e.name + "\nType: "@ + kind_label(e.code_type) + "\nContext: "@ + join(
        e.context,
        " -> "@,
    ) + "\nDocs: "@ + e.docs + "\nParameters: "@ + context_params(e.parameters)
        + "\nReturn Type: "@ + or_empty(e.return_type) + "\nAttributes: "@ + join(
        e.attributes,
        "\n"@,
    ) + "\nContent: "@ + e.content
}

/// The parameters of an element rendered as `name: type` pairs.
fn parameter_text(p: &Option<Vec<(String, String)>>) -> (r: String)
    ensures
        r@ == context_params(
            match *p {
                Some(v) => Some(pair_views(v@)),
                None => None,
            },
        ),
{
    match p {
        None => String::new(),
        Some(pairs) => {
            let mut parts: Vec<String> = Vec::new();
            let mut i: usize = 0;
            while i < pairs.len()
                invariant
                    i <= pairs@.len(),
                    parts@.len() == i,
                    forall|j: int|
                        0 <= j < i ==> #[trigger] parts@[j]@ == pairs@[j].0@ + ": "@ + pairs@[j].1@,
                decreases pairs@.len() - i,
            {
                let mut one = pairs[i].0.clone();
                one.append(": ");
                one.append(pairs[i].1.as_str());
                let ghost prev = parts@;
                parts.push(one);
                proof {
                    assert(forall|j: int| 0 <= j < i ==> #[trigger] parts@[j] == prev[j]);
                }
                i = i + 1;
            }
            proof {
                assert(views(parts@) =~= pair_views(pairs@).map_values(
                    |q: (Seq<char>, Seq<char>)| q.0 + ": "@ + q.1,
                ));
            }
            join_strings(&parts, ", ")
        },
    }
}

impl CodeElement {
    /// The text embedded for this element: its name, kind, scope path, docs,
    /// parameters, return type, annotations and content, each after a label.
    pub fn rich_context(&self) -> (r: String)
        ensures
            r@ == rich_context(self@),
    {
        let mut r = "Name: ".to_owned();
        r.append(self.name.as_str());
        r.append("\nType: ");
        let kind = self.code_type.label();
        r.append(kind.as_str());
        r.append("\nContext: ");
        let ctx = join_strings(&self.context, " -> ");
        r.append(ctx.as_str());
        r.append("\nDocs: ");
        r.append(self.docs.as_str());
        r.append("\nParameters: ");
        let ps = parameter_text(&self.parameters);
        r.append(ps.as_str());
        r.append("\nReturn Type: ");
        match &self.return_type {
            Some(t) => r.append(t.as_str()),
            None => {},
        }
        r.append("\nAttributes: ");
        let attrs = join_strings(&self.attributes, "\n");
        r.append(attrs.as_str());
        r.append("\nContent: ");
        r.append(self.content.as_str());
        r
    }
}

} // verus!
