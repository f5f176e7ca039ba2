//! The context-tracking extractor: one record per function, method and
//! struct, each carrying the stack of enclosing scopes at its declaration.

use vstd::prelude::*;
use vstd::string::StringExecFns;
use crate::element::{CodeElement, ElementKind, ElementView, element_views, opt_view, pair_views};
use crate::syntax::{Attr, Item, ItemKind, Param, SourceFile};
use crate::text::{join, join_strings, trim_quote_marks, trim_quotes, views};

verus! {

/// The typed parameters of a parameter list, as (pattern, type), in order.
pub open spec fn typed_params(ps: Seq<Param>) -> Seq<(Seq<char>, Seq<char>)>
    decreases ps.len(),
{
    if ps.len() == 0 {
        Seq::empty()
    } else {
        let rest = typed_params(ps.drop_last());
        match ps.last().ty {
            Some(t) => rest.push((ps.last().pattern@, t@)),
            None => rest,
        }
    }
}

/// The parameters as they stand in a function's content: `pattern type`,
/// separated by `", "`.
pub open spec fn content_params(pairs: Seq<(Seq<char>, Seq<char>)>) -> Seq<char> {
    join(pairs.map_values(|p: (Seq<char>, Seq<char>)| p.0 + " "@ + p.1), ", "@)
}

/// An optional text, empty when absent.
pub open spec fn or_empty(o: Option<Seq<char>>) -> Seq<char> {
    match o {
        Some(s) => s,
        None => Seq::empty(),
    }
}

/// The canonical reconstruction of a function:
/// `fn <name>(<params>) <return type> {\n<body>\n}`.
pub open spec fn fn_content(
    name: Seq<char>,
    pairs: Seq<(Seq<char>, Seq<char>)>,
    output: Option<Seq<char>>,
    body: Seq<char>,
) -> Seq<char> {
    "fn "@ + name + "("@ + content_params(pairs) + ") "@ + or_empty(output) + " {\n"@ + body
        + "\n}"@
}

/// The canonical content of a struct: `struct <name> {...}`.
pub open spec fn struct_content(name: Seq<char>) -> Seq<char> {
    "struct "@ + name + " {...}"@
}

/// The documentation texts of the annotations, unquoted, in order.
pub open spec fn doc_texts(attrs: Seq<Attr>) -> Seq<Seq<char>>
    decreases attrs.len(),
{
    if attrs.len() == 0 {
        Seq::empty()
    } else {
        let rest = doc_texts(attrs.drop_last());
        match attrs.last().doc {
            Some(d) => rest.push(trim_quotes(d@)),
            None => rest,
        }
    }
}

/// The documentation of a declaration: its documentation texts, one per line.
pub open spec fn docs_of(attrs: Seq<Attr>) -> Seq<char> {
    join(doc_texts(attrs), "\n"@)
}

/// Every annotation as written.
pub open spec fn attr_texts(attrs: Seq<Attr>) -> Seq<Seq<char>> {
    attrs.map_values(|a: Attr| a.text@)
}

/// The scope label that a declaration pushes while its children are walked.
pub open spec fn scope_label(it: Item) -> Option<Seq<char>> {
    match it.kind {
        ItemKind::Module => Some("mod "@ + it.name@),
        ItemKind::Impl => Some("impl "@ + it.name@),
        _ => None,
    }
}

/// The scope stack under which the children of `it` are walked.
pub open spec fn inner_context(it: Item, ctx: Seq<Seq<char>>) -> Seq<Seq<char>> {
    match scope_label(it) {
        Some(l) => ctx.push(l),
        None => ctx,
    }
}

/// The record of a function or method declaration.
pub open spec fn fn_record(it: Item, kind: ElementKind, file: Seq<char>, ctx: Seq<Seq<char>>) -> ElementView {
    ElementView {
        name: it.name@,
        code_type: kind,
        content: fn_content(it.name@, typed_params(it.params@), opt_view(it.output), it.body@),
        path: file,
        language: "rust"@,
        docs: docs_of(it.attrs@),
        attributes: attr_texts(it.attrs@),
        parameters: Some(typed_params(it.params@)),
        return_type: opt_view(it.output),
        context: ctx,
    }
}

/// The record of a struct declaration.
pub open spec fn struct_record(it: Item, file: Seq<char>, ctx: Seq<Seq<char>>) -> ElementView {
    ElementView {
        name: it.name@,
        code_type: ElementKind::Struct,
        content: struct_content(it.name@),
        path: file,
        language: "rust"@,
        docs: docs_of(it.attrs@),
        attributes: attr_texts(it.attrs@),
        parameters: None,
        return_type: None,
        context: ctx,
    }
}

/// The records that a declaration yields itself, without its children.
pub open spec fn own_records(it: Item, file: Seq<char>, ctx: Seq<Seq<char>>) -> Seq<ElementView> {
    match it.kind {
        ItemKind::Function => seq![fn_record(it, ElementKind::Function, file, ctx)],
        ItemKind::Method => seq![fn_record(it, ElementKind::Method, file, ctx)],
        ItemKind::Struct => seq![struct_record(it, file, ctx)],
        _ => Seq::empty(),
    }
}

/// The records of a sequence of declarations in pre-order: each declaration's
/// own record, then those of its children under its inner scope stack.
pub open spec fn records(items: Seq<Item>, file: Seq<char>, ctx: Seq<Seq<char>>) -> Seq<ElementView>
    decreases items,
{
    if items.len() == 0 {
        Seq::empty()
    } else {
        let it = items.last();
        records(items.drop_last(), file, ctx) + own_records(it, file, ctx) + records(
            it.children@,
            file,
            inner_context(it, ctx),
        )
    }
}


/// A copy of a vector of strings.
fn copy_strings(v: &Vec<String>) -> (r: Vec<String>)
    ensures
        views(r@) == views(v@),
{
    let mut out: Vec<String> = Vec::new();
    let mut i: usize = 0;
    while i < v.len()
        invariant
            i <= v@.len(),
            out@.len() == i,
            forall|j: int| 0 <= j < i ==> #[trigger] out@[j]@ == v@[j]@,
        decreases v@.len() - i,
    {
        let ghost prev = out@;
        out.push(v[i].clone());
        proof {
            assert(forall|j: int| 0 <= j < i ==> #[trigger] out@[j] == prev[j]);
        }
        i = i + 1;
    }
    proof {
        assert(views(out@) =~= views(v@));
    }
    out
}

/// The documentation of a declaration: the unquoted value of each
/// documentation annotation, joined by newlines.
pub fn extract_docs(attrs: &Vec<Attr>) -> (r: String)
    ensures
        r@ == docs_of(attrs@),
{
    let mut texts: Vec<String> = Vec::new();
    let mut i: usize = 0;
    while i < attrs.len()
        invariant
            i <= attrs@.len(),
            views(texts@) =~= doc_texts(attrs@.subrange(0, i as int)),
        decreases attrs@.len() - i,
    {
        proof {
            assert(attrs@.subrange(0, i + 1).drop_last() =~= attrs@.subrange(0, i as int));
        }
        match &attrs[i].doc {
            Some(d) => {
                texts.push(trim_quote_marks(d.as_str()));
            },
            None => {},
        }
        i = i + 1;
    }
    proof {
        assert(attrs@.subrange(0, attrs@.len() as int) =~= attrs@);
    }
    join_strings(&texts, "\n")
}

/// Every annotation of a declaration as written, in order.
pub fn extract_attributes(attrs: &Vec<Attr>) -> (r: Vec<String>)
    ensures
        views(r@) == attr_texts(attrs@),
{
    let mut out: Vec<String> = Vec::new();
    let mut i: usize = 0;
    while i < attrs.len()
        invariant
            i <= attrs@.len(),
            out@.len() == i,
            forall|j: int| 0 <= j < i ==> #[trigger] out@[j]@ == attrs@[j].text@,
        decreases attrs@.len() - i,
    {
        let ghost prev = out@;
        out.push(attrs[i].text.clone());
        proof {
            assert(forall|j: int| 0 <= j < i ==> #[trigger] out@[j] == prev[j]);
        }
        i = i + 1;
    }
    proof {
        assert(views(out@) =~= attr_texts(attrs@));
    }
    out
}

/// The typed parameters of a signature and its return type.
pub fn process_function_sig(params: &Vec<Param>, output: &Option<String>) -> (r: (
    Vec<(String, String)>,
    Option<String>,
))
    ensures
        pair_views(r.0@) == typed_params(params@),
        opt_view(r.1) == opt_view(*output),
{
    let mut pairs: Vec<(String, String)> = Vec::new();
    let mut i: usize = 0;
    while i < params.len()
        invariant
            i <= params@.len(),
            pair_views(pairs@) =~= typed_params(params@.subrange(0, i as int)),
        decreases params@.len() - i,
    {
        proof {
            assert(params@.subrange(0, i + 1).drop_last() =~= params@.subrange(0, i as int));
        }
        match &params[i].ty {
            Some(t) => {
                pairs.push((params[i].pattern.clone(), t.clone()));
            },
            None => {},
        }
        i = i + 1;
    }
    proof {
        assert(params@.subrange(0, params@.len() as int) =~= params@);
    }
    let ret = match output {
        Some(t) => Some(t.clone()),
        None => None,
    };
    (pairs, ret)
}

/// The canonical content of a function from its parts.
pub fn function_content(
    name: &String,
    pairs: &Vec<(String, String)>,
    output: &Option<String>,
    body: &String,
) -> (r: String)
    ensures
        r@ == fn_content(name@, pair_views(pairs@), opt_view(*output), body@),
{
    let mut joined: Vec<String> = Vec::new();
    let mut i: usize = 0;
    while i < pairs.len()
        invariant
            i <= pairs@.len(),
            joined@.len() == i,
            forall|j: int|
                0 <= j < i ==> #[trigger] joined@[j]@ == pairs@[j].0@ + " "@ + pairs@[j].1@,
        decreases pairs@.len() - i,
    {
        let mut one = pairs[i].0.clone();
        one.append(" ");
        one.append(pairs[i].1.as_str());
        let ghost prev = joined@;
        joined.push(one);
        proof {
            assert(forall|j: int| 0 <= j < i ==> #[trigger] joined@[j] == prev[j]);
        }
        i = i + 1;
    }
    proof {
        assert(views(joined@) =~= pair_views(pairs@).map_values(
            |p: (Seq<char>, Seq<char>)| p.0 + " "@ + p.1,
        ));
    }
    let mut r = "fn ".to_owned();
    r.append(name.as_str());
    r.append("(");
    let ps = join_strings(&joined, ", ");
    r.append(ps.as_str());
    r.append(") ");
    match output {
        Some(t) => r.append(t.as_str()),
        None => {},
    }
    r.append(" {\n");
    r.append(body.as_str());
    r.append("\n}");
    r
}

/// The record of a function, method or struct declaration under the scope
/// stack `stack`; `None` for any other declaration.
fn own_element(it: &Item, file: &String, stack: &Vec<String>) -> (r: Option<CodeElement>)
    ensures
        match r {
            Some(e) => own_records(*it, file@, views(stack@)) == seq![e@],
            None => own_records(*it, file@, views(stack@)) == Seq::<ElementView>::empty(),
        },
{
    match it.kind {
        ItemKind::Function | ItemKind::Method => {
            let kind = if it.kind == ItemKind::Function {
                ElementKind::Function
            } else {
                ElementKind::Method
            };
            let (params, return_type) = process_function_sig(&it.params, &it.output);
            let content = function_content(&it.name, &params, &return_type, &it.body);
            Some(
                CodeElement {
                    name: it.name.clone(),
                    code_type: kind,
                    content,
                    path: file.clone(),
                    language: "rust".to_owned(),
                    docs: extract_docs(&it.attrs),
                    attributes: extract_attributes(&it.attrs),
                    parameters: Some(params),
                    return_type,
                    context: copy_strings(stack),
                },
            )
        },
        ItemKind::Struct => {
            let mut content = "struct ".to_owned();
            content.append(it.name.as_str());
            content.append(" {...}");
            Some(
                CodeElement {
                    name: it.name.clone(),
                    code_type: ElementKind::Struct,
                    content,
                    path: file.clone(),
                    language: "rust".to_owned(),
                    docs: extract_docs(&it.attrs),
                    attributes: extract_attributes(&it.attrs),
                    parameters: None,
                    return_type: None,
                    context: copy_strings(stack),
                },
            )
        },
        _ => None,
    }
}

/// Walks `items` in pre-order under the scope stack `stack`, appending one
/// record per function, method and struct to `out`. Every scope label pushed
/// on the way down is popped on the way back up.
pub fn visit_items(items: &Vec<Item>, file: &String, stack: &mut Vec<String>, out: &mut Vec<CodeElement>)
    ensures
        final(stack)@ == old(stack)@,
        element_views(final(out)@) == element_views(old(out)@) + records(items@, file@, views(old(stack)@)),
    decreases items@,
{
    let ghost ctx = views(stack@);
    let ghost out0 = element_views(out@);
    let n = items.len();
    let mut i: usize = 0;
    while i < n
        invariant
            n == items@.len(),
            i <= n,
            stack@ == old(stack)@,
            ctx == views(stack@),
            element_views(out@) =~= out0 + records(items@.subrange(0, i as int), file@, ctx),
        decreases n - i,
    {
        let it = &items[i];
        let ghost before = element_views(out@);
        proof {
            assert(items@.subrange(0, i + 1).drop_last() =~= items@.subrange(0, i as int));
            assert(items@.subrange(0, i + 1).last() == *it);
        }
        match own_element(it, file, stack) {
            Some(e) => {
                out.push(e);
                proof {
                    assert(element_views(out@) =~= before + own_records(*it, file@, ctx));
                }
            },
            None => {
                proof {
                    assert(element_views(out@) =~= before + own_records(*it, file@, ctx));
                }
            },
        }
        let pushed = match it.kind {
            ItemKind::Module => {
                let mut label = "mod ".to_owned();
                label.append(it.name.as_str());
                stack.push(label);
                true
            },
            ItemKind::Impl => {
                let mut label = "impl ".to_owned();
                label.append(it.name.as_str());
                stack.push(label);
                true
            },
            _ => false,
        };
        proof {
            assert(views(stack@) =~= inner_context(*it, ctx));
            assert(decreases_to!(items@ => items@[i as int]));
        }
        visit_items(&it.children, file, stack, out);
        if pushed {
            stack.pop();
        }
        proof {
            assert(stack@ =~= old(stack)@);
        }
        i = i + 1;
    }
    proof {
        assert(items@.subrange(0, n as int) =~= items@);
    }
}

/// The records of one source file, in pre-order of declaration, each with
/// the stack of scopes enclosing it.
pub fn extract(file: &SourceFile) -> (r: Vec<CodeElement>)
    ensures
        element_views(r@) == records(file.items@, file.path@, Seq::empty()),
{
    let mut stack: Vec<String> = Vec::new();
    let mut out: Vec<CodeElement> = Vec::new();
    proof {
        assert(views(stack@) =~= Seq::<Seq<char>>::empty());
        assert(element_views(out@) =~= Seq::<ElementView>::empty());
    }
    visit_items(&file.items, &file.path, &mut stack, &mut out);
    proof {
        assert(element_views(out@) =~= records(file.items@, file.path@, Seq::empty()));
    }
    out
}

/// In the records of any tree of declarations, a struct never has a
/// parameter list, and a function or method always has one.
pub proof fn lemma_parameters_by_kind(items: Seq<Item>, file: Seq<char>, ctx: Seq<Seq<char>>)
    ensures
        forall|i: int|
            0 <= i < records(items, file, ctx).len() ==> ((#[trigger] records(items, file, ctx)[i]).code_type
                == ElementKind::Struct <==> records(items, file, ctx)[i].parameters is None),
    decreases items,
{
    if items.len() > 0 {
        let it = items.last();
        lemma_parameters_by_kind(items.drop_last(), file, ctx);
        lemma_parameters_by_kind(it.children@, file, inner_context(it, ctx));
        let a = records(items.drop_last(), file, ctx);
        let b = own_records(it, file, ctx);
        let c = records(it.children@, file, inner_context(it, ctx));
        assert(records(items, file, ctx) == a + b + c);
        assert forall|i: int| 0 <= i < records(items, file, ctx).len() implies ((#[trigger] records(
            items,
            file,
            ctx,
        )[i]).code_type == ElementKind::Struct <==> records(items, file, ctx)[i].parameters is None) by {
            if i < a.len() {
                assert(records(items, file, ctx)[i] == a[i]);
            } else if i < a.len() + b.len() {
                assert(records(items, file, ctx)[i] == b[i - a.len()]);
            } else {
                assert(records(items, file, ctx)[i] == c[i - a.len() - b.len()]);
            }
        }
    }
}

/// A parameter list that holds only receivers has no typed parameter.
proof fn lemma_receivers_only(ps: Seq<Param>)
    requires
        forall|i: int| 0 <= i < ps.len() ==> (#[trigger] ps[i]).ty is None,
    ensures
        typed_params(ps) == Seq::<(Seq<char>, Seq<char>)>::empty(),
    decreases ps.len(),
{
    if ps.len() > 0 {
        lemma_receivers_only(ps.drop_last());
        assert(ps.last().ty is None);
    }
}

/// A function or method declared with no parameters, or with a receiver
/// alone, yields one record whose parameter list is present and empty.
pub proof fn lemma_zero_argument_function(it: Item, file: Seq<char>, ctx: Seq<Seq<char>>)
    requires
        it.kind == ItemKind::Function || it.kind == ItemKind::Method,
        forall|i: int| 0 <= i < it.params@.len() ==> (#[trigger] it.params@[i]).ty is None,
    ensures
        own_records(it, file, ctx).len() == 1,
        own_records(it, file, ctx)[0].parameters == Some(Seq::<(Seq<char>, Seq<char>)>::empty()),
{
    lemma_receivers_only(it.params@);
}

} // verus!
