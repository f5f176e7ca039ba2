use code_search::element::ElementKind;
use code_search::extract::{extract, extract_docs, visit_items};
use code_search::syntax::{Attr, Item, ItemKind, Param, SourceFile};
use code_search::text::{join_strings, trim_quote_marks};

fn item(kind: ItemKind, name: &str, children: Vec<Item>) -> Item {
    Item {
        kind,
        name: name.to_string(),
        attrs: Vec::new(),
        params: Vec::new(),
        output: None,
        body: String::new(),
        children,
    }
}

fn typed(pattern: &str, ty: &str) -> Param {
    Param { pattern: pattern.to_string(), ty: Some(ty.to_string()) }
}

fn add_fn() -> Item {
    Item {
        kind: ItemKind::Function,
        name: "add".to_string(),
        attrs: Vec::new(),
        params: vec![typed("a", "i32"), typed("b", "i32")],
        output: Some("i32".to_string()),
        body: "{ a + b }".to_string(),
        children: Vec::new(),
    }
}

#[test]
fn function_in_module_yields_one_record() {
    let file = SourceFile {
        path: "src/math.rs".to_string(),
        items: vec![item(ItemKind::Module, "math", vec![add_fn()])],
    };
    let out = extract(&file);
    assert_eq!(out.len(), 1);
    let e = &out[0];
    assert_eq!(e.name, "add");
    assert_eq!(e.code_type, ElementKind::Function);
    assert_eq!(e.code_type.label(), "function");
    assert_eq!(e.context, vec!["mod math".to_string()]);
    assert_eq!(
        e.parameters,
        Some(vec![("a".to_string(), "i32".to_string()), ("b".to_string(), "i32".to_string())])
    );
    assert_eq!(e.return_type, Some("i32".to_string()));
    assert_eq!(e.content, "fn add(a i32, b i32) i32 {\n{ a + b }\n}");
    assert_eq!(e.path, "src/math.rs");
    assert_eq!(e.language, "rust");
    assert_eq!(e.docs, "");
    assert!(e.attributes.is_empty());
}

#[test]
fn struct_has_no_parameter_list() {
    let file = SourceFile { path: "a.rs".to_string(), items: vec![item(ItemKind::Struct, "Point", vec![])] };
    let out = extract(&file);
    assert_eq!(out.len(), 1);
    assert_eq!(out[0].code_type, ElementKind::Struct);
    assert_eq!(out[0].parameters, None);
    assert_eq!(out[0].return_type, None);
    assert_eq!(out[0].content, "struct Point {...}");
    assert!(out[0].context.is_empty());
}

#[test]
fn zero_argument_function_has_empty_parameter_list() {
    let mut f = item(ItemKind::Function, "run", vec![]);
    f.body = "{ }".to_string();
    let file = SourceFile { path: "a.rs".to_string(), items: vec![f] };
    let out = extract(&file);
    assert_eq!(out[0].parameters, Some(vec![]));
    assert_eq!(out[0].content, "fn run()  {\n{ }\n}");
}

#[test]
fn methods_carry_impl_context_and_skip_receiver() {
    let mut m = item(ItemKind::Method, "norm", vec![]);
    m.params = vec![Param { pattern: "& self".to_string(), ty: None }, typed("scale", "f64")];
    m.output = Some("f64".to_string());
    let file = SourceFile {
        path: "a.rs".to_string(),
        items: vec![item(
            ItemKind::Module,
            "geo",
            vec![item(ItemKind::Impl, "Point", vec![m]), item(ItemKind::Struct, "Line", vec![])],
        )],
    };
    let out = extract(&file);
    assert_eq!(out.len(), 2);
    assert_eq!(out[0].name, "norm");
    assert_eq!(out[0].code_type, ElementKind::Method);
    assert_eq!(out[0].context, vec!["mod geo".to_string(), "impl Point".to_string()]);
    assert_eq!(out[0].parameters, Some(vec![("scale".to_string(), "f64".to_string())]));
    assert_eq!(out[1].name, "Line");
    assert_eq!(out[1].context, vec!["mod geo".to_string()]);
}

#[test]
fn nested_declarations_follow_their_parent() {
    let inner = item(ItemKind::Function, "inner", vec![]);
    let outer = item(ItemKind::Function, "outer", vec![inner]);
    let last = item(ItemKind::Struct, "After", vec![]);
    let file = SourceFile { path: "a.rs".to_string(), items: vec![outer, item(ItemKind::Other, "", vec![last])] };
    let out = extract(&file);
    let names: Vec<&str> = out.iter().map(|e| e.name.as_str()).collect();
    assert_eq!(names, vec!["outer", "inner", "After"]);
}

#[test]
fn empty_scope_leaves_stack_unchanged() {
    let items = vec![item(ItemKind::Module, "empty", vec![item(ItemKind::Impl, "T", vec![])])];
    let mut stack = vec!["mod top".to_string()];
    let mut out = Vec::new();
    visit_items(&items, &"a.rs".to_string(), &mut stack, &mut out);
    assert!(out.is_empty());
    assert_eq!(stack, vec!["mod top".to_string()]);
}

#[test]
fn docs_join_unquoted_doc_values_only() {
    let attrs = vec![
        Attr { text: "# [doc = \" Adds numbers.\"]".to_string(), doc: Some("\" Adds numbers.\"".to_string()) },
        Attr { text: "# [inline]".to_string(), doc: None },
        Attr { text: "# [doc = \" Second line.\"]".to_string(), doc: Some("\" Second line.\"".to_string()) },
    ];
    assert_eq!(extract_docs(&attrs), " Adds numbers.\n Second line.");
    let mut f = add_fn();
    f.attrs = attrs;
    let out = extract(&SourceFile { path: "a.rs".to_string(), items: vec![f] });
    assert_eq!(out[0].docs, " Adds numbers.\n Second line.");
    assert_eq!(out[0].attributes.len(), 3);
    assert_eq!(out[0].attributes[1], "# [inline]");
}

#[test]
fn no_annotations_give_empty_docs() {
    assert_eq!(extract_docs(&Vec::new()), "");
}

#[test]
fn quote_marks_are_trimmed_at_both_ends() {
    assert_eq!(trim_quote_marks("\"\"a\"b\"\""), "a\"b");
    assert_eq!(trim_quote_marks("\"\"\""), "");
    assert_eq!(trim_quote_marks("plain"), "plain");
}

#[test]
fn strings_join_with_separator() {
    let parts = vec!["a".to_string(), "bc".to_string(), "".to_string()];
    assert_eq!(join_strings(&parts, " -> "), "a -> bc -> ");
    assert_eq!(join_strings(&Vec::new(), ", "), "");
}
