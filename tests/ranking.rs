use code_search::element::{CodeElement, ElementKind};
use code_search::index::{SearchError, SemanticSearch};
use code_search::rank::{order_key, top_k};
use code_search::syntax::{Item, ItemKind, SourceFile};

fn key(x: f32) -> u32 {
    order_key(x.to_bits())
}

fn element(name: &str) -> CodeElement {
    CodeElement {
        name: name.to_string(),
        code_type: ElementKind::Function,
        content: String::new(),
        path: "a.rs".to_string(),
        language: "rust".to_string(),
        docs: String::new(),
        attributes: vec![],
        parameters: Some(vec![]),
        return_type: None,
        context: vec![],
    }
}

#[test]
fn order_keys_follow_float_order() {
    let xs = [-1.0f32, -0.5, -1e-30, 0.0, 1e-6, 0.5, 1.0];
    for w in xs.windows(2) {
        assert!(key(w[0]) < key(w[1]), "{} {}", w[0], w[1]);
    }
    assert_eq!(order_key(0), 0x8000_0000);
    assert_eq!(order_key(0x8000_0000), 0x8000_0000);
    assert_eq!(key(-0.0), key(0.0));
    assert_eq!(order_key(0x8000_0001), 0x7FFF_FFFE);
}

#[test]
fn top_k_sorts_descending_and_keeps_ties_in_order() {
    let keys = vec![Some(key(0.2)), Some(key(0.9)), Some(key(0.2)), Some(key(-0.3)), Some(key(0.9))];
    assert_eq!(top_k(&keys, 5), vec![1, 4, 0, 2, 3]);
    assert_eq!(top_k(&keys, 2), vec![1, 4]);
}

#[test]
fn zeros_of_either_sign_tie_in_insertion_order() {
    let keys = vec![Some(key(-0.0)), Some(key(0.0)), Some(key(-0.0))];
    assert_eq!(top_k(&keys, 3), vec![0, 1, 2]);
}

#[test]
fn top_k_zero_is_empty() {
    let keys = vec![Some(key(0.2)), Some(key(0.9))];
    assert!(top_k(&keys, 0).is_empty());
}

#[test]
fn top_k_larger_than_corpus_returns_each_once() {
    let keys = vec![Some(key(0.1)), Some(key(0.3)), Some(key(0.2))];
    assert_eq!(top_k(&keys, 10), vec![1, 2, 0]);
}

#[test]
fn top_k_skips_entries_without_score() {
    let keys = vec![None, Some(key(0.1)), None, Some(key(0.5))];
    assert_eq!(top_k(&keys, 10), vec![3, 1]);
    assert!(top_k(&vec![None, None], 3).is_empty());
}

#[test]
fn top_k_is_prefix_of_full_ranking() {
    let keys = vec![Some(key(0.4)), Some(key(0.8)), Some(key(-0.1)), Some(key(0.8))];
    let full = top_k(&keys, keys.len());
    for k in 0..=keys.len() {
        assert_eq!(top_k(&keys, k), full[..k].to_vec());
    }
}

#[test]
fn ranking_is_repeatable() {
    let keys = vec![Some(key(0.3)), Some(key(0.3)), Some(key(0.7))];
    assert_eq!(top_k(&keys, 3), top_k(&keys, 3));
}

#[test]
fn corpus_ranks_related_element_first() {
    let mut corpus: SemanticSearch<Vec<f32>> = SemanticSearch::new();
    assert_eq!(corpus.len(), 0);
    assert_eq!(corpus.width(), None);
    assert_eq!(corpus.add_element(element("add"), vec![0.9, 0.1], 2), Ok(()));
    assert_eq!(corpus.add_element(element("Point"), vec![0.1, 0.9], 2), Ok(()));
    assert_eq!(corpus.len(), 2);
    assert_eq!(corpus.width(), Some(2));
    let scores = vec![0.95f32.to_bits(), 0.2f32.to_bits()];
    let ranked = corpus.search(&scores, 5);
    assert_eq!(ranked, vec![0, 1]);
    assert_eq!(corpus.element(ranked[0]).name, "add");
    assert_eq!(corpus.embedding(1), &vec![0.1, 0.9]);
    assert!(corpus.search(&scores, 0).is_empty());
}

#[test]
fn embedding_of_other_width_is_refused() {
    let mut corpus: SemanticSearch<Vec<f32>> = SemanticSearch::new();
    assert_eq!(corpus.add_element(element("a"), vec![1.0, 0.0], 2), Ok(()));
    assert_eq!(
        corpus.add_element(element("b"), vec![1.0], 1),
        Err(SearchError::EmbeddingFailure("b".to_string()))
    );
    assert_eq!(corpus.len(), 1);
    assert_eq!(corpus.width(), Some(2));
}

fn sample_file() -> SourceFile {
    let f = |kind: ItemKind, name: &str, children: Vec<Item>| Item {
        kind,
        name: name.to_string(),
        attrs: vec![],
        params: vec![],
        output: None,
        body: "{ }".to_string(),
        children,
    };
    SourceFile {
        path: "lib.rs".to_string(),
        items: vec![f(
            ItemKind::Module,
            "math",
            vec![f(ItemKind::Function, "add", vec![]), f(ItemKind::Struct, "Point", vec![])],
        )],
    }
}

#[test]
fn index_source_embeds_each_rich_context_in_order() {
    let mut corpus: SemanticSearch<Vec<f32>> = SemanticSearch::new();
    let seen = std::cell::RefCell::new(Vec::new());
    let embed = |t: &String| -> Result<(Vec<f32>, usize), SearchError> {
        seen.borrow_mut().push(t.clone());
        Ok((vec![t.len() as f32, 1.0], 2))
    };
    assert_eq!(corpus.index_source(&sample_file(), &embed), Ok(()));
    assert_eq!(corpus.len(), 2);
    assert_eq!(corpus.element(0).name, "add");
    assert_eq!(corpus.element(1).name, "Point");
    let seen = seen.into_inner();
    assert_eq!(seen.len(), 2);
    assert!(seen[0].starts_with("Name: add\nType: function\nContext: mod math\n"));
    assert_eq!(corpus.embedding(1), &vec![seen[1].len() as f32, 1.0]);
}

#[test]
fn index_source_stops_at_first_failure() {
    let mut corpus: SemanticSearch<Vec<f32>> = SemanticSearch::new();
    let embed = |t: &String| -> Result<(Vec<f32>, usize), SearchError> {
        if t.starts_with("Name: Point") {
            Err(SearchError::EmbeddingFailure("offline".to_string()))
        } else {
            Ok((vec![1.0], 1))
        }
    };
    assert_eq!(
        corpus.index_source(&sample_file(), &embed),
        Err(SearchError::EmbeddingFailure("offline".to_string()))
    );
    assert_eq!(corpus.len(), 1);
    assert_eq!(corpus.element(0).name, "add");
}

#[test]
fn index_source_on_empty_file_succeeds_without_calls() {
    let mut corpus: SemanticSearch<Vec<f32>> = SemanticSearch::new();
    let embed = |_: &String| -> Result<(Vec<f32>, usize), SearchError> {
        Err(SearchError::EmbeddingFailure("unreachable".to_string()))
    };
    let file = SourceFile { path: "empty.rs".to_string(), items: vec![] };
    assert_eq!(corpus.index_source(&file, &embed), Ok(()));
    assert_eq!(corpus.len(), 0);
}

#[test]
fn index_source_refuses_width_change_naming_element() {
    let mut corpus: SemanticSearch<Vec<f32>> = SemanticSearch::new();
    let embed = |t: &String| -> Result<(Vec<f32>, usize), SearchError> {
        if t.starts_with("Name: Point") {
            Ok((vec![1.0, 2.0, 3.0], 3))
        } else {
            Ok((vec![1.0, 2.0], 2))
        }
    };
    assert_eq!(
        corpus.index_source(&sample_file(), &embed),
        Err(SearchError::EmbeddingFailure("Point".to_string()))
    );
    assert_eq!(corpus.len(), 1);
    assert_eq!(corpus.width(), Some(2));
}

#[test]
fn indexed_elements_carry_their_scopes() {
    let f = |kind: ItemKind, name: &str, children: Vec<Item>| Item {
        kind,
        name: name.to_string(),
        attrs: vec![],
        params: vec![],
        output: None,
        body: "{ }".to_string(),
        children,
    };
    let file = SourceFile {
        path: "a.rs".to_string(),
        items: vec![
            f(ItemKind::Module, "m", vec![f(ItemKind::Struct, "S", vec![])]),
            f(ItemKind::Impl, "Acc", vec![f(ItemKind::Method, "f", vec![])]),
            f(ItemKind::Function, "g", vec![]),
        ],
    };
    let mut corpus: SemanticSearch<Vec<f32>> = SemanticSearch::new();
    let embed = |_: &String| -> Result<(Vec<f32>, usize), SearchError> { Ok((vec![0.5], 1)) };
    assert_eq!(corpus.index_source(&file, &embed), Ok(()));
    assert_eq!(corpus.len(), 3);
    assert_eq!(corpus.element(0).context, vec!["mod m".to_string()]);
    assert_eq!(corpus.element(1).context, vec!["impl Acc".to_string()]);
    assert!(corpus.element(2).context.is_empty());
    let mut again: SemanticSearch<Vec<f32>> = SemanticSearch::new();
    assert_eq!(again.index_source(&file, &embed), Ok(()));
    for i in 0..3 {
        assert_eq!(again.element(i).rich_context(), corpus.element(i).rich_context());
        assert_eq!(again.embedding(i), corpus.embedding(i));
    }
}
