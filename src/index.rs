//! The embedding index: the corpus of extracted elements, each stored with
//! its embedding, all embeddings of one width.

use vstd::prelude::*;
use crate::context::rich_context;
use crate::element::{CodeElement, ElementView, element_views};
use crate::extract::{extract, records};
use crate::syntax::SourceFile;
use crate::rank::{is_top_k, order_key, score_key, top_k};

verus! {

/// Why indexing or searching failed.
#[derive(Debug, PartialEq, Eq)]
pub enum SearchError {
    /// A source file could not be parsed; carries its path.
    ParseFailure(String),
    /// The embedding provider failed or returned a vector of the wrong
    /// width; carries the text or element concerned.
    EmbeddingFailure(String),
    /// A file or directory could not be read; carries its path.
    IoFailure(String),
}

/// The keys under which the scores of a fully embedded corpus are ranked.
pub open spec fn score_keys(scores: Seq<u32>) -> Seq<Option<u32>> {
    scores.map_values(|b: u32| Some(score_key(b)))
}

/// Width `w` fits a corpus of width `cur`: the corpus has none yet, or it is `w`.
pub open spec fn width_fits(cur: Option<usize>, w: usize) -> bool {
    cur is None || cur == Some(w)
}

/// Every result that `embed` may give is an embedding of width `w`.
pub open spec fn uniform_provider<E, F: Fn(&String) -> Result<(E, usize), SearchError>>(
    embed: &F,
    w: usize,
) -> bool {
    forall|t: &String, res: Result<(E, usize), SearchError>|
        #[trigger] embed.ensures((t,), res) ==> (res matches Ok((_, w2)) && w2 == w)
}

/// `v` is what `embed` returned for the rich context of `e`, with the width
/// that the corpus now has.
pub open spec fn embedded_as<E, F: Fn(&String) -> Result<(E, usize), SearchError>>(
    embed: &F,
    e: ElementView,
    v: E,
    width: Option<usize>,
) -> bool {
    exists|t: &String, w: usize|
        t@ == rich_context(e) && #[trigger] embed.ensures((t,), Ok((v, w))) && width == Some(w)
}

/// Indexing stopped at `e` with `err`: either `embed` returned `err` for the
/// rich context of `e`, or it returned an embedding of another width than the
/// corpus and `err` is the embedding failure naming `e`.
pub open spec fn failed_on<E, F: Fn(&String) -> Result<(E, usize), SearchError>>(
    embed: &F,
    e: ElementView,
    err: SearchError,
) -> bool {
    ||| exists|t: &String| t@ == rich_context(e) && #[trigger] embed.ensures((t,), Err(err))
    ||| err matches SearchError::EmbeddingFailure(n) && n@ == e.name
}

/// `embed` gives one result per text: equal texts, equal results.
pub open spec fn deterministic_provider<E, F: Fn(&String) -> Result<(E, usize), SearchError>>(
    embed: &F,
) -> bool {
    forall|t1: &String, t2: &String, r1: Result<(E, usize), SearchError>, r2: Result<(E, usize), SearchError>|
        #![trigger embed.ensures((t1,), r1), embed.ensures((t2,), r2)]
        t1@ == t2@ && embed.ensures((t1,), r1) && embed.ensures((t2,), r2) ==> r1 == r2
}

/// Embedding is deterministic: two corpora that hold the same elements, each
/// element embedded by the same deterministic provider, hold the same
/// embeddings.
pub proof fn lemma_same_embeddings<E, F: Fn(&String) -> Result<(E, usize), SearchError>>(
    embed: &F,
    a: SemanticSearch<E>,
    b: SemanticSearch<E>,
)
    requires
        a.wf(),
        b.wf(),
        deterministic_provider(embed),
        a.elements() == b.elements(),
        forall|j: int|
            0 <= j < a.elements().len() ==> #[trigger] embedded_as(
                embed,
                a.elements()[j],
                a.vectors()[j],
                a.embedding_width(),
            ),
        forall|j: int|
            0 <= j < b.elements().len() ==> #[trigger] embedded_as(
                embed,
                b.elements()[j],
                b.vectors()[j],
                b.embedding_width(),
            ),
    ensures
        a.vectors() == b.vectors(),
{
    assert(a.code_elements@.len() == a.elements().len());
    assert(b.code_elements@.len() == b.elements().len());
    assert forall|j: int| 0 <= j < a.vectors().len() implies a.vectors()[j] == b.vectors()[j] by {
        assert(embedded_as(embed, a.elements()[j], a.vectors()[j], a.embedding_width()));
        assert(embedded_as(embed, b.elements()[j], b.vectors()[j], b.embedding_width()));
        let (t1, w1) = choose|t: &String, w: usize|
            t@ == rich_context(a.elements()[j]) && #[trigger] embed.ensures((t,), Ok((a.vectors()[j], w)))
                && a.embedding_width() == Some(w);
        let (t2, w2) = choose|t: &String, w: usize|
            t@ == rich_context(b.elements()[j]) && #[trigger] embed.ensures((t,), Ok((b.vectors()[j], w)))
                && b.embedding_width() == Some(w);
        assert(embed.ensures((t1,), Ok((a.vectors()[j], w1))));
        assert(embed.ensures((t2,), Ok((b.vectors()[j], w2))));
    }
    assert(a.vectors() =~= b.vectors());
}

/// The corpus of one indexing run: elements in insertion order, each with
/// its embedding of type `E`.
pub struct SemanticSearch<E> {
    code_elements: Vec<CodeElement>,
    embeddings: Vec<E>,
    width: Option<usize>,
}

impl<E> SemanticSearch<E> {
    /// The elements, in insertion order.
    pub closed spec fn elements(&self) -> Seq<ElementView> {
        self.code_elements@.map_values(|e: CodeElement| e@)
    }

    /// The embeddings, one per element, in insertion order.
    pub closed spec fn vectors(&self) -> Seq<E> {
        self.embeddings@
    }

    /// The width shared by all embeddings; `None` while the corpus is empty.
    pub closed spec fn embedding_width(&self) -> Option<usize> {
        self.width
    }

    /// One embedding per element, and a width exactly when there is one.
    pub closed spec fn wf(&self) -> bool {
        &&& self.code_elements@.len() == self.embeddings@.len()
        &&& (self.width is Some <==> self.code_elements@.len() > 0)
    }

    /// An empty corpus.
    pub fn new() -> (r: Self)
        ensures
            r.wf(),
            r.elements() == Seq::<ElementView>::empty(),
            r.vectors() == Seq::<E>::empty(),
            r.embedding_width() == None::<usize>,
    {
        let r = SemanticSearch { code_elements: Vec::new(), embeddings: Vec::new(), width: None };
        proof {
            assert(r.elements() =~= Seq::<ElementView>::empty());
        }
        r
    }

    /// The number of elements.
    pub fn len(&self) -> (r: usize)
        requires
            self.wf(),
        ensures
            r == self.elements().len(),
            r == self.vectors().len(),
    {
        self.code_elements.len()
    }

    /// The width shared by all embeddings.
    pub fn width(&self) -> (r: Option<usize>)
        ensures
            r == self.embedding_width(),
    {
        self.width
    }

    /// The element at position `i`.
    pub fn element(&self, i: usize) -> (r: &CodeElement)
        requires
            self.wf(),
            i < self.elements().len(),
        ensures
            r@ == self.elements()[i as int],
    {
        &self.code_elements[i]
    }

    /// The embedding of the element at position `i`.
    pub fn embedding(&self, i: usize) -> (r: &E)
        requires
            self.wf(),
            i < self.vectors().len(),
        ensures
            *r == self.vectors()[i as int],
    {
        &self.embeddings[i]
    }

    /// Appends `element` with its embedding, of `width` entries. The first
    /// embedding fixes the corpus width; an embedding of another width is
    /// refused and leaves the corpus unchanged.
    pub fn add_element(&mut self, element: CodeElement, embedding: E, width: usize) -> (r: Result<
        (),
        SearchError,
    >)
        requires
            old(self).wf(),
        ensures
            final(self).wf(),
            match old(self).embedding_width() {
                Some(w) if w != width => {
                    &&& r matches Err(SearchError::EmbeddingFailure(name))
                    &&& name@ == element.name@
                    &&& final(self).elements() == old(self).elements()
                    &&& final(self).vectors() == old(self).vectors()
                    &&& final(self).embedding_width() == old(self).embedding_width()
                },
                _ => {
                    &&& r is Ok
                    &&& final(self).elements() == old(self).elements().push(element@)
                    &&& final(self).vectors() == old(self).vectors().push(embedding)
                    &&& final(self).embedding_width() == Some(width)
                },
            },
    {
        match self.width {
            Some(w) => {
                if w != width {
                    return Err(SearchError::EmbeddingFailure(element.name.clone()));
                }
            },
            None => {},
        }
        let ghost before = self.code_elements@;
        self.code_elements.push(element);
        self.embeddings.push(embedding);
        self.width = Some(width);
        proof {
            assert(self.code_elements@.map_values(|e: CodeElement| e@) =~= before.map_values(
                |e: CodeElement| e@,
            ).push(element@));
        }
        Ok(())
    }

    /// Extracts the elements of `file` and adds each, in order, with the
    /// embedding that `embed` returns for its rich context, together with that
    /// embedding's width. The first failure, of `embed` or of
    /// [`Self::add_element`], stops the run and is returned; the element that
    /// failed is not added, those added before it stay.
    pub fn index_source<F>(&mut self, file: &SourceFile, embed: &F) -> (r: Result<(), SearchError>) where
        F: Fn(&String) -> Result<(E, usize), SearchError>,

        requires
            old(self).wf(),
            forall|t: &String| embed.requires((t,)),
        ensures
            final(self).wf(),
            final(self).vectors().len() == final(self).elements().len(),
            old(self).elements().len() <= final(self).elements().len() <= old(self).elements().len()
                + records(file.items@, file.path@, Seq::empty()).len(),
            final(self).elements() == old(self).elements() + records(
                file.items@,
                file.path@,
                Seq::empty(),
            ).take(final(self).elements().len() - old(self).elements().len()),
            final(self).vectors().take(old(self).vectors().len() as int) == old(self).vectors(),
            old(self).embedding_width() is Some ==> final(self).embedding_width()
                == old(self).embedding_width(),
            forall|j: int|
                old(self).elements().len() <= j < final(self).elements().len() ==> #[trigger] embedded_as(
                    embed,
                    final(self).elements()[j],
                    final(self).vectors()[j],
                    final(self).embedding_width(),
                ),
            r is Ok <==> final(self).elements().len() == old(self).elements().len() + records(
                file.items@,
                file.path@,
                Seq::empty(),
            ).len(),
            r is Err ==> failed_on(
                embed,
                records(file.items@, file.path@, Seq::empty())[final(self).elements().len()
                    - old(self).elements().len()],
                r->Err_0,
            ),
            forall|w: usize|
                #[trigger] uniform_provider(embed, w) && width_fits(old(self).embedding_width(), w)
                    ==> r is Ok,
    {
        let ghost all = records(file.items@, file.path@, Seq::empty());
        let mut rest = extract(file);
        let ghost start = self.elements();
        let ghost n0 = old(self).elements().len() as int;
        let ghost mut done: int = 0;
        while rest.len() > 0
            invariant
                self.wf(),
                forall|t: &String| embed.requires((t,)),
                0 <= done <= all.len(),
                start == old(self).elements(),
                n0 == start.len(),
                all == records(file.items@, file.path@, Seq::empty()),
                element_views(rest@) == all.skip(done as int),
                self.elements() == start + all.take(done as int),
                self.vectors().take(n0) == old(self).vectors(),
                old(self).embedding_width() is Some ==> self.embedding_width()
                    == old(self).embedding_width(),
                forall|j: int|
                    n0 <= j < self.elements().len() ==> #[trigger] embedded_as(
                        embed,
                        self.elements()[j],
                        self.vectors()[j],
                        self.embedding_width(),
                    ),
                forall|w: usize|
                    #[trigger] uniform_provider(embed, w) && width_fits(old(self).embedding_width(), w)
                        ==> width_fits(self.embedding_width(), w),
            decreases rest@.len(),
        {
            let ghost before = rest@;
            let ghost pre = *self;
            let element = rest.remove(0);
            proof {
                assert(element_views(rest@) =~= element_views(before).skip(1));
                assert(element_views(before)[0] == element@);
                assert(all.skip(done as int)[0] == all[done as int]);
                assert(element@ == all[done as int]);
                assert(element_views(rest@) =~= all.skip(done + 1));
            }
            let text = element.rich_context();
            let ghost name = element.name;
            match embed(&text) {
                Ok((embedding, width)) => {
                    match self.add_element(element, embedding, width) {
                        Ok(()) => {
                            proof {
                                assert(embedded_as(embed, all[done as int], embedding, Some(width)));
                                assert(pre.elements().len() == n0 + done);
                                assert(pre.code_elements@.len() == pre.elements().len());
                                assert(pre.vectors().len() >= n0);
                                assert forall|i: int| 0 <= i < n0 implies self.vectors().take(n0)[i]
                                    == old(self).vectors()[i] by {
                                    assert(self.vectors()[i] == pre.vectors()[i]);
                                    assert(pre.vectors().take(n0)[i] == pre.vectors()[i]);
                                }
                                assert(self.vectors().take(n0) =~= old(self).vectors());
                                assert forall|j: int|
                                    n0 <= j < self.elements().len() implies #[trigger] embedded_as(
                                    embed,
                                    self.elements()[j],
                                    self.vectors()[j],
                                    self.embedding_width(),
                                ) by {
                                    if j < self.elements().len() - 1 {
                                        assert(self.elements()[j] == pre.elements()[j]);
                                        assert(self.vectors()[j] == pre.vectors()[j]);
                                        assert(embedded_as(embed, pre.elements()[j], pre.vectors()[j], pre.embedding_width()));
                                    }
                                }
                            }
                        },
                        Err(e) => {
                            proof {
                                assert(self.elements() == old(self).elements() + all.take(done as int));
                                assert(self.elements().len() - n0 == done);
                                assert(failed_on(embed, all[done as int], e)) by {
                                    assert(name@ == all[done as int].name);
                                }
                                assert forall|w: usize|
                                    #[trigger] uniform_provider(embed, w) implies !width_fits(
                                    old(self).embedding_width(),
                                    w,
                                ) by {
                                    if width_fits(old(self).embedding_width(), w) {
                                        assert(embed.ensures((&text,), Ok((embedding, width))));
                                    }
                                }
                            }
                            return Err(e);
                        },
                    }
                },
                Err(e) => {
                    proof {
                        assert(self.elements() == old(self).elements() + all.take(done as int));
                        assert(self.elements().len() - n0 == done);
                        assert(failed_on(embed, all[done as int], e));
                        assert forall|w: usize| #[trigger] uniform_provider(embed, w) implies false by {
                            assert(embed.ensures((&text,), Err(e)));
                        }
                    }
                    return Err(e);
                },
            }
            proof {
                assert(all.take(done + 1) =~= all.take(done as int).push(all[done as int]));
                done = done + 1;
            }
        }
        proof {
            assert(all.skip(done as int).len() == 0);
            assert(all.take(done) =~= all);
        }
        Ok(())
    }

    /// The positions of the `top_k` best elements, best first, given the
    /// similarity score of each element to the query as the bit pattern of a
    /// 32-bit float. Equal scores keep insertion order.
    pub fn search(&self, scores: &Vec<u32>, top_k_count: usize) -> (r: Vec<usize>)
        requires
            self.wf(),
            scores@.len() == self.elements().len(),
        ensures
            is_top_k(score_keys(scores@), top_k_count as nat, r@),
    {
        let mut keys: Vec<Option<u32>> = Vec::new();
        let mut i: usize = 0;
        while i < scores.len()
            invariant
                i <= scores@.len(),
                keys@ =~= score_keys(scores@.subrange(0, i as int)),
            decreases scores@.len() - i,
        {
            keys.push(Some(order_key(scores[i])));
            i = i + 1;
        }
        proof {
            assert(scores@.subrange(0, scores@.len() as int) =~= scores@);
        }
        top_k(&keys, top_k_count)
    }
}

} // verus!
