//! Deterministic top-k ranking of scored corpus entries.
//!
//! A score is carried as the bit pattern of a 32-bit float and compared
//! through [`score_key`], which orders bit patterns as the floats they encode
//! (negative and positive zero share one key, as they compare equal). An entry without a score (no
//! embedding) is never ranked.

use vstd::prelude::*;
use vstd::set_lib::{lemma_int_range, lemma_len_subset, set_int_range};

verus! {

/// The order key of a 32-bit float bit pattern: keys compare as the encoded
/// floats do. Negative zero takes the key of positive zero; any other pattern
/// with the sign bit set maps below every pattern without it, the larger
/// magnitude lower.
pub open spec fn score_key(bits: u32) -> u32 {
    if bits == 0x8000_0000 {
        0x8000_0000u32
    } else if bits > 0x8000_0000 {
        (0xFFFF_FFFFu32 - bits) as u32
    } else {
        (bits + 0x8000_0000u32) as u32
    }
}

/// The order key of a float bit pattern (see [`score_key`]).
pub fn order_key(bits: u32) -> (r: u32)
    ensures
        r == score_key(bits),
{
    if bits == 0x8000_0000 {
        0x8000_0000u32
    } else if bits > 0x8000_0000 {
        0xFFFF_FFFFu32 - bits
    } else {
        bits + 0x8000_0000u32
    }
}

/// Entry `i` has a key and so takes part in ranking.
pub open spec fn scored(keys: Seq<Option<u32>>, i: int) -> bool {
    0 <= i < keys.len() && keys[i] is Some
}

/// Entry `a` comes before entry `b`: a higher key, or an equal key and an
/// earlier position.
pub open spec fn ranks_before(keys: Seq<Option<u32>>, a: int, b: int) -> bool {
    keys[a]->0 > keys[b]->0 || (keys[a]->0 == keys[b]->0 && a < b)
}

/// Position `c` occurs in `r`.
pub open spec fn listed(r: Seq<usize>, c: int) -> bool {
    exists|j: int| 0 <= j < r.len() && r[j] as int == c
}

/// `r` is the top-`k` ranking of `keys`: at most `k` scored positions, in
/// ranking order; every scored position left out comes after all of them;
/// and when fewer than `k` are listed, none is left out.
pub open spec fn is_top_k(keys: Seq<Option<u32>>, k: nat, r: Seq<usize>) -> bool {
    &&& r.len() <= k
    &&& forall|i: int| 0 <= i < r.len() ==> scored(keys, #[trigger] r[i] as int)
    &&& forall|i: int, j: int|
        0 <= i < j < r.len() ==> ranks_before(keys, #[trigger] r[i] as int, #[trigger] r[j] as int)
    &&& forall|i: int, c: int|
        #![trigger r[i], scored(keys, c)]
        0 <= i < r.len() && scored(keys, c) && !listed(r, c) ==> ranks_before(keys, r[i] as int, c)
    &&& r.len() < k ==> forall|c: int| scored(keys, c) ==> #[trigger] listed(r, c)
}

/// The positions of the `k` best-scored entries of `keys`, best first; equal
/// keys keep their order of position. Entries without a key are skipped.
pub fn top_k(keys: &Vec<Option<u32>>, k: usize) -> (r: Vec<usize>)
    ensures
        is_top_k(keys@, k as nat, r@),
{
    let n = keys.len();
    let mut taken: Vec<bool> = Vec::new();
    while taken.len() < n
        invariant
            taken@.len() <= n,
            forall|c: int| 0 <= c < taken@.len() ==> !#[trigger] taken@[c],
        decreases n - taken@.len(),
    {
        taken.push(false);
    }
    let mut out: Vec<usize> = Vec::new();
    while out.len() < k
        invariant
            n == keys@.len(),
            taken@.len() == n,
            forall|c: int| 0 <= c < n ==> (#[trigger] taken@[c] <==> listed(out@, c)),
            out@.len() <= k,
            forall|i: int| 0 <= i < out@.len() ==> scored(keys@, #[trigger] out@[i] as int),
            forall|i: int, j: int|
                0 <= i < j < out@.len() ==> ranks_before(
                    keys@,
                    #[trigger] out@[i] as int,
                    #[trigger] out@[j] as int,
                ),
            forall|i: int, c: int|
                #![trigger out@[i], scored(keys@, c)]
                0 <= i < out@.len() && scored(keys@, c) && !listed(out@, c) ==> ranks_before(
                    keys@,
                    out@[i] as int,
                    c,
                ),
        ensures
            out@.len() < k ==> forall|c: int| scored(keys@, c) ==> #[trigger] taken@[c],
        decreases k - out@.len(),
    {
        let mut best: Option<usize> = None;
        let mut j: usize = 0;
        while j < n
            invariant
                n == keys@.len(),
                taken@.len() == n,
                j <= n,
                match best {
                    Some(b) => {
                        &&& b < j
                        &&& scored(keys@, b as int)
                        &&& !taken@[b as int]
                        &&& forall|c: int|
                            0 <= c < j && c != b && scored(keys@, c) && !taken@[c] ==> ranks_before(
                                keys@,
                                b as int,
                                c,
                            )
                    },
                    None => forall|c: int| 0 <= c < j && scored(keys@, c) ==> #[trigger] taken@[c],
                },
            decreases n - j,
        {
            if !taken[j] {
                match keys[j] {
                    Some(kj) => {
                        match best {
                            None => {
                                best = Some(j);
                            },
                            Some(b) => {
                                match keys[b] {
                                    Some(kb) => {
                                        if kj > kb {
                                            best = Some(j);
                                        }
                                    },
                                    None => {},
                                }
                            },
                        }
                    },
                    None => {},
                }
            }
            j = j + 1;
        }
        match best {
            None => {
                break;
            },
            Some(b) => {
                let ghost prev = out@;
                out.push(b);
                taken.set(b, true);
                proof {
                    assert(out@[prev.len() as int] == b);
                    assert forall|c: int| 0 <= c < n implies (#[trigger] taken@[c] <==> listed(out@, c)) by {
                        if listed(prev, c) {
                            let w = choose|w: int| 0 <= w < prev.len() && prev[w] as int == c;
                            assert(out@[w] == prev[w]);
                        }
                        if listed(out@, c) && c != b {
                            let w = choose|w: int| 0 <= w < out@.len() && out@[w] as int == c;
                            assert(w < prev.len());
                            assert(prev[w] == out@[w]);
                        }
                    }
                    assert forall|i: int, c: int|
                        #![trigger out@[i], scored(keys@, c)]
                        0 <= i < out@.len() && scored(keys@, c) && !listed(out@, c) implies ranks_before(
                        keys@,
                        out@[i] as int,
                        c,
                    ) by {
                        assert(!taken@[c]);
                        if i < prev.len() {
                            assert(out@[i] == prev[i]);
                            if listed(prev, c) {
                                let w = choose|w: int| 0 <= w < prev.len() && prev[w] as int == c;
                                assert(out@[w] == prev[w]);
                            }
                        }
                    }
                    assert forall|i: int, j: int| 0 <= i < j < out@.len() implies ranks_before(
                        keys@,
                        #[trigger] out@[i] as int,
                        #[trigger] out@[j] as int,
                    ) by {
                        assert(out@[i] == prev[i]);
                        if j < prev.len() {
                            assert(out@[j] == prev[j]);
                        } else {
                            assert(!listed(prev, b as int));
                        }
                    }
                }
            },
        }
    }
    proof {
        if out@.len() < k {
            assert forall|c: int| scored(keys@, c) implies #[trigger] listed(out@, c) by {
                assert(taken@[c]);
            }
        }
    }
    out
}

/// The scored positions of `keys`.
pub open spec fn scored_set(keys: Seq<Option<u32>>) -> Set<int> {
    Set::new(|i: int| scored(keys, i))
}

/// The positions listed in `r`, as integers.
pub open spec fn positions(r: Seq<usize>) -> Seq<int> {
    r.map_values(|x: usize| x as int)
}

/// Two top-`k` rankings of the same keys agree on their first `m` entries.
proof fn lemma_top_k_agree(keys: Seq<Option<u32>>, k: nat, r1: Seq<usize>, r2: Seq<usize>, m: int)
    requires
        is_top_k(keys, k, r1),
        is_top_k(keys, k, r2),
        0 <= m <= r1.len(),
        m <= r2.len(),
    ensures
        forall|i: int| 0 <= i < m ==> r1[i] == r2[i],
    decreases m,
{
    if m > 0 {
        lemma_top_k_agree(keys, k, r1, r2, m - 1);
        let i = m - 1;
        let x = r1[i] as int;
        let y = r2[i] as int;
        if x != y {
            assert(ranks_before(keys, y, x)) by {
                if listed(r2, x) {
                    let w = choose|w: int| 0 <= w < r2.len() && r2[w] as int == x;
                    if w < i {
                        assert(r1[w] == r2[w]);
                        assert(ranks_before(keys, r1[w] as int, r1[i] as int));
                    }
                    assert(w > i);
                    assert(ranks_before(keys, r2[i] as int, r2[w] as int));
                } else {
                    assert(scored(keys, r1[i] as int));
                }
            }
            assert(ranks_before(keys, x, y)) by {
                if listed(r1, y) {
                    let w = choose|w: int| 0 <= w < r1.len() && r1[w] as int == y;
                    if w < i {
                        assert(r1[w] == r2[w]);
                        assert(ranks_before(keys, r2[w] as int, r2[i] as int));
                    }
                    assert(w > i);
                    assert(ranks_before(keys, r1[i] as int, r1[w] as int));
                } else {
                    assert(scored(keys, r2[i] as int));
                }
            }
        }
    }
}

/// Ranking is deterministic: the top-`k` ranking of a set of keys is unique,
/// so equal keys and an equal `k` give an identical ranked order.
pub proof fn lemma_top_k_unique(keys: Seq<Option<u32>>, k: nat, r1: Seq<usize>, r2: Seq<usize>)
    requires
        is_top_k(keys, k, r1),
        is_top_k(keys, k, r2),
    ensures
        r1 == r2,
{
    if r1.len() < r2.len() {
        lemma_top_k_agree(keys, k, r1, r2, r1.len() as int);
        let y = r2[r1.len() as int] as int;
        assert(scored(keys, y));
        assert(listed(r1, y));
        let w = choose|w: int| 0 <= w < r1.len() && r1[w] as int == y;
        assert(r1[w] == r2[w]);
        assert(ranks_before(keys, r2[w] as int, r2[r1.len() as int] as int));
    } else if r2.len() < r1.len() {
        lemma_top_k_agree(keys, k, r1, r2, r2.len() as int);
        let y = r1[r2.len() as int] as int;
        assert(scored(keys, y));
        assert(listed(r2, y));
        let w = choose|w: int| 0 <= w < r2.len() && r2[w] as int == y;
        assert(r1[w] == r2[w]);
        assert(ranks_before(keys, r1[w] as int, r1[r2.len() as int] as int));
    } else {
        lemma_top_k_agree(keys, k, r1, r2, r1.len() as int);
        assert(r1 =~= r2);
    }
}

/// A top-`k` ranking lists `min(k, n)` positions, where `n` is the number of
/// scored entries.
pub proof fn lemma_top_k_len(keys: Seq<Option<u32>>, k: nat, r: Seq<usize>)
    requires
        is_top_k(keys, k, r),
    ensures
        scored_set(keys).finite(),
        r.len() == if k < scored_set(keys).len() {
            k
        } else {
            scored_set(keys).len()
        },
{
    let all = scored_set(keys);
    lemma_int_range(0, keys.len() as int);
    assert(all.subset_of(set_int_range(0, keys.len() as int)));
    lemma_len_subset(all, set_int_range(0, keys.len() as int));
    let p = positions(r);
    assert(p.no_duplicates()) by {
        assert forall|i: int, j: int| 0 <= i < p.len() && 0 <= j < p.len() && i != j implies p[i]
            != p[j] by {
            if i < j {
                assert(ranks_before(keys, r[i] as int, r[j] as int));
            } else {
                assert(ranks_before(keys, r[j] as int, r[i] as int));
            }
        }
    }
    p.unique_seq_to_set();
    assert(p.to_set().subset_of(all)) by {
        assert forall|c: int| p.to_set().contains(c) implies all.contains(c) by {
            let w = choose|w: int| 0 <= w < p.len() && p[w] == c;
            assert(scored(keys, r[w] as int));
        }
    }
    lemma_len_subset(p.to_set(), all);
    if r.len() < k {
        assert(all.subset_of(p.to_set())) by {
            assert forall|c: int| all.contains(c) implies p.to_set().contains(c) by {
                assert(listed(r, c));
                let w = choose|w: int| 0 <= w < r.len() && r[w] as int == c;
                assert(p[w] == c);
            }
        }
        assert(all =~= p.to_set());
    }
}

/// A top-`k` ranking that lists as many positions as there are scored
/// entries lists every scored entry.
proof fn lemma_top_k_complete(keys: Seq<Option<u32>>, k: nat, r: Seq<usize>)
    requires
        is_top_k(keys, k, r),
        scored_set(keys).finite(),
        r.len() == scored_set(keys).len(),
    ensures
        forall|c: int| scored(keys, c) ==> #[trigger] listed(r, c),
{
    let all = scored_set(keys);
    let p = positions(r);
    assert(p.no_duplicates()) by {
        assert forall|i: int, j: int| 0 <= i < p.len() && 0 <= j < p.len() && i != j implies p[i]
            != p[j] by {
            if i < j {
                assert(ranks_before(keys, r[i] as int, r[j] as int));
            } else {
                assert(ranks_before(keys, r[j] as int, r[i] as int));
            }
        }
    }
    p.unique_seq_to_set();
    assert(p.to_set().subset_of(all)) by {
        assert forall|c: int| p.to_set().contains(c) implies all.contains(c) by {
            let w = choose|w: int| 0 <= w < p.len() && p[w] == c;
            assert(scored(keys, r[w] as int));
        }
    }
    assert forall|c: int| scored(keys, c) implies #[trigger] listed(r, c) by {
        if !listed(r, c) {
            if p.to_set().contains(c) {
                let w = choose|w: int| 0 <= w < p.len() && p[w] == c;
                assert(r[w] as int == c);
            }
            p.to_set().lemma_subset_not_in_lt(all, c);
        }
    }
}

/// The top-`k` ranking is a prefix of the ranking of the whole corpus.
pub proof fn lemma_top_k_prefix(keys: Seq<Option<u32>>, k: nat, r: Seq<usize>, full: Seq<usize>)
    requires
        is_top_k(keys, k, r),
        is_top_k(keys, keys.len(), full),
    ensures
        r.len() <= full.len(),
        r == full.subrange(0, r.len() as int),
{
    let m: int = if k < full.len() {
        k as int
    } else {
        full.len() as int
    };
    let p = full.subrange(0, m);
    lemma_top_k_len(keys, keys.len(), full);
    lemma_int_range(0, keys.len() as int);
    assert(scored_set(keys).subset_of(set_int_range(0, keys.len() as int)));
    lemma_len_subset(scored_set(keys), set_int_range(0, keys.len() as int));
    if full.len() == keys.len() {
        lemma_top_k_complete(keys, keys.len(), full);
    }
    assert forall|c: int| scored(keys, c) && !listed(p, c) && listed(full, c) implies forall|i: int|
        0 <= i < p.len() ==> ranks_before(keys, #[trigger] p[i] as int, c) by {
        let w = choose|w: int| 0 <= w < full.len() && full[w] as int == c;
        if w < m {
            assert(p[w] == full[w]);
        }
        assert forall|i: int| 0 <= i < p.len() implies ranks_before(keys, #[trigger] p[i] as int, c) by {
            assert(p[i] == full[i]);
            assert(ranks_before(keys, full[i] as int, full[w] as int));
        }
    }
    assert forall|c: int| scored(keys, c) && listed(p, c) implies listed(full, c) by {
        let w = choose|w: int| 0 <= w < p.len() && p[w] as int == c;
        assert(full[w] == p[w]);
    }
    assert forall|c: int| scored(keys, c) && listed(full, c) && p.len() < k implies listed(p, c) by {
        let w = choose|w: int| 0 <= w < full.len() && full[w] as int == c;
        assert(p[w] == full[w]);
    }
    assert(is_top_k(keys, k, p)) by {
        assert forall|i: int, c: int|
            #![trigger p[i], scored(keys, c)]
            0 <= i < p.len() && scored(keys, c) && !listed(p, c) implies ranks_before(
            keys,
            p[i] as int,
            c,
        ) by {
            assert(p[i] == full[i]);
        }
    }
    lemma_top_k_unique(keys, k, r, p);
}

} // verus!
