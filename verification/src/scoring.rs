//! Relevance scores, merging of exact-match hits into full-text hits, and the
//! low-confidence signal of a search response.
//!
//! Scores are `f32` values in the index. Here a score is held as its *order key*:
//! the bits of the `f32`, mapped so that the order of the keys as unsigned integers
//! is the IEEE total order of the floats (`f32::total_cmp`). For the scores the index
//! produces (non-NaN), comparing keys is comparing scores.

use std::collections::HashMap;
use vstd::prelude::*;
use crate::sorting::{stable_sort, stable_sort_spec, Ordered};

verus! {

/// The order key of the `f32` whose bits are `bits`.
pub open spec fn score_key_spec(bits: u32) -> u32 {
    if bits & 0x8000_0000u32 != 0 {
        !bits
    } else {
        bits | 0x8000_0000u32
    }
}

/// The bits of the `f32` whose order key is `key`.
pub open spec fn score_bits_spec(key: u32) -> u32 {
    if key & 0x8000_0000u32 != 0 {
        key & 0x7fff_ffffu32
    } else {
        !key
    }
}

/// The order key of the `f32` whose bits (`f32::to_bits`) are `bits`.
pub fn score_key_from_bits(bits: u32) -> (key: u32)
    ensures
        key == score_key_spec(bits),
{
    if bits & 0x8000_0000u32 != 0 {
        !bits
    } else {
        bits | 0x8000_0000u32
    }
}

/// The bits (for `f32::from_bits`) of the score whose order key is `key`.
pub fn score_bits_from_key(key: u32) -> (bits: u32)
    ensures
        bits == score_bits_spec(key),
{
    if key & 0x8000_0000u32 != 0 {
        key & 0x7fff_ffffu32
    } else {
        !key
    }
}

/// Turning bits into an order key and back gives the bits again, and the other way
/// round: no score is lost or confused with another.
pub proof fn law_score_key_roundtrip(bits: u32, key: u32)
    ensures
        score_bits_spec(score_key_spec(bits)) == bits,
        score_key_spec(score_bits_spec(key)) == key,
{
    assert(score_bits_spec(score_key_spec(bits)) == bits) by (bit_vector);
    assert(score_key_spec(score_bits_spec(key)) == key) by (bit_vector);
}

/// Among non-negative scores (sign bit clear), a larger float has a larger order key.
pub proof fn law_score_key_monotone_nonnegative(a: u32, b: u32)
    requires
        a & 0x8000_0000u32 == 0,
        b & 0x8000_0000u32 == 0,
    ensures
        (a < b) <==> (score_key_spec(a) < score_key_spec(b)),
{
    assert(a & 0x8000_0000u32 == 0 && b & 0x8000_0000u32 == 0 ==> ((a < b) <==> ((a
        | 0x8000_0000u32) < (b | 0x8000_0000u32)))) by (bit_vector);
}

/// A full-text search hit: a chunk and the order key of its relevance score.
#[derive(Clone, Copy, Debug, PartialEq, Eq)]
pub struct FtsResult {
    pub chunk_id: u32,
    pub score: u32,
}

/// The largest of two scores.
pub open spec fn max_key(a: u32, b: u32) -> u32 {
    if a >= b {
        a
    } else {
        b
    }
}

/// The last index of `s` holding a hit for `id`, or -1.
pub open spec fn last_index_of(s: Seq<FtsResult>, id: u32) -> int
    decreases s.len(),
{
    if s.len() == 0 {
        -1
    } else if s.last().chunk_id == id {
        s.len() - 1
    } else {
        last_index_of(s.drop_last(), id)
    }
}

/// Merging one exact hit: raise the score of the (last) hit for the same chunk to the
/// larger of the two, or append the hit when its chunk is not there yet.
pub open spec fn merge_step(acc: Seq<FtsResult>, r: FtsResult) -> Seq<FtsResult> {
    let i = last_index_of(acc, r.chunk_id);
    if i >= 0 {
        acc.update(i, FtsResult { chunk_id: acc[i].chunk_id, score: max_key(acc[i].score, r.score) })
    } else {
        acc.push(r)
    }
}

/// Merging the exact hits one after another, in order.
pub open spec fn merge_spec(acc: Seq<FtsResult>, exact: Seq<FtsResult>) -> Seq<FtsResult>
    decreases exact.len(),
{
    if exact.len() == 0 {
        acc
    } else {
        merge_spec(merge_step(acc, exact[0]), exact.drop_first())
    }
}

proof fn lemma_last_index(s: Seq<FtsResult>, id: u32)
    ensures
        -1 <= last_index_of(s, id) < s.len(),
        last_index_of(s, id) >= 0 ==> s[last_index_of(s, id)].chunk_id == id,
        forall|j: int| last_index_of(s, id) < j < s.len() ==> s[j].chunk_id != id,
    decreases s.len(),
{
    if s.len() > 0 && s.last().chunk_id != id {
        lemma_last_index(s.drop_last(), id);
        assert forall|j: int| last_index_of(s, id) < j < s.len() implies s[j].chunk_id != id by {
            if j < s.len() - 1 {
                assert(s.drop_last()[j] == s[j]);
            }
        }
    }
}

/// `positions` maps each chunk with a hit in `s` to the index of its last hit.
pub open spec fn positions_of(positions: Map<u32, usize>, s: Seq<FtsResult>) -> bool {
    forall|id: u32|
        (#[trigger] positions.contains_key(id) <==> last_index_of(s, id) >= 0) && (
        positions.contains_key(id) ==> positions[id] == last_index_of(s, id))
}

proof fn lemma_last_index_push(s: Seq<FtsResult>, r: FtsResult, id: u32)
    ensures
        last_index_of(s.push(r), id) == if id == r.chunk_id {
            s.len() as int
        } else {
            last_index_of(s, id)
        },
{
    assert(s.push(r).drop_last() =~= s);
}

/// The index of the last hit of each chunk in `s`.
fn last_positions(s: &Vec<FtsResult>) -> (m: HashMap<u32, usize>)
    ensures
        positions_of(m@, s@),
{
    let mut m: HashMap<u32, usize> = HashMap::new();
    let mut i: usize = 0;
    assert(s@.take(0) =~= Seq::<FtsResult>::empty());
    while i < s.len()
        invariant
            0 <= i <= s@.len(),
            positions_of(m@, s@.take(i as int)),
        decreases s@.len() - i,
    {
        let id = s[i].chunk_id;
        m.insert(id, i);
        proof {
            assert(s@.take(i as int).push(s@[i as int]) =~= s@.take(i + 1));
            assert forall|x: u32|
                (#[trigger] m@.contains_key(x) <==> last_index_of(s@.take(i + 1), x) >= 0) && (
                m@.contains_key(x) ==> m@[x] == last_index_of(s@.take(i + 1), x)) by {
                lemma_last_index_push(s@.take(i as int), s@[i as int], x);
            }
        }
        i = i + 1;
    }
    assert(s@.take(s@.len() as int) =~= s@);
    m
}

/// Merge exact FTS results into the main result set, deduplicating by chunk_id
/// and keeping the max score for duplicates.
pub fn merge_exact_into_fts(fts_results: &mut Vec<FtsResult>, exact: Vec<FtsResult>)
    ensures
        final(fts_results)@ == merge_spec(old(fts_results)@, exact@),
{
    let mut positions = last_positions(fts_results);
    let mut i: usize = 0;
    assert(exact@.skip(0) =~= exact@);
    while i < exact.len()
        invariant
            0 <= i <= exact@.len(),
            merge_spec(old(fts_results)@, exact@) == merge_spec(
                fts_results@,
                exact@.skip(i as int),
            ),
            positions_of(positions@, fts_results@),
        decreases exact@.len() - i,
    {
        let r = exact[i];
        assert(exact@.skip(i as int).drop_first() =~= exact@.skip(i + 1));
        assert(exact@.skip(i as int)[0] == r);
        proof {
            lemma_last_index(fts_results@, r.chunk_id);
        }
        assert(positions@.contains_key(r.chunk_id) <==> last_index_of(fts_results@, r.chunk_id) >= 0);
        let found = match positions.get(&r.chunk_id) {
            Some(p) => Some(*p),
            None => None,
        };
        match found {
            Some(idx) => {
                let ghost before = fts_results@;
                let cur = fts_results[idx];
                let best = if cur.score >= r.score {
                    cur.score
                } else {
                    r.score
                };
                fts_results.set(idx, FtsResult { chunk_id: cur.chunk_id, score: best });
                proof {
                    assert forall|x: u32|
                        (#[trigger] positions@.contains_key(x) <==> last_index_of(fts_results@, x) >= 0)
                            && (positions@.contains_key(x) ==> positions@[x] == last_index_of(
                            fts_results@,
                            x,
                        )) by {
                        lemma_last_index_same_ids(before, fts_results@, x);
                    }
                }
            },
            None => {
                let ghost before = fts_results@;
                let at = fts_results.len();
                fts_results.push(r);
                positions.insert(r.chunk_id, at);
                proof {
                    assert forall|x: u32|
                        (#[trigger] positions@.contains_key(x) <==> last_index_of(fts_results@, x) >= 0)
                            && (positions@.contains_key(x) ==> positions@[x] == last_index_of(
                            fts_results@,
                            x,
                        )) by {
                        lemma_last_index_push(before, r, x);
                    }
                }
            },
        }
        i = i + 1;
    }
}

/// The chunk ids in `s` are pairwise distinct.
pub open spec fn distinct_ids(s: Seq<FtsResult>) -> bool {
    forall|a: int, b: int|
        0 <= a < s.len() && 0 <= b < s.len() && a != b ==> #[trigger] s[a].chunk_id
            != #[trigger] s[b].chunk_id
}

/// Some hit in `s` is for chunk `id`.
pub open spec fn has_id(s: Seq<FtsResult>, id: u32) -> bool {
    exists|j: int| 0 <= j < s.len() && #[trigger] s[j].chunk_id == id
}

/// The largest score among the hits in `s` for chunk `id` (0 when there is none).
pub open spec fn max_score_of(s: Seq<FtsResult>, id: u32) -> u32
    decreases s.len(),
{
    if s.len() == 0 {
        0
    } else if s.last().chunk_id == id {
        max_key(max_score_of(s.drop_last(), id), s.last().score)
    } else {
        max_score_of(s.drop_last(), id)
    }
}

/// What merging keeps: `acc` holds each chunk of `seen` once, at its best score in `seen`.
pub open spec fn merge_invariant(acc: Seq<FtsResult>, seen: Seq<FtsResult>) -> bool {
    &&& distinct_ids(acc)
    &&& forall|j: int| 0 <= j < acc.len() ==> #[trigger] acc[j].score == max_score_of(seen, acc[j].chunk_id)
    &&& forall|id: u32| has_id(acc, id) <==> has_id(seen, id)
}

proof fn lemma_max_score_absent(s: Seq<FtsResult>, id: u32)
    requires
        !has_id(s, id),
    ensures
        max_score_of(s, id) == 0,
    decreases s.len(),
{
    if s.len() > 0 {
        assert(s.last() == s[s.len() - 1]);
        assert(!has_id(s.drop_last(), id)) by {
            if has_id(s.drop_last(), id) {
                let j = choose|j: int| 0 <= j < s.drop_last().len() && #[trigger] s.drop_last()[j].chunk_id == id;
                assert(s[j].chunk_id == id);
            }
        }
        lemma_max_score_absent(s.drop_last(), id);
    }
}

proof fn lemma_max_score_push(s: Seq<FtsResult>, r: FtsResult, id: u32)
    ensures
        max_score_of(s.push(r), id) == if r.chunk_id == id {
            max_key(max_score_of(s, id), r.score)
        } else {
            max_score_of(s, id)
        },
{
    assert(s.push(r).drop_last() =~= s);
}

proof fn lemma_has_id_push(s: Seq<FtsResult>, r: FtsResult, id: u32)
    ensures
        has_id(s.push(r), id) <==> (has_id(s, id) || r.chunk_id == id),
{
    if has_id(s.push(r), id) {
        let j = choose|j: int| 0 <= j < s.push(r).len() && #[trigger] s.push(r)[j].chunk_id == id;
        if j < s.len() {
            assert(s[j].chunk_id == id);
        }
    }
    if has_id(s, id) {
        let j = choose|j: int| 0 <= j < s.len() && #[trigger] s[j].chunk_id == id;
        assert(s.push(r)[j].chunk_id == id);
    }
    if r.chunk_id == id {
        assert(s.push(r)[s.len() as int].chunk_id == id);
    }
}

proof fn lemma_merge_step_invariant(acc: Seq<FtsResult>, seen: Seq<FtsResult>, r: FtsResult)
    requires
        merge_invariant(acc, seen),
    ensures
        merge_invariant(merge_step(acc, r), seen.push(r)),
{
    lemma_last_index(acc, r.chunk_id);
    let i = last_index_of(acc, r.chunk_id);
    let next = merge_step(acc, r);
    let seen2 = seen.push(r);
    assert forall|id: u32| #[trigger] max_score_of(seen2, id) == (if r.chunk_id == id {
        max_key(max_score_of(seen, id), r.score)
    } else {
        max_score_of(seen, id)
    }) by {
        lemma_max_score_push(seen, r, id);
    }
    assert forall|id: u32| has_id(seen2, id) <==> (has_id(seen, id) || r.chunk_id == id) by {
        lemma_has_id_push(seen, r, id);
    }
    if i >= 0 {
        assert forall|j: int| 0 <= j < next.len() implies #[trigger] next[j].score == max_score_of(
            seen2,
            next[j].chunk_id,
        ) by {
            if j != i {
                assert(acc[j].chunk_id != r.chunk_id);
            }
        }
        assert forall|id: u32| has_id(next, id) <==> has_id(seen2, id) by {
            if has_id(next, id) {
                let j = choose|j: int| 0 <= j < next.len() && #[trigger] next[j].chunk_id == id;
                assert(acc[j].chunk_id == id);
            }
            if has_id(acc, id) {
                let j = choose|j: int| 0 <= j < acc.len() && #[trigger] acc[j].chunk_id == id;
                assert(next[j].chunk_id == id);
            }
            if r.chunk_id == id {
                assert(next[i].chunk_id == id);
            }
        }
    } else {
        assert(!has_id(acc, r.chunk_id)) by {
            if has_id(acc, r.chunk_id) {
                let j = choose|j: int| 0 <= j < acc.len() && #[trigger] acc[j].chunk_id == r.chunk_id;
            }
        }
        assert(!has_id(seen, r.chunk_id));
        lemma_max_score_absent(seen, r.chunk_id);
        assert forall|j: int| 0 <= j < next.len() implies #[trigger] next[j].score == max_score_of(
            seen2,
            next[j].chunk_id,
        ) by {
            if j < acc.len() {
                assert(next[j] == acc[j]);
                if acc[j].chunk_id == r.chunk_id {
                    assert(has_id(acc, r.chunk_id));
                }
            }
        }
        assert forall|a: int, b: int|
            0 <= a < next.len() && 0 <= b < next.len() && a != b implies #[trigger] next[a].chunk_id
            != #[trigger] next[b].chunk_id by {
            if a == acc.len() && b < acc.len() {
                assert(next[b] == acc[b]);
                if acc[b].chunk_id == r.chunk_id {
                    assert(has_id(acc, r.chunk_id));
                }
            }
            if b == acc.len() && a < acc.len() {
                assert(next[a] == acc[a]);
                if acc[a].chunk_id == r.chunk_id {
                    assert(has_id(acc, r.chunk_id));
                }
            }
        }
        assert forall|id: u32| has_id(next, id) <==> has_id(seen2, id) by {
            lemma_has_id_push(acc, r, id);
        }
    }
}

proof fn lemma_merge_invariant(acc: Seq<FtsResult>, seen: Seq<FtsResult>, rest: Seq<FtsResult>)
    requires
        merge_invariant(acc, seen),
    ensures
        merge_invariant(merge_spec(acc, rest), seen + rest),
    decreases rest.len(),
{
    if rest.len() == 0 {
        assert(seen + rest =~= seen);
    } else {
        lemma_merge_step_invariant(acc, seen, rest[0]);
        lemma_merge_invariant(merge_step(acc, rest[0]), seen.push(rest[0]), rest.drop_first());
        assert(seen.push(rest[0]) + rest.drop_first() =~= seen + rest);
    }
}

proof fn lemma_base_invariant(base: Seq<FtsResult>)
    requires
        distinct_ids(base),
    ensures
        merge_invariant(base, base),
    decreases base.len(),
{
    if base.len() > 0 {
        let init = base.drop_last();
        let r = base.last();
        assert(distinct_ids(init)) by {
            assert forall|a: int, b: int|
                0 <= a < init.len() && 0 <= b < init.len() && a != b implies #[trigger] init[a].chunk_id
                != #[trigger] init[b].chunk_id by {
                assert(init[a] == base[a] && init[b] == base[b]);
            }
        }
        lemma_base_invariant(init);
        assert(!has_id(init, r.chunk_id)) by {
            if has_id(init, r.chunk_id) {
                let j = choose|j: int| 0 <= j < init.len() && #[trigger] init[j].chunk_id == r.chunk_id;
                assert(base[j].chunk_id == base[base.len() - 1].chunk_id);
            }
        }
        lemma_max_score_absent(init, r.chunk_id);
        assert(init.push(r) =~= base);
        assert forall|j: int| 0 <= j < base.len() implies #[trigger] base[j].score == max_score_of(
            base,
            base[j].chunk_id,
        ) by {
            lemma_max_score_push(init, r, base[j].chunk_id);
            if j < init.len() {
                assert(init[j] == base[j]);
                assert(base[j].chunk_id != r.chunk_id);
            }
        }
    }
}

/// Merging no exact hits leaves the hits as they were.
pub proof fn law_merge_nothing(base: Seq<FtsResult>)
    ensures
        merge_spec(base, Seq::empty()) == base,
{
}

/// Merging keeps every hit already there in its place, for the same chunk, with a
/// score that can only rise; new chunks are appended after them.
pub proof fn law_merge_keeps_existing(base: Seq<FtsResult>, exact: Seq<FtsResult>)
    ensures
        merge_spec(base, exact).len() >= base.len(),
        forall|j: int|
            0 <= j < base.len() ==> (#[trigger] merge_spec(base, exact)[j]).chunk_id
                == base[j].chunk_id && merge_spec(base, exact)[j].score >= base[j].score,
    decreases exact.len(),
{
    if exact.len() > 0 {
        let next = merge_step(base, exact[0]);
        lemma_last_index(base, exact[0].chunk_id);
        law_merge_keeps_existing(next, exact.drop_first());
        assert forall|j: int| 0 <= j < base.len() implies next[j].chunk_id == base[j].chunk_id
            && next[j].score >= base[j].score by {}
    }
}

/// When the hits hold each chunk once, merging exact hits into them holds each chunk of
/// either list exactly once, at the best score that chunk has in either list.
pub proof fn law_merge_dedupes_with_max_score(base: Seq<FtsResult>, exact: Seq<FtsResult>)
    requires
        distinct_ids(base),
    ensures
        distinct_ids(merge_spec(base, exact)),
        forall|id: u32| has_id(merge_spec(base, exact), id) <==> has_id(base + exact, id),
        forall|j: int|
            0 <= j < merge_spec(base, exact).len() ==> (#[trigger] merge_spec(base, exact)[j]).score
                == max_score_of(base + exact, merge_spec(base, exact)[j].chunk_id),
{
    lemma_base_invariant(base);
    lemma_merge_invariant(base, base, exact);
}

/// Low-confidence signaling from the top result's score: `(low_confidence, suggested_tool)`,
/// both `None` when the top score reaches the threshold.
pub open spec fn low_confidence_spec(top_score: Option<u32>, has_identifiers: bool) -> (
    Option<bool>,
    Option<Seq<char>>,
) {
    match top_score {
        Some(score) => if score < LOW_CONFIDENCE_THRESHOLD {
            (
                Some(true),
                Some(
                    if has_identifiers {
                        "find_definition"@
                    } else {
                        "literal_search"@
                    },
                ),
            )
        } else {
            (None, None)
        },
        None => (Some(true), Some("literal_search"@)),
    }
}

/// Order key of the RRF score (0.02) below which results are considered low-confidence.
pub const LOW_CONFIDENCE_THRESHOLD: u32 = 0xbca3_d70au32;

/// Compute low-confidence signaling based on the top result's score.
///
/// Returns `(low_confidence, suggested_tool)` where both are `None` when
/// confidence is high (score >= threshold).
pub fn compute_low_confidence(top_score: Option<u32>, has_identifiers: bool) -> (r: (
    Option<bool>,
    Option<String>,
))
    ensures
        r.0 == low_confidence_spec(top_score, has_identifiers).0,
        match (r.1, low_confidence_spec(top_score, has_identifiers).1) {
            (Some(s), Some(t)) => s@ == t,
            (None, None) => true,
            _ => false,
        },
{
    match top_score {
        Some(score) => {
            if score < LOW_CONFIDENCE_THRESHOLD {
                let suggestion = if has_identifiers {
                    "find_definition"
                } else {
                    "literal_search"
                };
                (Some(true), Some(suggestion.to_owned()))
            } else {
                (None, None)
            }
        },
        None => (Some(true), Some("literal_search".to_owned())),
    }
}

/// Hits are shown best score first; hits with equal scores keep their order.
impl Ordered for FtsResult {
    open spec fn le_spec(a: FtsResult, b: FtsResult) -> bool {
        a.score >= b.score
    }

    proof fn lemma_le_total(a: FtsResult, b: FtsResult) {
    }

    proof fn lemma_le_transitive(a: FtsResult, b: FtsResult, c: FtsResult) {
    }

    fn le(&self, other: &FtsResult) -> (r: bool) {
        self.score >= other.score
    }
}

/// Sorts hits by descending score, stably (the order `sort_by` with the scores
/// compared in reverse gives).
pub fn sort_by_score_desc(hits: Vec<FtsResult>) -> (r: Vec<FtsResult>)
    ensures
        r@ == stable_sort_spec(hits@),
{
    stable_sort(hits)
}


/// Collecting exact hits across identifiers: each hit of `found` whose chunk is not
/// yet collected is appended, in order; the others are dropped.
pub open spec fn add_unseen_spec(acc: Seq<FtsResult>, found: Seq<FtsResult>) -> Seq<FtsResult>
    decreases found.len(),
{
    if found.len() == 0 {
        acc
    } else {
        let prev = add_unseen_spec(acc, found.drop_last());
        if has_id(prev, found.last().chunk_id) {
            prev
        } else {
            prev.push(found.last())
        }
    }
}

/// Adds to `all_exact` the exact hits of one identifier whose chunk is not collected
/// yet, in order.
pub fn add_unseen_hits(all_exact: &mut Vec<FtsResult>, found: &Vec<FtsResult>)
    ensures
        final(all_exact)@ == add_unseen_spec(old(all_exact)@, found@),
{
    let ghost start = all_exact@;
    let mut i: usize = 0;
    while i < found.len()
        invariant
            0 <= i <= found@.len(),
            all_exact@ == add_unseen_spec(start, found@.take(i as int)),
        decreases found@.len() - i,
    {
        let r = found[i];
        assert(found@.take(i + 1).drop_last() =~= found@.take(i as int));
        assert(found@.take(i + 1).last() == found@[i as int]);
        let mut seen = false;
        let mut k: usize = 0;
        while k < all_exact.len()
            invariant
                0 <= k <= all_exact@.len(),
                seen == exists|j: int| 0 <= j < k && #[trigger] all_exact@[j].chunk_id == r.chunk_id,
            decreases all_exact@.len() - k,
        {
            if all_exact[k].chunk_id == r.chunk_id {
                seen = true;
            }
            k = k + 1;
        }
        if !seen {
            all_exact.push(r);
        }
        i = i + 1;
    }
    assert(found@.take(found@.len() as int) =~= found@);
}

/// Collecting keeps what was collected, adds only hits of `found`, and never holds a
/// chunk twice: from a collection without repeats, every chunk of either list ends
/// up collected exactly once.
pub proof fn law_add_unseen_distinct(acc: Seq<FtsResult>, found: Seq<FtsResult>)
    requires
        distinct_ids(acc),
    ensures
        distinct_ids(add_unseen_spec(acc, found)),
        add_unseen_spec(acc, found).len() >= acc.len(),
        add_unseen_spec(acc, found).take(acc.len() as int) == acc,
        forall|id: u32| has_id(add_unseen_spec(acc, found), id) <==> has_id(acc + found, id),
    decreases found.len(),
{
    if found.len() > 0 {
        law_add_unseen_distinct(acc, found.drop_last());
        let prev = add_unseen_spec(acc, found.drop_last());
        let r = found.last();
        let cur = add_unseen_spec(acc, found);
        assert(acc + found.drop_last() =~= (acc + found).drop_last());
        assert forall|id: u32| has_id(cur, id) <==> has_id(acc + found, id) by {
            let all = acc + found;
            if has_id(all, id) {
                let j = choose|j: int| 0 <= j < all.len() && #[trigger] all[j].chunk_id == id;
                if j < all.len() - 1 {
                    assert(all.drop_last()[j].chunk_id == id);
                    assert(has_id(prev, id));
                    let m = choose|m: int| 0 <= m < prev.len() && #[trigger] prev[m].chunk_id == id;
                    if !has_id(prev, r.chunk_id) {
                        assert(cur[m].chunk_id == id);
                    }
                } else {
                    assert(all[j] == r);
                    if !has_id(prev, r.chunk_id) {
                        assert(cur[prev.len() as int].chunk_id == id);
                    }
                }
            }
            if has_id(cur, id) {
                let j = choose|j: int| 0 <= j < cur.len() && #[trigger] cur[j].chunk_id == id;
                if j < prev.len() {
                    assert(prev[j].chunk_id == id);
                    assert(has_id(acc + found.drop_last(), id));
                    let m = choose|m: int|
                        0 <= m < (acc + found.drop_last()).len() && #[trigger] (acc
                            + found.drop_last())[m].chunk_id == id;
                    assert(all[m].chunk_id == id);
                } else {
                    assert(cur[j] == r);
                    assert(all[all.len() - 1].chunk_id == id);
                }
            }
        }
        if !has_id(prev, r.chunk_id) {
            assert forall|a: int, b: int|
                0 <= a < cur.len() && 0 <= b < cur.len() && a != b implies #[trigger] cur[a].chunk_id
                != #[trigger] cur[b].chunk_id by {
                if a == prev.len() {
                    assert(prev[b].chunk_id != r.chunk_id);
                } else if b == prev.len() {
                    assert(prev[a].chunk_id != r.chunk_id);
                } else {
                    assert(prev[a].chunk_id != prev[b].chunk_id);
                }
            }
            assert(cur.take(acc.len() as int) =~= prev.take(acc.len() as int)) by {
                assert forall|k: int| 0 <= k < acc.len() implies cur[k] == prev[k] by {}
            }
        }
    } else {
        assert(acc + found =~= acc);
        assert(acc.take(acc.len() as int) =~= acc);
    }
}


/// The exact hits of all identifiers, each list added in turn, each chunk once.
pub open spec fn collected_exact_spec(lists: Seq<Vec<FtsResult>>) -> Seq<FtsResult>
    decreases lists.len(),
{
    if lists.len() == 0 {
        seq![]
    } else {
        add_unseen_spec(collected_exact_spec(lists.drop_last()), lists.last()@)
    }
}

/// The exact hits of all identifiers for hybrid search: the hit lists in turn, each
/// chunk kept once, at its first hit.
pub fn collect_exact_hits(lists: &Vec<Vec<FtsResult>>) -> (r: Vec<FtsResult>)
    ensures
        r@ == collected_exact_spec(lists@),
{
    let mut all: Vec<FtsResult> = Vec::new();
    let mut i: usize = 0;
    while i < lists.len()
        invariant
            0 <= i <= lists@.len(),
            all@ == collected_exact_spec(lists@.take(i as int)),
        decreases lists@.len() - i,
    {
        assert(lists@.take(i + 1).drop_last() =~= lists@.take(i as int));
        assert(lists@.take(i + 1).last() == lists@[i as int]);
        add_unseen_hits(&mut all, &lists[i]);
        i = i + 1;
    }
    assert(lists@.take(lists@.len() as int) =~= lists@);
    all
}

/// The full-text hits with each identifier's exact hits merged in, in turn.
pub open spec fn merged_all_spec(fts: Seq<FtsResult>, lists: Seq<Vec<FtsResult>>) -> Seq<FtsResult>
    decreases lists.len(),
{
    if lists.len() == 0 {
        fts
    } else {
        merge_spec(merged_all_spec(fts, lists.drop_last()), lists.last()@)
    }
}

/// The ranking of lexical search: the full-text hits with each identifier's exact hits
/// merged in (one chunk once, at its best score), best score first, ties in order.
pub fn lexical_ranking(fts: Vec<FtsResult>, exact_lists: Vec<Vec<FtsResult>>) -> (r: Vec<FtsResult>)
    ensures
        r@ == stable_sort_spec(merged_all_spec(fts@, exact_lists@)),
{
    let mut hits = fts;
    let ghost start = hits@;
    let mut i: usize = 0;
    let ghost lists = exact_lists@;
    let mut rest = crate::sorting::reversed(exact_lists);
    let n = rest.len();
    while rest.len() > 0
        invariant
            i + rest@.len() == lists.len(),
            lists.len() <= usize::MAX,
            forall|k: int| 0 <= k < rest@.len() ==> #[trigger] rest@[k] == lists[lists.len() - 1 - k],
            hits@ == merged_all_spec(start, lists.take(i as int)),
        decreases rest@.len(),
    {
        let exact = rest.pop().unwrap();
        assert(exact == lists[i as int]);
        assert(lists.take(i + 1).drop_last() =~= lists.take(i as int));
        assert(lists.take(i + 1).last() == lists[i as int]);
        merge_exact_into_fts(&mut hits, exact);
        i = i + 1;
    }
    assert(lists.take(i as int) =~= lists);
    sort_by_score_desc(hits)
}


/// The exact hits collected across identifiers hold each chunk once, and hold exactly
/// the chunks that some identifier's hits name.
pub proof fn law_collected_exact_distinct(lists: Seq<Vec<FtsResult>>)
    ensures
        distinct_ids(collected_exact_spec(lists)),
        forall|id: u32|
            has_id(collected_exact_spec(lists), id) <==> exists|k: int|
                0 <= k < lists.len() && has_id(#[trigger] lists[k]@, id),
    decreases lists.len(),
{
    if lists.len() > 0 {
        let prev = lists.drop_last();
        law_collected_exact_distinct(prev);
        let acc = collected_exact_spec(prev);
        let found = lists.last()@;
        law_add_unseen_distinct(acc, found);
        assert forall|id: u32|
            has_id(collected_exact_spec(lists), id) <==> exists|k: int|
                0 <= k < lists.len() && has_id(#[trigger] lists[k]@, id) by {
            lemma_has_id_concat(acc, found, id);
            if exists|k: int| 0 <= k < lists.len() && has_id(#[trigger] lists[k]@, id) {
                let k = choose|k: int| 0 <= k < lists.len() && has_id(#[trigger] lists[k]@, id);
                if k < lists.len() - 1 {
                    assert(prev[k] == lists[k]);
                    assert(has_id(acc, id));
                }
            }
            if has_id(acc, id) {
                let k = choose|k: int| 0 <= k < prev.len() && has_id(#[trigger] prev[k]@, id);
                assert(lists[k] == prev[k]);
            }
        }
    } else {
        assert forall|a: int, b: int|
            0 <= a < collected_exact_spec(lists).len() && 0 <= b < collected_exact_spec(lists).len()
                && a != b implies #[trigger] collected_exact_spec(lists)[a].chunk_id
            != #[trigger] collected_exact_spec(lists)[b].chunk_id by {}
    }
}

proof fn lemma_has_id_concat(a: Seq<FtsResult>, b: Seq<FtsResult>, id: u32)
    ensures
        has_id(a + b, id) <==> has_id(a, id) || has_id(b, id),
{
    if has_id(a + b, id) {
        let j = choose|j: int| 0 <= j < (a + b).len() && #[trigger] (a + b)[j].chunk_id == id;
        if j < a.len() {
            assert(a[j].chunk_id == id);
        } else {
            assert(b[j - a.len()].chunk_id == id);
        }
    }
    if has_id(a, id) {
        let j = choose|j: int| 0 <= j < a.len() && #[trigger] a[j].chunk_id == id;
        assert((a + b)[j].chunk_id == id);
    }
    if has_id(b, id) {
        let j = choose|j: int| 0 <= j < b.len() && #[trigger] b[j].chunk_id == id;
        assert((a + b)[a.len() + j].chunk_id == id);
    }
}


/// The hits in `acc` cover `r`: the last hit for `r`'s chunk has at least `r`'s score.
pub open spec fn covers(acc: Seq<FtsResult>, r: FtsResult) -> bool {
    last_index_of(acc, r.chunk_id) >= 0 && acc[last_index_of(acc, r.chunk_id)].score >= r.score
}

proof fn lemma_last_index_same_ids(a: Seq<FtsResult>, b: Seq<FtsResult>, id: u32)
    requires
        a.len() == b.len(),
        forall|k: int| 0 <= k < a.len() ==> a[k].chunk_id == b[k].chunk_id,
    ensures
        last_index_of(a, id) == last_index_of(b, id),
    decreases a.len(),
{
    if a.len() > 0 {
        lemma_last_index_same_ids(a.drop_last(), b.drop_last(), id);
    }
}

proof fn lemma_step_keeps_cover(acc: Seq<FtsResult>, r: FtsResult, x: FtsResult)
    requires
        covers(acc, x),
    ensures
        covers(merge_step(acc, r), x),
{
    lemma_last_index(acc, r.chunk_id);
    lemma_last_index(acc, x.chunk_id);
    let i = last_index_of(acc, r.chunk_id);
    let next = merge_step(acc, r);
    if i >= 0 {
        lemma_last_index_same_ids(acc, next, x.chunk_id);
    } else {
        assert(x.chunk_id != r.chunk_id);
        assert(next.drop_last() =~= acc);
    }
}

proof fn lemma_merge_keeps_cover(acc: Seq<FtsResult>, exact: Seq<FtsResult>, x: FtsResult)
    requires
        covers(acc, x),
    ensures
        covers(merge_spec(acc, exact), x),
    decreases exact.len(),
{
    if exact.len() > 0 {
        lemma_step_keeps_cover(acc, exact[0], x);
        lemma_merge_keeps_cover(merge_step(acc, exact[0]), exact.drop_first(), x);
    }
}

proof fn lemma_step_covers(acc: Seq<FtsResult>, r: FtsResult)
    ensures
        covers(merge_step(acc, r), r),
{
    lemma_last_index(acc, r.chunk_id);
    let i = last_index_of(acc, r.chunk_id);
    let next = merge_step(acc, r);
    if i >= 0 {
        lemma_last_index_same_ids(acc, next, r.chunk_id);
    }
}

proof fn lemma_merge_covers_all(acc: Seq<FtsResult>, exact: Seq<FtsResult>)
    ensures
        forall|k: int| 0 <= k < exact.len() ==> covers(merge_spec(acc, exact), #[trigger] exact[k]),
    decreases exact.len(),
{
    if exact.len() > 0 {
        let next = merge_step(acc, exact[0]);
        let rest = exact.drop_first();
        lemma_merge_covers_all(next, rest);
        lemma_step_covers(acc, exact[0]);
        lemma_merge_keeps_cover(next, rest, exact[0]);
        assert forall|k: int| 0 <= k < exact.len() implies covers(
            merge_spec(acc, exact),
            #[trigger] exact[k],
        ) by {
            if k > 0 {
                assert(exact[k] == rest[k - 1]);
            }
        }
    }
}

proof fn lemma_merge_covered_unchanged(acc: Seq<FtsResult>, exact: Seq<FtsResult>)
    requires
        forall|k: int| 0 <= k < exact.len() ==> covers(acc, #[trigger] exact[k]),
    ensures
        merge_spec(acc, exact) == acc,
    decreases exact.len(),
{
    if exact.len() > 0 {
        let r = exact[0];
        assert(covers(acc, r));
        lemma_last_index(acc, r.chunk_id);
        let i = last_index_of(acc, r.chunk_id);
        assert(merge_step(acc, r) =~= acc);
        let rest = exact.drop_first();
        assert forall|k: int| 0 <= k < rest.len() implies covers(acc, #[trigger] rest[k]) by {
            assert(rest[k] == exact[k + 1]);
        }
        lemma_merge_covered_unchanged(acc, rest);
    }
}

/// Merging the same exact hits a second time changes nothing: after the first merge,
/// the hit for each of their chunks already has the best score among them.
pub proof fn law_merge_idempotent(base: Seq<FtsResult>, exact: Seq<FtsResult>)
    ensures
        merge_spec(merge_spec(base, exact), exact) == merge_spec(base, exact),
{
    lemma_merge_covers_all(base, exact);
    lemma_merge_covered_unchanged(merge_spec(base, exact), exact);
}

} // verus!
