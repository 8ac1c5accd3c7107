//! Which identifiers have their segments in chronological order.

use std::collections::{HashMap, HashSet};

use vstd::prelude::*;

use crate::spk::{SPKSummaryRecord, SummaryBlock};
use crate::NaifId;

verus! {

broadcast use vstd::std_specs::hash::group_hash_axioms;

/// Whether the summary at position `k` of block `b` belongs to `id` and comes before position `l`
/// of block `c` in the file.
pub open spec fn is_before(
    blocks: Seq<SummaryBlock>,
    id: NaifId,
    b: int,
    k: int,
    c: int,
    l: int,
) -> bool {
    &&& 0 <= b < blocks.len()
    &&& 0 <= k < blocks[b].records().len()
    &&& blocks[b].records()[k].target_id == id
    &&& b < c || (b == c && k < l)
}

/// Whether no segment of `id` before position `l` of block `c` starts before the end of an earlier
/// one.
pub open spec fn is_ordered_before(blocks: Seq<SummaryBlock>, id: NaifId, c: int, l: int) -> bool {
    forall|b: int, k: int, d: int, m: int|
        #![trigger is_before(blocks, id, b, k, d, m), is_before(blocks, id, d, m, c, l)]
        is_before(blocks, id, b, k, d, m) && is_before(blocks, id, d, m, c, l)
            ==> blocks[b].records()[k].end_epoch.ns() <= blocks[d].records()[m].start_epoch.ns()
}

/// Whether the file has segments of `id`, and none starts before the end of an earlier one.
pub open spec fn is_chronological(blocks: Seq<SummaryBlock>, id: NaifId) -> bool {
    &&& exists|b: int, k: int| #[trigger] is_before(blocks, id, b, k, blocks.len() as int, 0)
    &&& is_ordered_before(blocks, id, blocks.len() as int, 0)
}

/// What is known once all segments before position `l` of block `c` have been seen: the latest end
/// for each identifier, and the identifiers that are in order so far.
spec fn is_known_before(
    blocks: Seq<SummaryBlock>,
    c: int,
    l: int,
    latest: Map<NaifId, i128>,
    ordered: Set<NaifId>,
) -> bool {
    &&& forall|id: NaifId, b: int, k: int| #[trigger]
        is_before(blocks, id, b, k, c, l) ==> latest.contains_key(id)
            && blocks[b].records()[k].end_epoch.ns() <= latest[id]
    &&& forall|id: NaifId| #[trigger]
        latest.contains_key(id) ==> exists|b: int, k: int| #[trigger]
            is_before(blocks, id, b, k, c, l) && blocks[b].records()[k].end_epoch.ns()
                == latest[id]
    &&& forall|id: NaifId| #[trigger]
        ordered.contains(id) <==> latest.contains_key(id) && is_ordered_before(blocks, id, c, l)
}

/// Seeing the segment at position `l` of block `c`.
proof fn lemma_see(
    blocks: Seq<SummaryBlock>,
    c: int,
    l: int,
    latest: Map<NaifId, i128>,
    ordered: Set<NaifId>,
    end: i128,
)
    requires
        0 <= c < blocks.len(),
        0 <= l < blocks[c].records().len(),
        is_known_before(blocks, c, l, latest, ordered),
        ({
            let summary = blocks[c].records()[l];
            end == if latest.contains_key(summary.target_id) && latest[summary.target_id]
                > summary.end_epoch.ns() {
                latest[summary.target_id] as int
            } else {
                summary.end_epoch.ns()
            }
        }),
    ensures
        ({
            let summary = blocks[c].records()[l];
            let id = summary.target_id;
            let still = if !latest.contains_key(id) {
                ordered.insert(id)
            } else if latest[id] <= summary.start_epoch.ns() {
                ordered
            } else {
                ordered.remove(id)
            };
            is_known_before(blocks, c, l + 1, latest.insert(id, end), still)
        }),
{
    let summary = blocks[c].records()[l];
    let id = summary.target_id;
    let later = latest.insert(id, end);
    let still = if !latest.contains_key(id) {
        ordered.insert(id)
    } else if latest[id] <= summary.start_epoch.ns() {
        ordered
    } else {
        ordered.remove(id)
    };
    assert(is_before(blocks, id, c, l, c, l + 1));
    assert forall|i: NaifId, b: int, k: int| #[trigger]
        is_before(blocks, i, b, k, c, l + 1) implies later.contains_key(i)
        && blocks[b].records()[k].end_epoch.ns() <= later[i] by {
        if !(b == c && k == l) {
            assert(is_before(blocks, i, b, k, c, l));
        }
    }
    assert forall|i: NaifId| #[trigger] later.contains_key(i) implies exists|b: int, k: int|
        #[trigger]
        is_before(blocks, i, b, k, c, l + 1) && blocks[b].records()[k].end_epoch.ns()
            == later[i] by {
        if latest.contains_key(i) {
            let (b, k) = choose|b: int, k: int| #[trigger]
                is_before(blocks, i, b, k, c, l) && blocks[b].records()[k].end_epoch.ns()
                    == latest[i];
            assert(is_before(blocks, i, b, k, c, l + 1));
        }
    }
    assert forall|i: NaifId| #[trigger] still.contains(i) <==> later.contains_key(i)
        && is_ordered_before(blocks, i, c, l + 1) by {
        lemma_order_grows(blocks, c, l, i);
        assert(ordered.contains(i) <==> latest.contains_key(i) && is_ordered_before(
            blocks,
            i,
            c,
            l,
        ));
    }
}

/// The segments up to and with the one at position `l` of block `c` are in order exactly if those
/// before it are, and none of them ends after it starts.
proof fn lemma_order_grows(blocks: Seq<SummaryBlock>, c: int, l: int, id: NaifId)
    requires
        0 <= c < blocks.len(),
        0 <= l < blocks[c].records().len(),
    ensures
        is_ordered_before(blocks, id, c, l + 1) <==> is_ordered_before(blocks, id, c, l) && (
        blocks[c].records()[l].target_id == id ==> forall|b: int, k: int| #[trigger]
            is_before(blocks, id, b, k, c, l) ==> blocks[b].records()[k].end_epoch.ns()
                <= blocks[c].records()[l].start_epoch.ns()),
{
    let summary = blocks[c].records()[l];
    if is_ordered_before(blocks, id, c, l + 1) {
        assert forall|b: int, k: int, d: int, m: int|
            #![trigger is_before(blocks, id, b, k, d, m), is_before(blocks, id, d, m, c, l)]
            is_before(blocks, id, b, k, d, m) && is_before(
                blocks,
                id,
                d,
                m,
                c,
                l,
            ) implies blocks[b].records()[k].end_epoch.ns()
            <= blocks[d].records()[m].start_epoch.ns() by {
            assert(is_before(blocks, id, d, m, c, l + 1));
        }
        if summary.target_id == id {
            assert(is_before(blocks, id, c, l, c, l + 1));
        }
    }
    if is_ordered_before(blocks, id, c, l) && (summary.target_id == id ==> forall|b: int, k: int|
     #[trigger]
        is_before(blocks, id, b, k, c, l) ==> blocks[b].records()[k].end_epoch.ns()
            <= summary.start_epoch.ns()) {
        assert forall|b: int, k: int, d: int, m: int|
            #![trigger is_before(blocks, id, b, k, d, m), is_before(blocks, id, d, m, c, l + 1)]
            is_before(blocks, id, b, k, d, m) && is_before(
                blocks,
                id,
                d,
                m,
                c,
                l + 1,
            ) implies blocks[b].records()[k].end_epoch.ns()
            <= blocks[d].records()[m].start_epoch.ns() by {
            if !(d == c && m == l) {
                assert(is_before(blocks, id, d, m, c, l));
            }
        }
    }
}

/// The end of a block is the start of the next.
proof fn lemma_next_block(
    blocks: Seq<SummaryBlock>,
    c: int,
    latest: Map<NaifId, i128>,
    ordered: Set<NaifId>,
)
    requires
        0 <= c < blocks.len(),
        is_known_before(blocks, c, blocks[c].records().len() as int, latest, ordered),
    ensures
        is_known_before(blocks, c + 1, 0, latest, ordered),
{
    let n = blocks[c].records().len() as int;
    assert forall|id: NaifId, b: int, k: int|
        is_before(blocks, id, b, k, c, n) == #[trigger] is_before(blocks, id, b, k, c + 1, 0) by {}
    assert forall|id: NaifId|
        is_ordered_before(blocks, id, c, n) == #[trigger] is_ordered_before(
            blocks,
            id,
            c + 1,
            0,
        ) by {
        if is_ordered_before(blocks, id, c, n) {
            assert forall|b: int, k: int, d: int, m: int|
                #![trigger is_before(blocks, id, b, k, d, m), is_before(blocks, id, d, m, c + 1, 0)]
                is_before(blocks, id, b, k, d, m) && is_before(
                    blocks,
                    id,
                    d,
                    m,
                    c + 1,
                    0,
                ) implies blocks[b].records()[k].end_epoch.ns()
                <= blocks[d].records()[m].start_epoch.ns() by {
                assert(is_before(blocks, id, d, m, c, n));
            }
        }
        if is_ordered_before(blocks, id, c + 1, 0) {
            assert forall|b: int, k: int, d: int, m: int|
                #![trigger is_before(blocks, id, b, k, d, m), is_before(blocks, id, d, m, c, n)]
                is_before(blocks, id, b, k, d, m) && is_before(
                    blocks,
                    id,
                    d,
                    m,
                    c,
                    n,
                ) implies blocks[b].records()[k].end_epoch.ns()
                <= blocks[d].records()[m].start_epoch.ns() by {
                assert(is_before(blocks, id, d, m, c + 1, 0));
            }
        }
    }
    assert forall|id: NaifId| #[trigger] latest.contains_key(id) implies exists|b: int, k: int|
        #[trigger]
        is_before(blocks, id, b, k, c + 1, 0) && blocks[b].records()[k].end_epoch.ns()
            == latest[id] by {
        let (b, k) = choose|b: int, k: int| #[trigger]
            is_before(blocks, id, b, k, c, n) && blocks[b].records()[k].end_epoch.ns()
                == latest[id];
        assert(is_before(blocks, id, b, k, c + 1, 0));
    }
    assert forall|id: NaifId| #[trigger] ordered.contains(id) <==> latest.contains_key(id)
        && is_ordered_before(blocks, id, c + 1, 0) by {
        assert(is_ordered_before(blocks, id, c + 1, 0) == is_ordered_before(blocks, id, c, n));
    }
}

/// The identifiers whose segments the file stores in chronological order.
pub(crate) fn chronological_ids(blocks: &Vec<SummaryBlock>) -> (ordered: HashSet<NaifId>)
    ensures
        forall|id: NaifId| #[trigger]
            ordered@.contains(id) <==> is_chronological(blocks@, id),
{
    let mut latest: HashMap<NaifId, i128> = HashMap::new();
    let mut ordered: HashSet<NaifId> = HashSet::new();
    let mut c: usize = 0;
    while c < blocks.len()
        invariant
            c <= blocks.len(),
            is_known_before(blocks@, c as int, 0, latest@, ordered@),
        decreases blocks.len() - c,
    {
        if let Some(summaries) = &blocks[c].summaries {
            let mut l: usize = 0;
            while l < summaries.len()
                invariant
                    c < blocks.len(),
                    blocks@[c as int].records() == summaries@,
                    l <= summaries.len(),
                    is_known_before(blocks@, c as int, l as int, latest@, ordered@),
                decreases summaries.len() - l,
            {
                let summary: SPKSummaryRecord = summaries[l];
                let start: i128 = summary.start_epoch.since_j2000.total_nanoseconds();
                let mut end: i128 = summary.end_epoch.since_j2000.total_nanoseconds();
                let ghost (before, among) = (latest@, ordered@);
                match latest.get(&summary.target_id) {
                    None => {
                        ordered.insert(summary.target_id);
                    },
                    Some(sofar) => {
                        if start < *sofar {
                            ordered.remove(&summary.target_id);
                        }
                        if *sofar > end {
                            end = *sofar;
                        }
                    },
                }
                latest.insert(summary.target_id, end);
                proof {
                    lemma_see(blocks@, c as int, l as int, before, among, end);
                }
                l = l + 1;
            }
        }
        proof {
            lemma_next_block(blocks@, c as int, latest@, ordered@);
        }
        c = c + 1;
    }
    assert forall|id: NaifId| #[trigger] ordered@.contains(id) <==> is_chronological(
        blocks@,
        id,
    ) by {}
    ordered
}

} // verus!
