//! What is remembered and when it answers, in terms of the segments that the kernels store.

use vstd::prelude::*;

use crate::cache::SpkSegmentMemo;
use crate::epoch::{Epoch, EtSeconds};
use crate::error::EphemerisError;
use crate::spk::{SPKSummaryRecord, SummaryKey, SPK};
use crate::NaifId;

verus! {

/// A memo hits if and only if its bounds enclose the seconds, the summary that is stored at its bytes
/// and position has the identifier and these bounds, and the instant lies more than 100 ns past the
/// start of that segment and before its end.
pub proof fn law_a_hit_agrees_with_what_is_stored(
    kernels: Seq<(Seq<char>, SPK)>,
    id: NaifId,
    epoch: Epoch,
    et_s: EtSeconds,
    memo: SpkSegmentMemo,
    b: int,
)
    ensures
        crate::search::hits(kernels, id, epoch, et_s, memo, b) <==> ({
            let spk = kernels[memo.spk_no as int].1;
            let summary = spk.blocks@[b].summaries->0@[memo.idx_in_spk as int];
            &&& memo.start_et_s.at_most(et_s)
            &&& et_s.at_most(memo.end_et_s)
            &&& memo.spk_no < kernels.len()
            &&& 0 <= b < spk.blocks@.len()
            &&& spk.blocks@[b].summaries_byte_range == memo.summaries_byte_range
            &&& spk.blocks@[b].summaries is Some
            &&& memo.idx_in_spk < spk.blocks@[b].summaries->0@.len()
            &&& summary.target_id == id
            &&& summary.start_epoch_et_s.same_as(memo.start_et_s)
            &&& summary.end_epoch_et_s.same_as(memo.end_et_s)
            &&& summary.start_epoch.ns() + 100 < epoch.ns() < summary.end_epoch.ns()
        }),
{
}

/// An answer from a memo is the stored summary, with the kernel, record and position of the memo.
pub proof fn law_a_hit_answers_with_what_is_stored(
    kernels: Seq<(Seq<char>, SPK)>,
    memo: SpkSegmentMemo,
    b: int,
    r: Result<(&SPKSummaryRecord, usize, Option<usize>, usize), EphemerisError>,
)
    requires
        kernels[memo.spk_no as int].1.has(b, memo.idx_in_spk as int),
    ensures
        crate::search::is_recalled(kernels, memo, b, r) <==> (r matches Ok(answer) && *answer.0
            == kernels[memo.spk_no as int].1.blocks@[b].summaries->0@[memo.idx_in_spk as int]
            && answer.1 == memo.spk_no && answer.2 == memo.daf_idx && answer.3 == memo.idx_in_spk),
{
}

/// What a search leaves behind to be remembered describes the summary that it found: the first with
/// the identifier and with data within 100 ns of the instant, in a kernel that indexes the
/// identifier, while no kernel loaded later stores a segment of it. If it leaves nothing behind,
/// there is no such kernel.
pub proof fn law_a_memo_describes_what_is_stored(
    kernels: Seq<(Seq<char>, SPK)>,
    id: NaifId,
    epoch: Epoch,
    memo: Option<SpkSegmentMemo>,
)
    requires
        crate::search::is_memo_of(kernels, id, epoch, memo),
    ensures
        match memo {
            Some(found) => {
                let spk = kernels[found.spk_no as int].1;
                &&& found.spk_no < kernels.len()
                &&& found.decoded is None
                &&& spk.index@.contains(id)
                &&& exists|b: int| {
                    &&& 0 <= b < spk.blocks@.len()
                    &&& (#[trigger] spk.blocks@[b]).daf_idx == found.daf_idx
                    &&& spk.blocks@[b].summaries_byte_range == found.summaries_byte_range
                    &&& spk.blocks@[b].summaries is Some
                    &&& found.idx_in_spk < spk.blocks@[b].summaries->0@.len()
                    &&& spk.blocks@[b].summaries->0@[found.idx_in_spk as int].target_id == id
                        && spk.blocks@[b].summaries->0@[found.idx_in_spk as int].start_epoch.ns()
                        - 100 <= epoch.ns()
                        <= spk.blocks@[b].summaries->0@[found.idx_in_spk as int].end_epoch.ns()
                        + 100
                    &&& spk.blocks@[b].summaries->0@[found.idx_in_spk as int].start_epoch_et_s
                            == found.start_et_s
                    &&& spk.blocks@[b].summaries->0@[found.idx_in_spk as int].end_epoch_et_s
                            == found.end_et_s
                    &&& forall|c: int, l: int|
                        0 <= c < spk.blocks@.len() && spk.blocks@[c].summaries is Some
                            && 0 <= l < spk.blocks@[c].summaries->0@.len() && (c < b || (c == b
                            && l < found.idx_in_spk))
                            ==> !((#[trigger] spk.blocks@[c].summaries->0@[l]).target_id == id
                                && spk.blocks@[c].summaries->0@[l].start_epoch.ns() - 100
                                    <= epoch.ns()
                                    <= spk.blocks@[c].summaries->0@[l].end_epoch.ns() + 100)
                }
                &&& forall|m: int, c: int, l: int|
                    found.spk_no < m < kernels.len() && 0 <= c < kernels[m].1.blocks@.len()
                        && kernels[m].1.blocks@[c].summaries is Some
                        && 0 <= l < kernels[m].1.blocks@[c].summaries->0@.len()
                        ==> (#[trigger] kernels[m].1.blocks@[c].summaries->0@[l]).target_id != id
            },
            None => forall|n: int, b: int, k: int|
                0 <= n < kernels.len() && kernels[n].1.index@.contains(id)
                    && 0 <= b < kernels[n].1.blocks@.len()
                    && kernels[n].1.blocks@[b].summaries is Some
                    && 0 <= k < kernels[n].1.blocks@[b].summaries->0@.len()
                    && (#[trigger] kernels[n].1.blocks@[b].summaries->0@[k]).target_id == id
                    && kernels[n].1.blocks@[b].summaries->0@[k].start_epoch.ns() - 100
                        <= epoch.ns()
                        <= kernels[n].1.blocks@[b].summaries->0@[k].end_epoch.ns() + 100
                    ==> exists|m: int, c: int, l: int|
                    n < m < kernels.len() && 0 <= c < kernels[m].1.blocks@.len()
                        && kernels[m].1.blocks@[c].summaries is Some
                        && 0 <= l < kernels[m].1.blocks@[c].summaries->0@.len()
                        && (#[trigger] kernels[m].1.blocks@[c].summaries->0@[l]).target_id == id,
        },
{
    let key = SummaryKey::IdAt(id, epoch);
    crate::search::lemma_latest_before(kernels, key, kernels.len() as int);
    match memo {
        Some(found) => {
            let n = crate::search::latest(kernels, key)->0;
            let spk = kernels[n].1;
            let (b, k) = spk.find(key)->0;
            spk.lemma_find(key);
            assert(spk.blocks@[b].daf_idx == found.daf_idx);
            assert forall|c: int, l: int|
                0 <= c < spk.blocks@.len() && spk.blocks@[c].summaries is Some
                    && 0 <= l < spk.blocks@[c].summaries->0@.len() && (c < b || (c == b
                    && l < found.idx_in_spk))
                    implies !((#[trigger] spk.blocks@[c].summaries->0@[l]).target_id == id
                    && spk.blocks@[c].summaries->0@[l].start_epoch.ns() - 100 <= epoch.ns()
                        <= spk.blocks@[c].summaries->0@[l].end_epoch.ns() + 100) by {
                assert(spk.has(c, l));
                assert(!spk.blocks@[c].stops(key, l));
            }
            assert forall|m: int, c: int, l: int|
                found.spk_no < m < kernels.len() && 0 <= c < kernels[m].1.blocks@.len()
                    && kernels[m].1.blocks@[c].summaries is Some
                    && 0 <= l < kernels[m].1.blocks@[c].summaries->0@.len()
                    implies (#[trigger] kernels[m].1.blocks@[c].summaries->0@[l]).target_id
                    != id by {
                assert(kernels[m].1.find(SummaryKey::Id(id)) is None);
                kernels[m].1.lemma_find(SummaryKey::Id(id));
                assert(kernels[m].1.has(c, l));
                assert(!kernels[m].1.blocks@[c].stops(SummaryKey::Id(id), l));
            }
        },
        None => {
            assert forall|n: int, b: int, k: int|
                0 <= n < kernels.len() && kernels[n].1.index@.contains(id)
                    && 0 <= b < kernels[n].1.blocks@.len()
                    && kernels[n].1.blocks@[b].summaries is Some
                    && 0 <= k < kernels[n].1.blocks@[b].summaries->0@.len()
                    && (#[trigger] kernels[n].1.blocks@[b].summaries->0@[k]).target_id == id
                    && kernels[n].1.blocks@[b].summaries->0@[k].start_epoch.ns() - 100
                        <= epoch.ns()
                        <= kernels[n].1.blocks@[b].summaries->0@[k].end_epoch.ns() + 100
                    implies exists|m: int, c: int, l: int|
                n < m < kernels.len() && 0 <= c < kernels[m].1.blocks@.len()
                    && kernels[m].1.blocks@[c].summaries is Some
                    && 0 <= l < kernels[m].1.blocks@[c].summaries->0@.len()
                    && (#[trigger] kernels[m].1.blocks@[c].summaries->0@[l]).target_id == id by {
                kernels[n].1.lemma_find(key);
                assert(kernels[n].1.has(b, k));
                assert(kernels[n].1.blocks@[b].stops(key, k));
                let last = crate::search::latest(kernels, key)->0;
                assert(n <= last);
                let m = if last == n {
                    choose|m: int|
                        n < m < kernels.len() && !(#[trigger] kernels[m].1.find(
                            SummaryKey::Id(id),
                        ) is None)
                } else {
                    last
                };
                if last > n && kernels[m].1.find(SummaryKey::Id(id)) is None {
                    crate::search::lemma_absent_at_any_epoch(kernels[m].1, id, epoch);
                }
                kernels[m].1.lemma_find(SummaryKey::Id(id));
                let (c, l) = kernels[m].1.find(SummaryKey::Id(id))->0;
                assert(kernels[m].1.blocks@[c].summaries->0@[l].target_id == id);
            }
        },
    }
}

/// A memo that may be remembered for an identifier points at a stored segment of it and has the bytes
/// and the bounds of that segment, its kernel indexes the identifier, and no kernel loaded later
/// stores a segment of it.
pub proof fn law_a_sound_memo_describes_what_is_stored(
    kernels: Seq<(Seq<char>, SPK)>,
    id: NaifId,
    memo: SpkSegmentMemo,
)
    requires
        crate::search::is_sound_memo(kernels, id, memo),
    ensures
        ({
            let spk = kernels[memo.spk_no as int].1;
            &&& memo.spk_no < kernels.len()
            &&& spk.index@.contains(id)
            &&& exists|b: int| {
                &&& 0 <= b < spk.blocks@.len()
                &&& (#[trigger] spk.blocks@[b]).daf_idx == memo.daf_idx
                &&& spk.blocks@[b].summaries_byte_range == memo.summaries_byte_range
                &&& spk.blocks@[b].summaries is Some
                &&& memo.idx_in_spk < spk.blocks@[b].summaries->0@.len()
                &&& spk.blocks@[b].summaries->0@[memo.idx_in_spk as int].target_id == id
                &&& spk.blocks@[b].summaries->0@[memo.idx_in_spk as int].start_epoch_et_s
                        == memo.start_et_s
                &&& spk.blocks@[b].summaries->0@[memo.idx_in_spk as int].end_epoch_et_s
                        == memo.end_et_s
            }
            &&& forall|m: int, c: int, l: int|
                memo.spk_no < m < kernels.len() && 0 <= c < kernels[m].1.blocks@.len()
                    && kernels[m].1.blocks@[c].summaries is Some
                    && 0 <= l < kernels[m].1.blocks@[c].summaries->0@.len()
                    ==> (#[trigger] kernels[m].1.blocks@[c].summaries->0@[l]).target_id != id
        }),
{
    let (n, k) = (memo.spk_no as int, memo.idx_in_spk as int);
    let spk = kernels[n].1;
    let b = choose|b: int| #[trigger]
        crate::search::memoizable(kernels, id, n, b, k) && crate::search::describes(
            kernels,
            memo,
            n,
            b,
            k,
        );
    let e = choose|e: Epoch| #[trigger] spk.find(SummaryKey::IdAt(id, e)) == Some((b, k));
    spk.lemma_find(SummaryKey::IdAt(id, e));
    assert(spk.blocks@[b].daf_idx == memo.daf_idx);
    assert forall|m: int, c: int, l: int|
        memo.spk_no < m < kernels.len() && 0 <= c < kernels[m].1.blocks@.len()
            && kernels[m].1.blocks@[c].summaries is Some
            && 0 <= l < kernels[m].1.blocks@[c].summaries->0@.len()
            implies (#[trigger] kernels[m].1.blocks@[c].summaries->0@[l]).target_id != id by {
        assert(kernels[m].1.find(SummaryKey::Id(id)) is None);
        kernels[m].1.lemma_find(SummaryKey::Id(id));
        assert(kernels[m].1.has(c, l));
        assert(!kernels[m].1.blocks@[c].stops(SummaryKey::Id(id), l));
    }
}

/// A query with a memo answers with what the memo points at, and leaves nothing to keep, if and only
/// if the memo hits. Else it answers as a search does, and leaves to keep what a search leaves.
pub proof fn law_a_query_asks_the_memo_first(
    kernels: Seq<(Seq<char>, SPK)>,
    id: NaifId,
    epoch: Epoch,
    memo: Option<SpkSegmentMemo>,
    r: Result<(&SPKSummaryRecord, usize, Option<usize>, usize), EphemerisError>,
    found: Option<SpkSegmentMemo>,
    b: int,
)
    requires
        forall|n: int| 0 <= n < kernels.len() ==> (#[trigger] kernels[n]).1.wf(),
        crate::search::is_answer_with_memo(kernels, id, epoch, memo, r, found),
    ensures
        match memo {
            Some(m) => {
                &&& crate::search::hits(kernels, id, epoch, epoch.et_seconds(), m, b)
                    ==> crate::search::is_recalled(kernels, m, b, r) && found is None
                &&& (forall|c: int| !#[trigger] crate::search::hits(
                    kernels,
                    id,
                    epoch,
                    epoch.et_seconds(),
                    m,
                    c,
                )) ==> crate::search::is_answer(kernels, SummaryKey::IdAt(id, epoch), r)
                    && crate::search::is_memo_of(kernels, id, epoch, found)
            },
            None => crate::search::is_answer(kernels, SummaryKey::IdAt(id, epoch), r)
                && crate::search::is_memo_of(kernels, id, epoch, found),
        },
{
    if let Some(m) = memo {
        let et_s = epoch.et_seconds();
        if crate::search::hits(kernels, id, epoch, et_s, m, b) {
            let c = choose|c: int| #[trigger]
                crate::search::hits(kernels, id, epoch, et_s, m, c) && crate::search::is_recalled(
                    kernels,
                    m,
                    c,
                    r,
                );
            assert(kernels[m.spk_no as int].1.wf());
            kernels[m.spk_no as int].1.lemma_own_place(b, c);
        }
    }
}

} // verus!
