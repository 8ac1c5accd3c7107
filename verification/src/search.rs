//! What a query of several kernels answers, and which answers may be remembered.

use vstd::prelude::*;

use crate::cache::SpkSegmentMemo;
use crate::epoch::{Epoch, EtSeconds};
use crate::error::EphemerisError;
use crate::spk::{SPKSummaryRecord, SummaryKey, SPK};
use crate::NaifId;

verus! {

/// The last of the first `n` kernels in which a search succeeds.
pub open spec fn latest_before(kernels: Seq<(Seq<char>, SPK)>, key: SummaryKey, n: int) -> Option<
    int,
>
    decreases n,
{
    if n <= 0 {
        None
    } else if kernels[n - 1].1.find(key) is Some {
        Some(n - 1)
    } else {
        latest_before(kernels, key, n - 1)
    }
}

/// The most recently loaded kernel in which a search succeeds.
pub open spec fn latest(kernels: Seq<(Seq<char>, SPK)>, key: SummaryKey) -> Option<int> {
    latest_before(kernels, key, kernels.len() as int)
}

/// Whether the summary, the number of its kernel, its record and its position are what a search
/// of the kernels finds, the most recently loaded first.
pub open spec fn is_latest_answer(
    kernels: Seq<(Seq<char>, SPK)>,
    key: SummaryKey,
    answer: (SPKSummaryRecord, usize, Option<usize>, usize),
) -> bool {
    let (summary, spk_no, daf_idx, idx) = answer;
    &&& latest(kernels, key) == Some(spk_no as int)
    &&& kernels[spk_no as int].1.find(key) matches Some((b, k))
    &&& kernels[spk_no as int].1.is_at(b, k, summary, daf_idx, idx)
}

/// Whether a query for `id` may remember that kernel `n` answered with the summary at position `k`
/// of block `b`: the kernel indexes the identifier, some instant leads the search there, and no
/// kernel of higher precedence has the identifier at all.
pub open spec fn memoizable(
    kernels: Seq<(Seq<char>, SPK)>,
    id: NaifId,
    n: int,
    b: int,
    k: int,
) -> bool {
    &&& 0 <= n < kernels.len()
    &&& kernels[n].1.index@.contains(id)
    &&& exists|epoch: Epoch| #[trigger]
        kernels[n].1.find(SummaryKey::IdAt(id, epoch)) == Some((b, k))
    &&& forall|m: int|
        n < m < kernels.len() ==> #[trigger] kernels[m].1.find(SummaryKey::Id(id)) is None
}

/// Whether `memo` describes the summary at position `k` of block `b` of kernel `n`.
pub open spec fn describes(
    kernels: Seq<(Seq<char>, SPK)>,
    memo: SpkSegmentMemo,
    n: int,
    b: int,
    k: int,
) -> bool {
    &&& memo.spk_no == n
    &&& memo.idx_in_spk == k
    &&& memo.daf_idx == kernels[n].1.blocks@[b].daf_idx
    &&& memo.summaries_byte_range == kernels[n].1.blocks@[b].summaries_byte_range
    &&& memo.start_et_s == kernels[n].1.record_at(b, k).start_epoch_et_s
    &&& memo.end_et_s == kernels[n].1.record_at(b, k).end_epoch_et_s
}

/// Whether `memo` is one that queries for `id` may leave behind.
pub open spec fn is_sound_memo(
    kernels: Seq<(Seq<char>, SPK)>,
    id: NaifId,
    memo: SpkSegmentMemo,
) -> bool {
    exists|b: int|
        #[trigger] memoizable(kernels, id, memo.spk_no as int, b, memo.idx_in_spk as int)
            && describes(kernels, memo, memo.spk_no as int, b, memo.idx_in_spk as int)
}

/// All summaries of the first `n` kernels in the order in which they are used: the most recently
/// loaded kernel first.
pub open spec fn records_of_first(kernels: Seq<(Seq<char>, SPK)>, n: int) -> Seq<SPKSummaryRecord>
    decreases n,
{
    if n <= 0 {
        Seq::empty()
    } else {
        kernels[n - 1].1.records() + records_of_first(kernels, n - 1)
    }
}

/// All summaries of the kernels in the order in which they are used.
pub open spec fn records_of(kernels: Seq<(Seq<char>, SPK)>) -> Seq<SPKSummaryRecord> {
    records_of_first(kernels, kernels.len() as int)
}

/// The summaries of one identifier, in their order.
pub open spec fn with_id(records: Seq<SPKSummaryRecord>, id: NaifId) -> Seq<SPKSummaryRecord>
    decreases records.len(),
{
    if records.len() == 0 {
        Seq::empty()
    } else if records.last().target_id == id {
        with_id(records.drop_last(), id).push(records.last())
    } else {
        with_id(records.drop_last(), id)
    }
}

/// All summaries of one identifier, in the order in which they are used.
pub open spec fn summaries_of(kernels: Seq<(Seq<char>, SPK)>, id: NaifId) -> Seq<SPKSummaryRecord> {
    with_id(records_of(kernels), id)
}

/// The earliest start of the segments.
pub open spec fn earliest_start(records: Seq<SPKSummaryRecord>) -> Epoch
    decreases records.len(),
{
    if records.len() <= 1 {
        records[0].start_epoch
    } else {
        let sofar = earliest_start(records.drop_last());
        if records.last().start_epoch.precedes(sofar) {
            records.last().start_epoch
        } else {
            sofar
        }
    }
}

/// The latest end of the segments.
pub open spec fn latest_end(records: Seq<SPKSummaryRecord>) -> Epoch
    decreases records.len(),
{
    if records.len() <= 1 {
        records[0].end_epoch
    } else {
        let sofar = latest_end(records.drop_last());
        if sofar.precedes(records.last().end_epoch) {
            records.last().end_epoch
        } else {
            sofar
        }
    }
}

/// Whether `domains` maps each identifier that occurs to the earliest start and the latest end of
/// its segments, and nothing else.
pub open spec fn is_domain_map(
    records: Seq<SPKSummaryRecord>,
    domains: Map<NaifId, (Epoch, Epoch)>,
) -> bool {
    forall|id: NaifId|
        #![trigger domains.contains_key(id)]
        #![trigger domains[id]]
        #![trigger with_id(records, id)]
        (domains.contains_key(id) <==> with_id(records, id).len() > 0) && (domains.contains_key(id)
            ==> domains[id] == (
            earliest_start(with_id(records, id)),
            latest_end(with_id(records, id)),
        ))
}

/// One more summary widens the domain of its identifier and leaves the others alone.
pub(crate) proof fn lemma_domain_map_step(
    records: Seq<SPKSummaryRecord>,
    domains: Map<NaifId, (Epoch, Epoch)>,
    summary: SPKSummaryRecord,
    domain: (Epoch, Epoch),
)
    requires
        is_domain_map(records, domains),
        domain == if domains.contains_key(summary.target_id) {
            let (start, end) = domains[summary.target_id];
            (
                if summary.start_epoch.precedes(start) {
                    summary.start_epoch
                } else {
                    start
                },
                if end.precedes(summary.end_epoch) {
                    summary.end_epoch
                } else {
                    end
                },
            )
        } else {
            (summary.start_epoch, summary.end_epoch)
        },
    ensures
        is_domain_map(records.push(summary), domains.insert(summary.target_id, domain)),
{
    let more = records.push(summary);
    let wider = domains.insert(summary.target_id, domain);
    assert(more.drop_last() =~= records);
    assert forall|id: NaifId|
        #![trigger wider.contains_key(id)]
        #![trigger wider[id]]
        #![trigger with_id(more, id)]
        (wider.contains_key(id) <==> with_id(more, id).len() > 0) && (wider.contains_key(id)
            ==> wider[id] == (
            earliest_start(with_id(more, id)),
            latest_end(with_id(more, id)),
        )) by {
        assert(domains.contains_key(id) <==> with_id(records, id).len() > 0);
        if id == summary.target_id {
            assert(with_id(more, id).drop_last() =~= with_id(records, id));
        }
    }
}

/// Whether `error` is what a search for `id` at an instant that no kernel covers reports.
pub open spec fn is_failure_at(
    kernels: Seq<(Seq<char>, SPK)>,
    id: NaifId,
    epoch: Epoch,
    error: EphemerisError,
) -> bool {
    let summaries = summaries_of(kernels, id);
    if summaries.len() == 0 {
        error.is_unknown_id(id)
    } else {
        error.is_id_without_data(id, epoch, earliest_start(summaries), latest_end(summaries))
    }
}

/// Whether `error` is what a search that succeeds in no kernel reports.
pub open spec fn is_failure(
    kernels: Seq<(Seq<char>, SPK)>,
    key: SummaryKey,
    error: EphemerisError,
) -> bool {
    match key {
        SummaryKey::Id(id) => error.is_unknown_id(id),
        SummaryKey::IdAt(id, epoch) => is_failure_at(kernels, id, epoch, error),
        SummaryKey::Name(name) => error.is_unknown_name(name),
        SummaryKey::NameAt(name, epoch) => error.is_name_without_data(name, epoch),
    }
}

/// Whether `r` is what a search of the kernels answers, the most recently loaded first.
pub open spec fn is_answer(
    kernels: Seq<(Seq<char>, SPK)>,
    key: SummaryKey,
    r: Result<(&SPKSummaryRecord, usize, Option<usize>, usize), EphemerisError>,
) -> bool {
    match r {
        Ok((summary, spk_no, daf_idx, idx)) => is_latest_answer(
            kernels,
            key,
            (*summary, spk_no, daf_idx, idx),
        ),
        Err(error) => latest(kernels, key) is None && is_failure(kernels, key, error),
    }
}

/// Whether `r` is what a search for `id` at `epoch` answers when nothing is remembered.
pub open spec fn is_cold_answer(
    kernels: Seq<(Seq<char>, SPK)>,
    id: NaifId,
    epoch: Epoch,
    r: Result<(&SPKSummaryRecord, usize, Option<usize>, usize), EphemerisError>,
) -> bool {
    is_answer(kernels, SummaryKey::IdAt(id, epoch), r)
}

/// Whether the search that answers with kernel `n` may be remembered.
pub open spec fn is_memo_safe(kernels: Seq<(Seq<char>, SPK)>, id: NaifId, n: int) -> bool {
    kernels[n].1.index@.contains(id) && forall|m: int|
        n < m < kernels.len() ==> #[trigger] kernels[m].1.find(SummaryKey::Id(id)) is None
}

/// Whether `memo` is what a full search for `id` at `epoch` leaves behind.
pub open spec fn is_memo_of(
    kernels: Seq<(Seq<char>, SPK)>,
    id: NaifId,
    epoch: Epoch,
    memo: Option<SpkSegmentMemo>,
) -> bool {
    match latest(kernels, SummaryKey::IdAt(id, epoch)) {
        Some(n) if is_memo_safe(kernels, id, n) => {
            let (b, k) = kernels[n].1.find(SummaryKey::IdAt(id, epoch))->0;
            memo matches Some(m) && describes(kernels, m, n, b, k) && m.decoded is None
        },
        _ => memo is None,
    }
}

/// Whether `memo` answers a query for `id` at `epoch`, which is `et_s` in seconds, with the summary
/// in block `b`: its bounds enclose the seconds, the live summary has the identifier and these
/// bounds, and the instant is not on a boundary of the segment.
pub open spec fn hits(
    kernels: Seq<(Seq<char>, SPK)>,
    id: NaifId,
    epoch: Epoch,
    et_s: EtSeconds,
    memo: SpkSegmentMemo,
    b: int,
) -> bool {
    let spk = kernels[memo.spk_no as int].1;
    let summary = spk.record_at(b, memo.idx_in_spk as int);
    &&& memo.start_et_s.at_most(et_s)
    &&& et_s.at_most(memo.end_et_s)
    &&& memo.spk_no < kernels.len()
    &&& spk.has(b, memo.idx_in_spk as int)
    &&& spk.blocks@[b].summaries_byte_range == memo.summaries_byte_range
    &&& summary.target_id == id
    &&& summary.start_epoch_et_s.same_as(memo.start_et_s)
    &&& summary.end_epoch_et_s.same_as(memo.end_et_s)
    &&& summary.is_inside(epoch)
}

/// Whether `r` is the answer with the summary in block `b` that `memo` points at.
pub open spec fn is_recalled(
    kernels: Seq<(Seq<char>, SPK)>,
    memo: SpkSegmentMemo,
    b: int,
    r: Result<(&SPKSummaryRecord, usize, Option<usize>, usize), EphemerisError>,
) -> bool {
    r matches Ok((summary, spk_no, daf_idx, idx)) && *summary == kernels[memo.spk_no as int].1
        .record_at(b, memo.idx_in_spk as int) && spk_no == memo.spk_no && daf_idx == memo.daf_idx
        && idx == memo.idx_in_spk
}

/// Whether `r` is what a query for `id` at `epoch` answers when `memo` is what the cache holds, and
/// `found` is the memo to keep: the memo answers if it hits, and then there is none to keep; else all
/// kernels are searched.
pub open spec fn is_answer_with_memo(
    kernels: Seq<(Seq<char>, SPK)>,
    id: NaifId,
    epoch: Epoch,
    memo: Option<SpkSegmentMemo>,
    r: Result<(&SPKSummaryRecord, usize, Option<usize>, usize), EphemerisError>,
    found: Option<SpkSegmentMemo>,
) -> bool {
    match memo {
        Some(m) => {
            ||| found is None && exists|b: int| #[trigger]
                hits(kernels, id, epoch, epoch.et_seconds(), m, b) && is_recalled(kernels, m, b, r)
            ||| (forall|b: int| !#[trigger] hits(kernels, id, epoch, epoch.et_seconds(), m, b))
                && is_cold_answer(kernels, id, epoch, r) && is_memo_of(kernels, id, epoch, found)
        },
        None => is_cold_answer(kernels, id, epoch, r) && is_memo_of(kernels, id, epoch, found),
    }
}

/// The last kernel in which a search succeeds is one in which it succeeds, and no later one is.
pub proof fn lemma_latest_before(kernels: Seq<(Seq<char>, SPK)>, key: SummaryKey, n: int)
    requires
        0 <= n <= kernels.len(),
    ensures
        match latest_before(kernels, key, n) {
            Some(i) => 0 <= i < n && kernels[i].1.find(key) is Some && forall|j: int|
                i < j < n ==> #[trigger] kernels[j].1.find(key) is None,
            None => forall|j: int| 0 <= j < n ==> #[trigger] kernels[j].1.find(key) is None,
        },
    decreases n,
{
    if n > 0 {
        lemma_latest_before(kernels, key, n - 1);
    }
}

/// A kernel without an identifier has no summary of it at any instant.
pub proof fn lemma_absent_at_any_epoch(spk: SPK, id: NaifId, epoch: Epoch)
    requires
        spk.find(SummaryKey::Id(id)) is None,
    ensures
        spk.find(SummaryKey::IdAt(id, epoch)) is None,
{
    spk.lemma_find(SummaryKey::Id(id));
    spk.lemma_find(SummaryKey::IdAt(id, epoch));
    if let Some((b, k)) = spk.find(SummaryKey::IdAt(id, epoch)) {
        assert(spk.blocks@[b].stops(SummaryKey::Id(id), k));
    }
}

/// A kernel that may answer from memory is the first to be asked.
proof fn lemma_memoizable_is_latest(
    kernels: Seq<(Seq<char>, SPK)>,
    id: NaifId,
    n: int,
    b: int,
    k: int,
    epoch: Epoch,
)
    requires
        memoizable(kernels, id, n, b, k),
        kernels[n].1.find(SummaryKey::IdAt(id, epoch)) is Some,
    ensures
        latest(kernels, SummaryKey::IdAt(id, epoch)) == Some(n),
{
    let key = SummaryKey::IdAt(id, epoch);
    lemma_latest_before(kernels, key, kernels.len() as int);
    let m = latest(kernels, key)->0;
    if m > n {
        lemma_absent_at_any_epoch(kernels[m].1, id, epoch);
    }
}

/// A segment that may be remembered is the one that the search within its kernel finds wherever the
/// instant is inside it.
proof fn lemma_inside_is_found(
    kernels: Seq<(Seq<char>, SPK)>,
    id: NaifId,
    n: int,
    b: int,
    k: int,
    epoch: Epoch,
)
    requires
        memoizable(kernels, id, n, b, k),
        kernels[n].1.wf(),
        kernels[n].1.record_at(b, k).is_inside(epoch),
    ensures
        kernels[n].1.find(SummaryKey::IdAt(id, epoch)) == Some((b, k)),
{
    let spk = kernels[n].1;
    let last = spk.blocks@.len() as int;
    let e = choose|e: Epoch| #[trigger] spk.find(SummaryKey::IdAt(id, e)) == Some((b, k));
    spk.lemma_find(SummaryKey::IdAt(id, e));
    spk.lemma_find(SummaryKey::IdAt(id, epoch));
    assert(spk.blocks@[b].stops(SummaryKey::IdAt(id, epoch), k));
    let (c, l) = spk.find(SummaryKey::IdAt(id, epoch))->0;
    if (c, l) != (b, k) {
        assert(crate::index::is_chronological(spk.blocks@, id));
        assert(crate::index::is_before(spk.blocks@, id, c, l, b, k));
        assert(crate::index::is_before(spk.blocks@, id, b, k, last, 0));
    }
}

/// What a sound memo answers is what the full search answers.
pub(crate) proof fn lemma_recalled_is_cold(
    kernels: Seq<(Seq<char>, SPK)>,
    id: NaifId,
    epoch: Epoch,
    et_s: EtSeconds,
    memo: SpkSegmentMemo,
    b: int,
    r: Result<(&SPKSummaryRecord, usize, Option<usize>, usize), EphemerisError>,
)
    requires
        is_sound_memo(kernels, id, memo),
        hits(kernels, id, epoch, et_s, memo, b),
        is_recalled(kernels, memo, b, r),
        kernels[memo.spk_no as int].1.wf(),
    ensures
        is_cold_answer(kernels, id, epoch, r),
{
    let (n, k) = (memo.spk_no as int, memo.idx_in_spk as int);
    let spk = kernels[n].1;
    let a = choose|a: int| #[trigger]
        memoizable(kernels, id, n, a, k) && describes(kernels, memo, n, a, k);
    let e = choose|e: Epoch| #[trigger] spk.find(SummaryKey::IdAt(id, e)) == Some((a, k));
    spk.lemma_find(SummaryKey::IdAt(id, e));
    spk.lemma_own_place(a, b);
    lemma_inside_is_found(kernels, id, n, b, k, epoch);
    lemma_memoizable_is_latest(kernels, id, n, b, k, epoch);
}

/// What a full search leaves behind is a sound memo.
pub(crate) proof fn lemma_memo_of_search_is_sound(
    kernels: Seq<(Seq<char>, SPK)>,
    id: NaifId,
    epoch: Epoch,
    memo: SpkSegmentMemo,
)
    requires
        is_memo_of(kernels, id, epoch, Some(memo)),
    ensures
        is_sound_memo(kernels, id, memo),
{
    let key = SummaryKey::IdAt(id, epoch);
    lemma_latest_before(kernels, key, kernels.len() as int);
    let n = latest(kernels, key)->0;
    let (b, k) = kernels[n].1.find(key)->0;
    assert(memoizable(kernels, id, n, b, k));
}

/// The kernels without the one of this alias; the others keep their order.
pub open spec fn without(kernels: Seq<(Seq<char>, SPK)>, alias: Seq<char>) -> Seq<
    (Seq<char>, SPK),
> {
    match crate::kernels::position_of(kernels, alias) {
        Some(i) => kernels.remove(i),
        None => kernels,
    }
}

/// The kernels after `spk` is loaded as `alias`: it is the last one, and a kernel that had the alias
/// is gone.
pub open spec fn loaded(
    kernels: Seq<(Seq<char>, SPK)>,
    alias: Seq<char>,
    spk: SPK,
) -> Seq<(Seq<char>, SPK)> {
    without(kernels, alias).push((alias, spk))
}

/// Where no alias occurs twice, none of the kernels without the one of an alias has it.
pub proof fn lemma_without(kernels: Seq<(Seq<char>, SPK)>, alias: Seq<char>)
    requires
        forall|i: int, j: int|
            0 <= i < j < kernels.len() ==> (#[trigger] kernels[i]).0 != (#[trigger] kernels[j]).0,
    ensures
        crate::kernels::position_of(without(kernels, alias), alias) is None,
        forall|i: int|
            0 <= i < without(kernels, alias).len() ==> (#[trigger] without(kernels, alias)[i]).0
                != alias,
{
    let rest = without(kernels, alias);
    crate::kernels::lemma_position_of(kernels, alias);
    crate::kernels::lemma_position_of(rest, alias);
    if let Some(i) = crate::kernels::position_of(kernels, alias) {
        assert forall|j: int| 0 <= j < rest.len() implies (#[trigger] rest[j]).0 != alias by {
            assert(rest[j] == if j < i {
                kernels[j]
            } else {
                kernels[j + 1]
            });
        }
    }
}

/// The kernels after the one of this alias is unloaded: the last one takes its place.
pub open spec fn unloaded(kernels: Seq<(Seq<char>, SPK)>, alias: Seq<char>) -> Seq<
    (Seq<char>, SPK),
> {
    match crate::kernels::position_of(kernels, alias) {
        Some(i) => kernels.update(i, kernels.last()).drop_last(),
        None => kernels,
    }
}

} // verus!
