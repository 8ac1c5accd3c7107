//! What the terms of the contracts mean, in terms of what is stored.

use vstd::prelude::*;
use vstd::rwlock::RwLockPredicate;

use crate::almanac::Almanac;
use crate::cache::{CachePred, CacheState, SpkSegmentMemo};
use crate::epoch::{Duration, Epoch, EtSeconds, NANOSECONDS_PER_CENTURY};
use crate::error::{DAFError, EphemerisError};
use crate::spk::{SPKSummaryRecord, SummaryBlock, SummaryKey, SummaryQuery, EPOCH_PAD_NS, SPK};
use crate::NaifId;

verus! {

/// Spans of time differ by 36525 days for each century between them and by one nanosecond for each
/// nanosecond, and a span of no parts is empty.
pub proof fn law_spans_count_nanoseconds(a: Duration, b: Duration)
    ensures
        a.total() - b.total() == (a.centuries - b.centuries) * (36525 * 86400 * 1_000_000_000) + (
        a.nanoseconds - b.nanoseconds),
        a.centuries == 0 && a.nanoseconds == 0 ==> a.total() == 0,
{
    assert(36525 * 86400 * 1_000_000_000 == NANOSECONDS_PER_CENTURY);
    assert(a.centuries * NANOSECONDS_PER_CENTURY - b.centuries * NANOSECONDS_PER_CENTURY == (
    a.centuries - b.centuries) * NANOSECONDS_PER_CENTURY) by (nonlinear_arith);
}

/// An instant lies as far from J2000 as its span says, and in seconds it is what its two parts are.
pub proof fn law_instants_count_from_j2000(a: Epoch)
    ensures
        a.ns() == a.since_j2000.total(),
        a.et_seconds().bits == crate::epoch::et_seconds_bits(
            a.since_j2000.centuries,
            a.since_j2000.nanoseconds,
        ),
{
}

/// Of two instants the one of the earlier century is first, and within a century the one of fewer
/// nanoseconds.
pub proof fn law_centuries_decide_the_order(a: Epoch, b: Epoch)
    ensures
        a.since_j2000.centuries < b.since_j2000.centuries ==> a.precedes(b),
        a.since_j2000.centuries > b.since_j2000.centuries ==> !a.precedes(b),
        a.since_j2000.centuries == b.since_j2000.centuries ==> (a.precedes(b)
            <==> a.since_j2000.nanoseconds < b.since_j2000.nanoseconds),
{
}

/// Seconds are ordered by their bits: upward from zero to infinity, downward with the sign set, and
/// what is past either infinity is ordered with nothing. Of a negative and a positive number the
/// negative one is less, unless both are zeros.
pub proof fn law_bits_order_seconds(a: EtSeconds, b: EtSeconds)
    ensures
        ({
            let positive = |bits: u64| bits <= 0x7ff0_0000_0000_0000;
            let negative = |bits: u64|
                0x8000_0000_0000_0000 <= bits && bits <= 0xfff0_0000_0000_0000;
            let zeros = a.bits == 0 && b.bits == 0x8000_0000_0000_0000;
            &&& positive(a.bits) && positive(b.bits) ==> (a.at_most(b) <==> a.bits <= b.bits)
            &&& negative(a.bits) && negative(b.bits) ==> (a.at_most(b) <==> b.bits <= a.bits)
            &&& negative(a.bits) && positive(b.bits) ==> a.at_most(b)
            &&& positive(a.bits) && negative(b.bits) ==> (a.at_most(b) <==> zeros)
            &&& !positive(a.bits) && !negative(a.bits) ==> !a.at_most(b) && !b.at_most(a)
            &&& a.same_as(b) <==> a.at_most(b) && b.at_most(a)
        }),
{
}

/// A segment has data from 100 ns before its start to 100 ns past its end. Its inside begins more
/// than 100 ns past the start and ends before the end.
pub proof fn law_segments_are_padded(summary: SPKSummaryRecord, epoch: Epoch, et_s: EtSeconds)
    ensures
        EPOCH_PAD_NS == 100,
        summary.covers(epoch) <==> summary.start_epoch.ns() - 100 <= epoch.ns()
            <= summary.end_epoch.ns() + 100,
        summary.is_inside(epoch) <==> summary.start_epoch.ns() + 100 < epoch.ns()
            < summary.end_epoch.ns(),
        summary.encloses(et_s) <==> summary.start_epoch_et_s.at_most(et_s) && et_s.at_most(
            summary.end_epoch_et_s,
        ),
{
}

/// A query is by what it holds.
pub proof fn law_queries_are_what_they_hold(query: SummaryQuery)
    ensures
        match query {
            SummaryQuery::Id(id) => query@ == SummaryKey::Id(id),
            SummaryQuery::IdAt(id, epoch) => query@ == SummaryKey::IdAt(id, epoch),
            SummaryQuery::Name(name) => query@ == SummaryKey::Name(name@),
            SummaryQuery::NameAt(name, epoch) => query@ == SummaryKey::NameAt(name@, epoch),
        },
{
}

/// A kernel has a summary at every position of every record that was decoded, and nowhere else.
pub proof fn law_places_hold_what_is_stored(spk: SPK, b: int, k: int)
    ensures
        spk.has(b, k) <==> 0 <= b < spk.blocks@.len() && spk.blocks@[b].summaries is Some && 0 <= k
            < spk.blocks@[b].summaries->0@.len(),
        spk.has(b, k) ==> spk.record_at(b, k) == spk.blocks@[b].summaries->0@[k],
{
}

/// An answer is at a place if it is the summary there, with the index of its record and its position.
pub proof fn law_answers_name_their_place(
    spk: SPK,
    b: int,
    k: int,
    summary: SPKSummaryRecord,
    daf_idx: Option<usize>,
    idx: usize,
)
    ensures
        spk.is_at(b, k, summary, daf_idx, idx) <==> 0 <= b < spk.blocks@.len()
            && spk.blocks@[b].summaries is Some && 0 <= k < spk.blocks@[b].summaries->0@.len()
            && spk.blocks@[b].summaries->0@[k] == summary && spk.blocks@[b].daf_idx == daf_idx
            && idx == k,
{
}

/// Records have places of their own if no two have the same index, and no two the same bytes.
pub proof fn law_own_places_are_distinct(blocks: Seq<SummaryBlock>)
    ensures
        crate::spk::have_own_places(blocks) <==> forall|i: int, j: int|
            #![trigger blocks[i], blocks[j]]
            0 <= i < blocks.len() && 0 <= j < blocks.len() && i != j ==> blocks[i].daf_idx
                != blocks[j].daf_idx && blocks[i].summaries_byte_range
                != blocks[j].summaries_byte_range,
{
    if crate::spk::have_own_places(blocks) {
        assert forall|i: int, j: int|
            #![trigger blocks[i], blocks[j]]
            0 <= i < blocks.len() && 0 <= j < blocks.len() && i != j implies blocks[i].daf_idx
            != blocks[j].daf_idx && blocks[i].summaries_byte_range
            != blocks[j].summaries_byte_range by {
            if i < j {
                assert(!blocks[i].collides(blocks[j]));
            } else {
                assert(!blocks[j].collides(blocks[i]));
            }
        }
    }
}

/// A kernel is well formed if and only if its records have places of their own, and its index holds
/// exactly the identifiers that have a segment and of which no segment starts before the end of one
/// that stands earlier in the file.
pub proof fn law_well_formed_kernels_index_what_is_in_order(spk: SPK)
    ensures
        spk.wf() <==> crate::spk::have_own_places(spk.blocks@) && forall|id: NaifId| #[trigger]
            spk.index@.contains(id) <==> ((exists|b: int, k: int|
                spk.has(b, k) && (#[trigger] spk.record_at(b, k)).target_id == id) && (forall|
                b: int,
                k: int,
                c: int,
                l: int,
            |
                #![trigger spk.record_at(b, k), spk.record_at(c, l)]
                spk.has(b, k) && spk.has(c, l) && (b < c || (b == c && k < l)) && spk.record_at(
                    b,
                    k,
                ).target_id == id && spk.record_at(c, l).target_id == id ==> spk.record_at(
                    b,
                    k,
                ).end_epoch.ns() <= spk.record_at(c, l).start_epoch.ns())),
{
    let last = spk.blocks@.len() as int;
    assert forall|id: NaifId| #[trigger]
        crate::index::is_chronological(spk.blocks@, id) <==> ((exists|b: int, k: int|
            spk.has(b, k) && (#[trigger] spk.record_at(b, k)).target_id == id) && (forall|
            b: int,
            k: int,
            c: int,
            l: int,
        |
            #![trigger spk.record_at(b, k), spk.record_at(c, l)]
            spk.has(b, k) && spk.has(c, l) && (b < c || (b == c && k < l)) && spk.record_at(
                b,
                k,
            ).target_id == id && spk.record_at(c, l).target_id == id ==> spk.record_at(
                b,
                k,
            ).end_epoch.ns() <= spk.record_at(c, l).start_epoch.ns())) by {
        if crate::index::is_chronological(spk.blocks@, id) {
            let (b, k) = choose|b: int, k: int| #[trigger]
                crate::index::is_before(spk.blocks@, id, b, k, last, 0);
            assert(spk.has(b, k) && spk.record_at(b, k).target_id == id);
            assert forall|b: int, k: int, c: int, l: int|
                #![trigger spk.record_at(b, k), spk.record_at(c, l)]
                spk.has(b, k) && spk.has(c, l) && (b < c || (b == c && k < l)) && spk.record_at(
                    b,
                    k,
                ).target_id == id && spk.record_at(c, l).target_id == id implies spk.record_at(
                b,
                k,
            ).end_epoch.ns() <= spk.record_at(c, l).start_epoch.ns() by {
                assert(crate::index::is_before(spk.blocks@, id, b, k, c, l));
                assert(crate::index::is_before(spk.blocks@, id, c, l, last, 0));
            }
        } else if exists|b: int, k: int|
            spk.has(b, k) && (#[trigger] spk.record_at(b, k)).target_id == id {
            let (b, k) = choose|b: int, k: int|
                spk.has(b, k) && (#[trigger] spk.record_at(b, k)).target_id == id;
            assert(crate::index::is_before(spk.blocks@, id, b, k, last, 0));
            assert(!crate::index::is_ordered_before(spk.blocks@, id, last, 0));
            let (b, k, c, l) = choose|b: int, k: int, c: int, l: int|
                #![trigger crate::index::is_before(spk.blocks@, id, b, k, c, l),
                    crate::index::is_before(spk.blocks@, id, c, l, last, 0)]
                crate::index::is_before(spk.blocks@, id, b, k, c, l) && crate::index::is_before(
                    spk.blocks@,
                    id,
                    c,
                    l,
                    last,
                    0,
                ) && spk.blocks@[b].records()[k].end_epoch.ns()
                    > spk.blocks@[c].records()[l].start_epoch.ns();
            assert(spk.has(b, k) && spk.has(c, l));
            assert(spk.record_at(b, k).end_epoch.ns() > spk.record_at(c, l).start_epoch.ns());
        }
    }
}

/// The kernels of a context are the entries of its map. It is well formed if and only if each kernel
/// is, no alias occurs twice, and its cache may hold what is about these kernels, with any root and
/// any header.
pub proof fn law_contexts_hold_the_entries(context: Almanac)
    ensures
        context.kernels() == crate::kernels::map_entries(context.spk_data),
        context.wf() <==> (forall|i: int|
            0 <= i < context.kernels().len() ==> (#[trigger] context.kernels()[i]).1.wf()) && (
        forall|i: int, j: int|
            0 <= i < j < context.kernels().len() ==> (#[trigger] context.kernels()[i]).0 != (
            #[trigger] context.kernels()[j]).0) && context.cache.pred().kernels == Some(
            context.kernels(),
        ) && context.cache.pred().roots == Set::<NaifId>::full()
            && context.cache.pred().headers == CachePred::about(None).headers,
        forall|header: (usize, Option<usize>, usize, crate::cache::DecodedSplineHeader)| #[trigger]
            CachePred::about(None).headers.contains(header),
        CachePred::about(None).kernels is None,
        CachePred::about(None).roots == Set::<NaifId>::full(),
{
}

/// A cache holds only roots that it may hold, and memos that queries for their identifier leave
/// behind, with headers of the segment that the memo points at.
pub proof fn law_caches_hold_what_fits(
    pred: CachePred,
    state: CacheState,
    id: NaifId,
    memo: SpkSegmentMemo,
)
    ensures
        pred.inv(state) <==> (state.root matches Some(root) ==> pred.roots.contains(root)) && (
        forall|i: NaifId| #[trigger]
            state.spk_segments@.contains_key(i) ==> pred.admits(i, state.spk_segments@[i])),
        pred.admits(id, memo) <==> (pred.kernels matches Some(kernels)
            ==> crate::search::is_sound_memo(kernels, id, memo)) && (memo.decoded matches Some(
            header,
        ) ==> pred.headers.contains((memo.spk_no, memo.daf_idx, memo.idx_in_spk, header))),
{
}

/// The errors of a failed search or unload say what was asked for, and what was done.
pub proof fn law_errors_say_what_failed(
    error: EphemerisError,
    id: NaifId,
    name: Seq<char>,
    at: Epoch,
    from: Epoch,
    to: Epoch,
)
    ensures
        error.is_unknown_alias(name) <==> match error {
            EphemerisError::AliasNotFound { alias, action } => alias@ == name && action@
                == "unload ephemeris"@,
            _ => false,
        },
        error.is_unknown_id(id) <==> match error {
            EphemerisError::SPK {
                action,
                source: DAFError::SummaryIdError { kind, id: i },
            } => action@ == "searching for SPK summary"@ && kind@ == "SPK"@ && i == id,
            _ => false,
        },
        error.is_unknown_name(name) <==> match error {
            EphemerisError::SPK {
                action,
                source: DAFError::SummaryNameError { kind, name: n },
            } => action@ == "searching for SPK summary"@ && kind@ == "SPK"@ && n@ == name,
            _ => false,
        },
        error.is_name_without_data(name, at) <==> match error {
            EphemerisError::SPK {
                action,
                source: DAFError::SummaryNameAtEpochError { kind, name: n, epoch },
            } => action@ == "searching for SPK summary"@ && kind@ == "SPK"@ && n@ == name && epoch
                == at,
            _ => false,
        },
        error.is_id_without_data(id, at, from, to) <==> match error {
            EphemerisError::SPK {
                action,
                source: DAFError::SummaryIdAtEpochError { kind, id: i, epoch, start, end },
            } => action@ == "searching for SPK summary"@ && kind@ == "SPK"@ && i == id && epoch
                == at && start == from && end == to,
            _ => false,
        },
{
}

/// The text of a time is what is printed for a reading of the clock, or for the origin of TAI.
pub proof fn law_times_are_printed(utc: Duration)
    ensures
        crate::epoch::time_text(Some(utc)) == crate::epoch::utc_text(
            utc.centuries,
            utc.nanoseconds,
        ),
        crate::epoch::time_text(None) == "1900-01-01T00:00:00 TAI"@,
{
}

} // verus!
