//! What holds of every context and every sequence of queries.

use vstd::prelude::*;

use crate::almanac::Almanac;
use crate::cache::SpkSegmentMemo;
use crate::epoch::{Duration, Epoch, EtSeconds, NANOSECONDS_PER_CENTURY};
use crate::error::EphemerisError;
use crate::spk::{SPKSummaryRecord, SummaryKey, EPOCH_PAD_NS, SPK};
use crate::NaifId;

verus! {

/// What a query answers from memory is what a search of all kernels answers, whatever was remembered
/// before and at whatever instant.
pub proof fn law_memory_never_changes_an_answer(
    kernels: Seq<(Seq<char>, SPK)>,
    id: NaifId,
    epoch: Epoch,
    et_s: EtSeconds,
    memo: SpkSegmentMemo,
    b: int,
    r: Result<(&SPKSummaryRecord, usize, Option<usize>, usize), EphemerisError>,
)
    requires
        forall|n: int| 0 <= n < kernels.len() ==> (#[trigger] kernels[n]).1.wf(),
        crate::search::is_sound_memo(kernels, id, memo),
        crate::search::hits(kernels, id, epoch, et_s, memo, b),
        crate::search::is_recalled(kernels, memo, b, r),
    ensures
        crate::search::is_cold_answer(kernels, id, epoch, r),
{
    assert(kernels[memo.spk_no as int].1.wf());
    crate::search::lemma_recalled_is_cold(kernels, id, epoch, et_s, memo, b, r);
}

/// Two contexts with the same kernels answer every query alike, by identifier or by name and with or
/// without an instant, whatever their caches hold: with the same summary at the same place, or with
/// the same error.
pub proof fn law_answers_depend_on_the_kernels_alone(
    one: Almanac,
    other: Almanac,
    key: SummaryKey,
    r: Result<(&SPKSummaryRecord, usize, Option<usize>, usize), EphemerisError>,
    s: Result<(&SPKSummaryRecord, usize, Option<usize>, usize), EphemerisError>,
)
    requires
        one.kernels() == other.kernels(),
        crate::search::is_answer(one.kernels(), key, r),
        crate::search::is_answer(other.kernels(), key, s),
    ensures
        match (r, s) {
            (Ok(a), Ok(b)) => a == b,
            (Err(e), Err(f)) => e.says_the_same(f),
            _ => false,
        },
{
}

/// Two contexts with the same kernels answer alike at every instant, whatever queries each has
/// served before and whatever its cache holds: with the same summary at the same place, or with the
/// same error.
pub proof fn law_warm_answers_as_cold(
    warm: Almanac,
    cold: Almanac,
    id: NaifId,
    epoch: Epoch,
    r: Result<(&SPKSummaryRecord, usize, Option<usize>, usize), EphemerisError>,
    s: Result<(&SPKSummaryRecord, usize, Option<usize>, usize), EphemerisError>,
)
    requires
        warm.kernels() == cold.kernels(),
        crate::search::is_cold_answer(warm.kernels(), id, epoch, r),
        crate::search::is_cold_answer(cold.kernels(), id, epoch, s),
    ensures
        match (r, s) {
            (Ok(a), Ok(b)) => a == b,
            (Err(e), Err(f)) => e.says_the_same(f),
            _ => false,
        },
{
}

/// Whatever a memo claims, it answers only with a live summary that has the sought identifier, whose
/// bounds in seconds enclose the instant in seconds, and which has data at the instant.
pub proof fn law_hints_are_validated(
    kernels: Seq<(Seq<char>, SPK)>,
    id: NaifId,
    epoch: Epoch,
    et_s: EtSeconds,
    memo: SpkSegmentMemo,
    b: int,
)
    requires
        crate::search::hits(kernels, id, epoch, et_s, memo, b),
    ensures
        ({
            let spk = kernels[memo.spk_no as int].1;
            let summary = spk.record_at(b, memo.idx_in_spk as int);
            memo.spk_no < kernels.len() && spk.has(b, memo.idx_in_spk as int) && summary.target_id
                == id && summary.encloses(et_s) && summary.covers(epoch)
        }),
{
}

/// No memo answers on a boundary of its segment, up to the pad: such instants are left to the full
/// search.
pub proof fn law_boundaries_are_left_to_the_search(
    kernels: Seq<(Seq<char>, SPK)>,
    id: NaifId,
    epoch: Epoch,
    et_s: EtSeconds,
    memo: SpkSegmentMemo,
    b: int,
)
    requires
        ({
            let summary = kernels[memo.spk_no as int].1.record_at(b, memo.idx_in_spk as int);
            epoch.ns() <= summary.start_epoch.ns() + EPOCH_PAD_NS || summary.end_epoch.ns()
                <= epoch.ns()
        }),
    ensures
        !crate::search::hits(kernels, id, epoch, et_s, memo, b),
{
}

/// Two segments of an indexed identifier share at most the instant at which the one ends and the
/// other starts.
pub proof fn law_indexed_segments_do_not_overlap(
    spk: SPK,
    id: NaifId,
    epoch: Epoch,
    b: int,
    k: int,
    c: int,
    l: int,
)
    requires
        spk.wf(),
        spk.index@.contains(id),
        spk.has(b, k),
        spk.has(c, l),
        b < c || (b == c && k < l),
        spk.record_at(b, k).target_id == id,
        spk.record_at(c, l).target_id == id,
        spk.record_at(b, k).start_epoch.ns() <= epoch.ns() <= spk.record_at(b, k).end_epoch.ns(),
        spk.record_at(c, l).start_epoch.ns() <= epoch.ns() <= spk.record_at(c, l).end_epoch.ns(),
    ensures
        spk.record_at(b, k).end_epoch.ns() == epoch.ns() == spk.record_at(c, l).start_epoch.ns(),
{
    assert(crate::index::is_chronological(spk.blocks@, id));
    assert(crate::index::is_before(spk.blocks@, id, b, k, c, l));
    assert(crate::index::is_before(spk.blocks@, id, c, l, spk.blocks@.len() as int, 0));
}

/// What is remembered of an identifier is never shadowed: at no instant does a kernel of higher
/// precedence answer for it.
pub proof fn law_memos_are_never_shadowed(
    kernels: Seq<(Seq<char>, SPK)>,
    id: NaifId,
    memo: SpkSegmentMemo,
    epoch: Epoch,
    m: int,
)
    requires
        crate::search::is_sound_memo(kernels, id, memo),
        memo.spk_no < m < kernels.len(),
    ensures
        kernels[m].1.find(SummaryKey::IdAt(id, epoch)) is None,
{
    crate::search::lemma_absent_at_any_epoch(kernels[m].1, id, epoch);
}

/// The kernel that is loaded last takes precedence over all others wherever it has an answer, even if
/// its alias was in use before. Where it has none, the others answer as they do without it.
pub proof fn law_last_loaded_kernel_wins(
    kernels: Seq<(Seq<char>, SPK)>,
    alias: Seq<char>,
    spk: SPK,
    key: SummaryKey,
)
    ensures
        crate::search::loaded(kernels, alias, spk).last() == (alias, spk),
        spk.find(key) is Some ==> crate::search::latest(
            crate::search::loaded(kernels, alias, spk),
            key,
        ) == Some(crate::search::loaded(kernels, alias, spk).len() - 1),
        spk.find(key) is None ==> crate::search::latest(
            crate::search::loaded(kernels, alias, spk),
            key,
        ) == crate::search::latest(crate::search::without(kernels, alias), key),
{
    let rest = crate::search::without(kernels, alias);
    let more = crate::search::loaded(kernels, alias, spk);
    lemma_latest_of_prefix(rest, more, key, rest.len() as int);
}

/// Kernels that agree up to `n` have the same answer among them.
proof fn lemma_latest_of_prefix(
    kernels: Seq<(Seq<char>, SPK)>,
    more: Seq<(Seq<char>, SPK)>,
    key: SummaryKey,
    n: int,
)
    requires
        0 <= n <= kernels.len() <= more.len(),
        forall|i: int| 0 <= i < n ==> kernels[i] == more[i],
    ensures
        crate::search::latest_before(kernels, key, n) == crate::search::latest_before(more, key, n),
    decreases n,
{
    if n > 0 {
        lemma_latest_of_prefix(kernels, more, key, n - 1);
    }
}

/// After a load the alias names the loaded kernel, every other alias has the kernel that it had, and
/// the other kernels keep their order.
pub proof fn law_load_keeps_the_other_kernels(
    kernels: Seq<(Seq<char>, SPK)>,
    alias: Seq<char>,
    spk: SPK,
    other: Seq<char>,
    another: Seq<char>,
)
    requires
        forall|i: int, j: int|
            0 <= i < j < kernels.len() ==> (#[trigger] kernels[i]).0 != (#[trigger] kernels[j]).0,
        other != alias,
        another != alias,
    ensures
        ({
            let more = crate::search::loaded(kernels, alias, spk);
            let (i, j) = (
                crate::kernels::position_of(kernels, other),
                crate::kernels::position_of(more, other),
            );
            let (k, l) = (
                crate::kernels::position_of(kernels, another),
                crate::kernels::position_of(more, another),
            );
            &&& crate::kernels::position_of(more, alias) == Some(more.len() - 1)
            &&& i is Some <==> j is Some
            &&& i is Some ==> more[j->0] == kernels[i->0]
            &&& i is Some && k is Some && i->0 < k->0 ==> j->0 < l->0
        }),
{
    let more = crate::search::loaded(kernels, alias, spk);
    crate::search::lemma_without(kernels, alias);
    crate::kernels::lemma_position_of(kernels, alias);
    crate::kernels::lemma_position_of(kernels, other);
    crate::kernels::lemma_position_of(kernels, another);
    crate::kernels::lemma_position_of(more, alias);
    assert(more[more.len() - 1].0 == alias);
    lemma_kept_position(kernels, alias, spk, other);
    lemma_kept_position(kernels, alias, spk, another);
}

/// Where a kernel with another alias stands after a load.
proof fn lemma_kept_position(
    kernels: Seq<(Seq<char>, SPK)>,
    alias: Seq<char>,
    spk: SPK,
    other: Seq<char>,
)
    requires
        forall|i: int, j: int|
            0 <= i < j < kernels.len() ==> (#[trigger] kernels[i]).0 != (#[trigger] kernels[j]).0,
        other != alias,
    ensures
        ({
            let more = crate::search::loaded(kernels, alias, spk);
            match crate::kernels::position_of(kernels, other) {
                Some(i) => {
                    let gone = crate::kernels::position_of(kernels, alias);
                    let j = if gone is Some && gone->0 < i {
                        i - 1
                    } else {
                        i
                    };
                    crate::kernels::position_of(more, other) == Some(j) && more[j] == kernels[i]
                },
                None => crate::kernels::position_of(more, other) is None,
            }
        }),
{
    let more = crate::search::loaded(kernels, alias, spk);
    let gone = crate::kernels::position_of(kernels, alias);
    crate::kernels::lemma_position_of(kernels, alias);
    crate::kernels::lemma_position_of(kernels, other);
    crate::kernels::lemma_position_of(more, other);
    assert forall|j: int| 0 <= j < more.len() - 1 implies #[trigger] more[j] == (if gone is Some
        && gone->0 <= j {
        kernels[j + 1]
    } else {
        kernels[j]
    }) by {}
    if let Some(i) = crate::kernels::position_of(kernels, other) {
        let j = if gone is Some && gone->0 < i {
            i - 1
        } else {
            i
        };
        assert(more[j] == kernels[i]);
    }
}

/// Loading a kernel without an alias, when the clock has a certain reading, leaves what loading it
/// under the text of that reading leaves: the same kernels under the same aliases, and a cache that
/// may hold the same.
pub proof fn law_no_alias_means_the_time(
    before: Almanac,
    spk: SPK,
    reading: Option<Duration>,
    name: String,
    unnamed: Almanac,
    named: Almanac,
)
    requires
        unnamed.wf(),
        named.wf(),
        unnamed.kernels() == crate::search::loaded(
            before.kernels(),
            crate::epoch::time_text(reading),
            spk,
        ),
        named.kernels() == crate::search::loaded(before.kernels(), name@, spk),
        name@ == crate::epoch::time_text(reading),
    ensures
        unnamed.kernels() == named.kernels(),
        unnamed.cache.pred() == named.cache.pred(),
{
}

/// Unloading a kernel right after it was loaded leaves the context without that alias: the context
/// as it was, if the alias was new.
pub proof fn law_unload_undoes_load(kernels: Seq<(Seq<char>, SPK)>, alias: Seq<char>, spk: SPK)
    requires
        forall|i: int, j: int|
            0 <= i < j < kernels.len() ==> (#[trigger] kernels[i]).0 != (#[trigger] kernels[j]).0,
    ensures
        crate::search::unloaded(crate::search::loaded(kernels, alias, spk), alias)
            == crate::search::without(kernels, alias),
        crate::kernels::position_of(kernels, alias) is None ==> crate::search::unloaded(
            crate::search::loaded(kernels, alias, spk),
            alias,
        ) == kernels,
{
    let rest = crate::search::without(kernels, alias);
    let more = crate::search::loaded(kernels, alias, spk);
    crate::search::lemma_without(kernels, alias);
    crate::kernels::lemma_position_of(more, alias);
    assert(more[rest.len() as int].0 == alias);
    assert(crate::search::unloaded(more, alias) =~= rest);
}

/// After an unload the alias is free, every other alias has the kernel that it had, and there is
/// one kernel less.
pub proof fn law_unload_removes_one_kernel(
    kernels: Seq<(Seq<char>, SPK)>,
    alias: Seq<char>,
    other: Seq<char>,
)
    requires
        forall|i: int, j: int|
            0 <= i < j < kernels.len() ==> (#[trigger] kernels[i]).0 != (#[trigger] kernels[j]).0,
        crate::kernels::position_of(kernels, alias) is Some,
        other != alias,
    ensures
        crate::search::unloaded(kernels, alias).len() == kernels.len() - 1,
        crate::kernels::position_of(crate::search::unloaded(kernels, alias), alias) is None,
        match crate::kernels::position_of(kernels, other) {
            Some(i) => crate::kernels::position_of(
                crate::search::unloaded(kernels, alias),
                other,
            ) matches Some(j) && crate::search::unloaded(kernels, alias)[j] == kernels[i],
            None => crate::kernels::position_of(
                crate::search::unloaded(kernels, alias),
                other,
            ) is None,
        },
{
    let fewer = crate::search::unloaded(kernels, alias);
    let gone = crate::kernels::position_of(kernels, alias)->0;
    let last = kernels.len() - 1;
    crate::kernels::lemma_position_of(kernels, alias);
    crate::kernels::lemma_position_of(kernels, other);
    crate::kernels::lemma_position_of(fewer, alias);
    crate::kernels::lemma_position_of(fewer, other);
    assert forall|j: int| 0 <= j < last implies #[trigger] fewer[j] == (if j == gone {
        kernels[last]
    } else {
        kernels[j]
    }) by {}
    if let Some(i) = crate::kernels::position_of(kernels, other) {
        let j = if i == last {
            gone
        } else {
            i
        };
        assert(fewer[j].0 == other);
    }
}

/// Every summary that answers a query lies in the kernel that the answer names; it has the sought
/// identifier, and it covers the instant up to the pad.
pub proof fn law_answers_fit_the_query(
    kernels: Seq<(Seq<char>, SPK)>,
    id: NaifId,
    epoch: Epoch,
    answer: (SPKSummaryRecord, usize, Option<usize>, usize),
)
    requires
        crate::search::is_latest_answer(kernels, SummaryKey::IdAt(id, epoch), answer),
    ensures
        answer.1 < kernels.len(),
        answer.0.target_id == id,
        answer.0.covers(epoch),
        crate::search::summaries_of(kernels, id).contains(answer.0),
        exists|b: int| #[trigger]
            kernels[answer.1 as int].1.is_at(b, answer.3 as int, answer.0, answer.2, answer.3),
{
    let key = SummaryKey::IdAt(id, epoch);
    let n = answer.1 as int;
    crate::search::lemma_latest_before(kernels, key, kernels.len() as int);
    kernels[n].1.lemma_find(key);
    let (b, k) = kernels[n].1.find(key)->0;
    lemma_summary_is_listed(kernels, n, b, k);
}

/// A named summary that answers a query at an instant has that name and covers the instant.
pub proof fn law_named_answers_fit_the_query(
    kernels: Seq<(Seq<char>, SPK)>,
    name: Seq<char>,
    epoch: Epoch,
    answer: (SPKSummaryRecord, usize, Option<usize>, usize),
)
    requires
        crate::search::is_latest_answer(kernels, SummaryKey::NameAt(name, epoch), answer),
    ensures
        answer.1 < kernels.len(),
        answer.0.covers(epoch),
        exists|b: int|
            0 <= b < kernels[answer.1 as int].1.blocks@.len()
                && #[trigger] kernels[answer.1 as int].1.blocks@[b].names@[answer.3 as int]@
                == name && kernels[answer.1 as int].1.is_at(
                b,
                answer.3 as int,
                answer.0,
                answer.2,
                answer.3,
            ),
{
    let key = SummaryKey::NameAt(name, epoch);
    crate::search::lemma_latest_before(kernels, key, kernels.len() as int);
    kernels[answer.1 as int].1.lemma_find(key);
}

/// An identifier that has data at some instant is known, so a query by the identifier alone
/// succeeds too.
pub proof fn law_known_at_an_epoch_is_known(
    kernels: Seq<(Seq<char>, SPK)>,
    id: NaifId,
    epoch: Epoch,
)
    requires
        crate::search::latest(kernels, SummaryKey::IdAt(id, epoch)) is Some,
    ensures
        crate::search::latest(kernels, SummaryKey::Id(id)) matches Some(m) && m
            >= crate::search::latest(kernels, SummaryKey::IdAt(id, epoch))->0,
{
    let n = crate::search::latest(kernels, SummaryKey::IdAt(id, epoch))->0;
    crate::search::lemma_latest_before(
        kernels,
        SummaryKey::IdAt(id, epoch),
        kernels.len() as int,
    );
    crate::search::lemma_latest_before(kernels, SummaryKey::Id(id), kernels.len() as int);
    if kernels[n].1.find(SummaryKey::Id(id)) is None {
        crate::search::lemma_absent_at_any_epoch(kernels[n].1, id, epoch);
    }
}

/// A query by identifier succeeds exactly if there are summaries of the identifier to list.
pub proof fn law_known_ids_have_summaries(kernels: Seq<(Seq<char>, SPK)>, id: NaifId)
    ensures
        crate::search::latest(kernels, SummaryKey::Id(id)) is Some
            <==> crate::search::summaries_of(kernels, id).len() > 0,
{
    let key = SummaryKey::Id(id);
    crate::search::lemma_latest_before(kernels, key, kernels.len() as int);
    if let Some(n) = crate::search::latest(kernels, key) {
        kernels[n].1.lemma_find(key);
        let (b, k) = kernels[n].1.find(key)->0;
        lemma_summary_is_listed(kernels, n, b, k);
    }
    if crate::search::summaries_of(kernels, id).len() > 0 {
        let summary = crate::search::summaries_of(kernels, id)[0];
        lemma_with_id(crate::search::records_of(kernels), id);
        lemma_listed_summary_is_somewhere(kernels, kernels.len() as int, summary);
        let n = choose|n: int|
            0 <= n < kernels.len() && #[trigger] kernels[n].1.records().contains(summary);
        lemma_record_is_somewhere(kernels[n].1, kernels[n].1.blocks@.len() as int, summary);
        let (b, k) = choose|b: int, k: int|
            kernels[n].1.has(b, k) && #[trigger] kernels[n].1.record_at(b, k) == summary;
        kernels[n].1.lemma_find(key);
        assert(kernels[n].1.blocks@[b].stops(key, k));
    }
}

/// The domain of an identifier is the tightest one that holds all its segments: one segment starts
/// at its start and none before, one ends at its end and none after.
pub proof fn law_domain_is_tight(summaries: Seq<SPKSummaryRecord>)
    requires
        summaries.len() > 0,
    ensures
        exists|i: int|
            0 <= i < summaries.len() && (#[trigger] summaries[i]).start_epoch
                == crate::search::earliest_start(summaries),
        exists|i: int|
            0 <= i < summaries.len() && (#[trigger] summaries[i]).end_epoch
                == crate::search::latest_end(summaries),
        forall|i: int|
            0 <= i < summaries.len() ==> !(#[trigger] summaries[i]).start_epoch.precedes(
                crate::search::earliest_start(summaries),
            ) && !crate::search::latest_end(summaries).precedes(summaries[i].end_epoch),
    decreases summaries.len(),
{
    if summaries.len() > 1 {
        let init = summaries.drop_last();
        law_domain_is_tight(init);
        let i = choose|i: int|
            0 <= i < init.len() && (#[trigger] init[i]).start_epoch
                == crate::search::earliest_start(init);
        let j = choose|j: int|
            0 <= j < init.len() && (#[trigger] init[j]).end_epoch == crate::search::latest_end(
                init,
            );
        assert(summaries[i] == init[i] && summaries[j] == init[j]);
        assert(summaries[summaries.len() - 1] == summaries.last());
        assert forall|l: int| 0 <= l < init.len() implies init[l] == #[trigger] summaries[l] by {}
    } else {
        assert(summaries[0].start_epoch == crate::search::earliest_start(summaries));
        assert(summaries[0].end_epoch == crate::search::latest_end(summaries));
    }
}

/// The map of all domains gives each identifier the domain that it has on its own.
pub proof fn law_domains_agree(
    kernels: Seq<(Seq<char>, SPK)>,
    domains: Map<NaifId, (Epoch, Epoch)>,
    id: NaifId,
)
    requires
        crate::search::is_domain_map(crate::search::records_of(kernels), domains),
    ensures
        domains.contains_key(id) <==> crate::search::latest(kernels, SummaryKey::Id(id)) is Some,
        domains.contains_key(id) ==> domains[id] == (
            crate::search::earliest_start(crate::search::summaries_of(kernels, id)),
            crate::search::latest_end(crate::search::summaries_of(kernels, id)),
        ),
{
    law_known_ids_have_summaries(kernels, id);
}

/// Summaries are listed in reverse loading order: those of the kernel that is loaded last come before
/// all others.
pub proof fn law_summaries_are_in_reverse_loading_order(
    kernels: Seq<(Seq<char>, SPK)>,
    alias: Seq<char>,
    spk: SPK,
    id: NaifId,
)
    ensures
        crate::search::summaries_of(crate::search::loaded(kernels, alias, spk), id)
            == crate::search::with_id(spk.records(), id) + crate::search::summaries_of(
            crate::search::without(kernels, alias),
            id,
        ),
{
    let rest = crate::search::without(kernels, alias);
    let more = crate::search::loaded(kernels, alias, spk);
    lemma_records_of_prefix(rest, more, rest.len() as int);
    lemma_with_id_concat(spk.records(), crate::search::records_of(rest), id);
}

/// The instants are strictly and totally ordered.
pub proof fn law_epochs_are_totally_ordered(a: Epoch, b: Epoch, c: Epoch)
    ensures
        !a.precedes(a),
        a.precedes(b) && b.precedes(c) ==> a.precedes(c),
        a.precedes(b) || b.precedes(a) || a == b,
{
}

/// Seconds compare as numbers do: those that are numbers are totally ordered, the two zeros are
/// the same, and what is not a number compares with nothing.
pub proof fn law_et_seconds_compare_as_numbers(a: EtSeconds, b: EtSeconds, c: EtSeconds)
    ensures
        !a.is_nan() && !b.is_nan() ==> a.at_most(b) || b.at_most(a),
        a.at_most(b) && b.at_most(c) ==> a.at_most(c),
        a.same_as(b) <==> a.at_most(b) && b.at_most(a),
        a.is_nan() ==> !a.at_most(b) && !b.at_most(a) && !a.same_as(a),
        (EtSeconds { bits: 0 }).same_as(EtSeconds { bits: 0x8000_0000_0000_0000 }),
{
}

/// On instants whose nanoseconds lie within a century, the order is that of the total count.
pub proof fn law_order_counts_nanoseconds(a: Epoch, b: Epoch)
    requires
        a.since_j2000.nanoseconds < NANOSECONDS_PER_CENTURY,
        b.since_j2000.nanoseconds < NANOSECONDS_PER_CENTURY,
    ensures
        a.precedes(b) <==> a.ns() < b.ns(),
{
    let (x, y) = (a.since_j2000, b.since_j2000);
    if x.centuries < y.centuries {
        assert((x.centuries + 1) * NANOSECONDS_PER_CENTURY <= y.centuries
            * NANOSECONDS_PER_CENTURY);
    } else if y.centuries < x.centuries {
        assert((y.centuries + 1) * NANOSECONDS_PER_CENTURY <= x.centuries
            * NANOSECONDS_PER_CENTURY);
    }
}

proof fn lemma_records_of_prefix(
    kernels: Seq<(Seq<char>, SPK)>,
    more: Seq<(Seq<char>, SPK)>,
    n: int,
)
    requires
        0 <= n <= kernels.len() <= more.len(),
        forall|i: int| 0 <= i < n ==> kernels[i] == more[i],
    ensures
        crate::search::records_of_first(kernels, n) == crate::search::records_of_first(more, n),
    decreases n,
{
    if n > 0 {
        lemma_records_of_prefix(kernels, more, n - 1);
    }
}

proof fn lemma_with_id_concat(a: Seq<SPKSummaryRecord>, b: Seq<SPKSummaryRecord>, id: NaifId)
    ensures
        crate::search::with_id(a + b, id) == crate::search::with_id(a, id)
            + crate::search::with_id(b, id),
    decreases b.len(),
{
    if b.len() == 0 {
        assert(a + b =~= a);
        assert(crate::search::with_id(a, id) + crate::search::with_id(b, id)
            =~= crate::search::with_id(a, id));
    } else {
        assert((a + b).drop_last() =~= a + b.drop_last());
        lemma_with_id_concat(a, b.drop_last(), id);
        assert(crate::search::with_id(a + b, id) =~= crate::search::with_id(a, id)
            + crate::search::with_id(b, id));
    }
}

/// The summaries of an identifier are those of all summaries that have it.
proof fn lemma_with_id(records: Seq<SPKSummaryRecord>, id: NaifId)
    ensures
        forall|i: int|
            #![trigger crate::search::with_id(records, id)[i]]
            0 <= i < crate::search::with_id(records, id).len() ==> crate::search::with_id(
                records,
                id,
            )[i].target_id == id && records.contains(crate::search::with_id(records, id)[i]),
        forall|j: int|
            0 <= j < records.len() && (#[trigger] records[j]).target_id == id
                ==> crate::search::with_id(records, id).contains(records[j]),
    decreases records.len(),
{
    if records.len() > 0 {
        let init = records.drop_last();
        let fewer = crate::search::with_id(init, id);
        let found = crate::search::with_id(records, id);
        lemma_with_id(init, id);
        assert forall|i: int| #![trigger found[i]] 0 <= i < found.len() implies found[i].target_id
            == id && records.contains(found[i]) by {
            if i < fewer.len() {
                assert(found[i] == fewer[i]);
                let j = choose|j: int| 0 <= j < init.len() && init[j] == fewer[i];
                assert(records[j] == found[i]);
            } else {
                assert(records[records.len() - 1] == found[i]);
            }
        }
        assert forall|j: int|
            0 <= j < records.len() && (#[trigger] records[j]).target_id
                == id implies found.contains(records[j]) by {
            if j < init.len() {
                assert(init[j] == records[j]);
                let i = choose|i: int| 0 <= i < fewer.len() && fewer[i] == init[j];
                assert(found[i] == records[j]);
            } else {
                assert(found[found.len() - 1] == records[j]);
            }
        }
    }
}

/// A summary of a kernel is listed under its identifier.
proof fn lemma_summary_is_listed(kernels: Seq<(Seq<char>, SPK)>, n: int, b: int, k: int)
    requires
        0 <= n < kernels.len(),
        kernels[n].1.has(b, k),
    ensures
        crate::search::summaries_of(
            kernels,
            kernels[n].1.record_at(b, k).target_id,
        ).contains(kernels[n].1.record_at(b, k)),
        crate::search::summaries_of(kernels, kernels[n].1.record_at(b, k).target_id).len() > 0,
{
    let summary = kernels[n].1.record_at(b, k);
    lemma_record_is_in_file(kernels[n].1, b, k, kernels[n].1.blocks@.len() as int);
    lemma_record_is_in_order(kernels, n, summary, kernels.len() as int);
    lemma_with_id(crate::search::records_of(kernels), summary.target_id);
    let j = choose|j: int|
        0 <= j < crate::search::records_of(kernels).len() && crate::search::records_of(kernels)[j]
            == summary;
    assert(crate::search::records_of(kernels)[j].target_id == summary.target_id);
}

proof fn lemma_contains_concat(a: Seq<SPKSummaryRecord>, b: Seq<SPKSummaryRecord>)
    ensures
        forall|x: SPKSummaryRecord| #[trigger]
            (a + b).contains(x) <==> a.contains(x) || b.contains(x),
{
    assert forall|x: SPKSummaryRecord| #[trigger] (a + b).contains(x) <==> a.contains(x)
        || b.contains(x) by {
        if a.contains(x) {
            let i = choose|i: int| 0 <= i < a.len() && a[i] == x;
            assert((a + b)[i] == x);
        }
        if b.contains(x) {
            let i = choose|i: int| 0 <= i < b.len() && b[i] == x;
            assert((a + b)[a.len() + i] == x);
        }
    }
}

proof fn lemma_record_is_in_file(spk: SPK, b: int, k: int, n: int)
    requires
        spk.has(b, k),
        b < n <= spk.blocks@.len(),
    ensures
        spk.records_before(n).contains(spk.record_at(b, k)),
    decreases n,
{
    lemma_contains_concat(spk.records_before(n - 1), spk.blocks@[n - 1].records());
    if b < n - 1 {
        lemma_record_is_in_file(spk, b, k, n - 1);
    } else {
        assert(spk.blocks@[b].records()[k] == spk.record_at(b, k));
    }
}

proof fn lemma_record_is_in_order(
    kernels: Seq<(Seq<char>, SPK)>,
    n: int,
    summary: SPKSummaryRecord,
    m: int,
)
    requires
        0 <= n < m <= kernels.len(),
        kernels[n].1.records().contains(summary),
    ensures
        crate::search::records_of_first(kernels, m).contains(summary),
    decreases m,
{
    lemma_contains_concat(
        kernels[m - 1].1.records(),
        crate::search::records_of_first(kernels, m - 1),
    );
    if n < m - 1 {
        lemma_record_is_in_order(kernels, n, summary, m - 1);
    }
}

proof fn lemma_listed_summary_is_somewhere(
    kernels: Seq<(Seq<char>, SPK)>,
    m: int,
    summary: SPKSummaryRecord,
)
    requires
        0 <= m <= kernels.len(),
        crate::search::records_of_first(kernels, m).contains(summary),
    ensures
        exists|n: int| 0 <= n < m && #[trigger] kernels[n].1.records().contains(summary),
    decreases m,
{
    if m > 0 {
        lemma_contains_concat(
            kernels[m - 1].1.records(),
            crate::search::records_of_first(kernels, m - 1),
        );
        if !kernels[m - 1].1.records().contains(summary) {
            lemma_listed_summary_is_somewhere(kernels, m - 1, summary);
        }
    }
}

proof fn lemma_record_is_somewhere(spk: SPK, n: int, summary: SPKSummaryRecord)
    requires
        0 <= n <= spk.blocks@.len(),
        spk.records_before(n).contains(summary),
    ensures
        exists|b: int, k: int| spk.has(b, k) && #[trigger] spk.record_at(b, k) == summary,
    decreases n,
{
    if n > 0 {
        lemma_contains_concat(spk.records_before(n - 1), spk.blocks@[n - 1].records());
        if spk.records_before(n - 1).contains(summary) {
            lemma_record_is_somewhere(spk, n - 1, summary);
        } else {
            let last = spk.blocks@[n - 1].records();
            let k = choose|k: int| 0 <= k < last.len() && last[k] == summary;
            assert(spk.has(n - 1, k) && spk.record_at(n - 1, k) == summary);
        }
    }
}

} // verus!
