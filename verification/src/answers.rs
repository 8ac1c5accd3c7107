//! What queries answer, in terms of the segments that the kernels store.

use vstd::prelude::*;

use crate::epoch::Epoch;
use crate::error::{DAFError, EphemerisError};
use crate::spk::{SPKSummaryRecord, SummaryKey, SPK};
use crate::NaifId;

verus! {

/// A search of one kernel for an identifier finds the first summary in file order that has it, if there
/// is one.
pub proof fn law_a_kernel_finds_the_first_of_an_id(spk: SPK, id: NaifId)
    ensures
        match spk.find(SummaryKey::Id(id)) {
            Some((b, k)) => {
                &&& 0 <= b < spk.blocks@.len() && spk.blocks@[b].summaries is Some
                    && 0 <= k < spk.blocks@[b].summaries->0@.len()
                &&& spk.blocks@[b].summaries->0@[k].target_id == id
                &&& forall|c: int, l: int|
                    0 <= c < spk.blocks@.len() && spk.blocks@[c].summaries is Some
                        && 0 <= l < spk.blocks@[c].summaries->0@.len() && (c < b || (c == b
                        && l < k))
                        ==> (#[trigger] spk.blocks@[c].summaries->0@[l]).target_id != id
            },
            None => forall|c: int, l: int|
                0 <= c < spk.blocks@.len() && spk.blocks@[c].summaries is Some
                    && 0 <= l < spk.blocks@[c].summaries->0@.len()
                    ==> (#[trigger] spk.blocks@[c].summaries->0@[l]).target_id != id,
        },
{
    let key = SummaryKey::Id(id);
    spk.lemma_find(key);
    assert forall|c: int, l: int|
        0 <= c < spk.blocks@.len() && spk.blocks@[c].summaries is Some
            && 0 <= l < spk.blocks@[c].summaries->0@.len() && !spk.blocks@[c].stops(key, l)
            implies (#[trigger] spk.blocks@[c].summaries->0@[l]).target_id != id by {}
    assert forall|c: int, l: int|
        0 <= c < spk.blocks@.len() && spk.blocks@[c].summaries is Some
            && 0 <= l < spk.blocks@[c].summaries->0@.len() implies spk.has(c, l)
            && #[trigger] spk.blocks@[c].summaries->0@[l] == spk.record_at(c, l) by {}
}

/// A search of one kernel for an identifier at an instant finds the first summary in file order that
/// has it and data within 100 ns of the instant, if there is one.
pub proof fn law_a_kernel_finds_the_first_with_data(spk: SPK, id: NaifId, epoch: Epoch)
    ensures
        match spk.find(SummaryKey::IdAt(id, epoch)) {
            Some((b, k)) => {
                &&& 0 <= b < spk.blocks@.len() && spk.blocks@[b].summaries is Some
                    && 0 <= k < spk.blocks@[b].summaries->0@.len()
                &&& spk.blocks@[b].summaries->0@[k].target_id == id
                    && spk.blocks@[b].summaries->0@[k].start_epoch.ns() - 100 <= epoch.ns()
                        <= spk.blocks@[b].summaries->0@[k].end_epoch.ns() + 100
                &&& forall|c: int, l: int|
                    0 <= c < spk.blocks@.len() && spk.blocks@[c].summaries is Some
                        && 0 <= l < spk.blocks@[c].summaries->0@.len() && (c < b || (c == b
                        && l < k))
                        ==> !((#[trigger] spk.blocks@[c].summaries->0@[l]).target_id == id
                            && spk.blocks@[c].summaries->0@[l].start_epoch.ns() - 100
                                <= epoch.ns()
                                <= spk.blocks@[c].summaries->0@[l].end_epoch.ns() + 100)
            },
            None => forall|c: int, l: int|
                0 <= c < spk.blocks@.len() && spk.blocks@[c].summaries is Some
                    && 0 <= l < spk.blocks@[c].summaries->0@.len()
                    ==> !((#[trigger] spk.blocks@[c].summaries->0@[l]).target_id == id
                    && spk.blocks@[c].summaries->0@[l].start_epoch.ns() - 100 <= epoch.ns()
                        <= spk.blocks@[c].summaries->0@[l].end_epoch.ns() + 100),
        },
{
    let key = SummaryKey::IdAt(id, epoch);
    spk.lemma_find(key);
    assert forall|c: int, l: int|
        0 <= c < spk.blocks@.len() && spk.blocks@[c].summaries is Some
            && 0 <= l < spk.blocks@[c].summaries->0@.len() && !spk.blocks@[c].stops(key, l)
            implies !((#[trigger] spk.blocks@[c].summaries->0@[l]).target_id == id
            && spk.blocks@[c].summaries->0@[l].start_epoch.ns() - 100 <= epoch.ns()
                <= spk.blocks@[c].summaries->0@[l].end_epoch.ns() + 100) by {}
    assert forall|c: int, l: int|
        0 <= c < spk.blocks@.len() && spk.blocks@[c].summaries is Some
            && 0 <= l < spk.blocks@[c].summaries->0@.len() implies spk.has(c, l)
            && #[trigger] spk.blocks@[c].summaries->0@[l] == spk.record_at(c, l) by {}
}

/// A search of one kernel for a name finds the first summary in file order that has it, if there is
/// one.
pub proof fn law_a_kernel_finds_the_first_of_a_name(spk: SPK, name: Seq<char>)
    ensures
        match spk.find(SummaryKey::Name(name)) {
            Some((b, k)) => {
                &&& 0 <= b < spk.blocks@.len() && spk.blocks@[b].summaries is Some
                    && 0 <= k < spk.blocks@[b].summaries->0@.len()
                &&& k < spk.blocks@[b].names@.len() && spk.blocks@[b].names@[k]@ == name
                &&& forall|c: int, l: int|
                    0 <= c < spk.blocks@.len() && spk.blocks@[c].summaries is Some
                        && 0 <= l < spk.blocks@[c].summaries->0@.len() && (c < b || (c == b
                        && l < k))
                        ==> !(l < spk.blocks@[c].names@.len()
                            && (#[trigger] spk.blocks@[c].names@[l])@ == name)
            },
            None => forall|c: int, l: int|
                0 <= c < spk.blocks@.len() && spk.blocks@[c].summaries is Some
                    && 0 <= l < spk.blocks@[c].summaries->0@.len()
                    ==> !(l < spk.blocks@[c].names@.len()
                    && (#[trigger] spk.blocks@[c].names@[l])@ == name),
        },
{
    let key = SummaryKey::Name(name);
    spk.lemma_find(key);
    assert forall|c: int, l: int|
        0 <= c < spk.blocks@.len() && spk.blocks@[c].summaries is Some
            && 0 <= l < spk.blocks@[c].summaries->0@.len() && !spk.blocks@[c].stops(key, l)
            implies !(l < spk.blocks@[c].names@.len()
            && (#[trigger] spk.blocks@[c].names@[l])@ == name) by {}
    assert forall|c: int, l: int|
        0 <= c < spk.blocks@.len() && spk.blocks@[c].summaries is Some
            && 0 <= l < spk.blocks@[c].summaries->0@.len() implies spk.has(c, l)
            && #[trigger] spk.blocks@[c].summaries->0@[l] == spk.record_at(c, l) by {}
}

/// A search of one kernel for a name at an instant finds what a search for the name finds, provided
/// that this has data within 100 ns of the instant.
pub proof fn law_a_kernel_finds_a_name_with_data(spk: SPK, name: Seq<char>, epoch: Epoch)
    ensures
        spk.find(SummaryKey::NameAt(name, epoch)) == (match spk.find(SummaryKey::Name(name)) {
            Some((b, k)) => if spk.blocks@[b].summaries->0@[k].start_epoch.ns() - 100
                    <= epoch.ns() <= spk.blocks@[b].summaries->0@[k].end_epoch.ns() + 100 {
                Some((b, k))
            } else {
                None
            },
            None => None,
        }),
{
    let (key, by_name) = (SummaryKey::NameAt(name, epoch), SummaryKey::Name(name));
    spk.lemma_find(key);
    spk.lemma_find(by_name);
    if let Some((b, k)) = spk.find(by_name) {
        assert(spk.blocks@[b].stops(key, k));
        if let Some((c, l)) = spk.find(key) {
            assert(spk.blocks@[c].stops(by_name, l));
        }
    } else if let Some((c, l)) = spk.find(key) {
        assert(spk.blocks@[c].stops(by_name, l));
    }
}

/// What a search finds, it finds in the last kernel in which it stops anywhere, and at the first
/// place there; what it does not find is nowhere.
proof fn lemma_answer(
    kernels: Seq<(Seq<char>, SPK)>,
    key: SummaryKey,
    r: Result<(&SPKSummaryRecord, usize, Option<usize>, usize), EphemerisError>,
)
    requires
        crate::search::is_answer(kernels, key, r),
        !(key is NameAt),
    ensures
        match r {
            Ok((summary, spk_no, daf_idx, idx)) => {
                let spk = kernels[spk_no as int].1;
                let (b, k) = spk.find(key)->0;
                &&& spk_no < kernels.len()
                &&& spk.is_at(b, k, *summary, daf_idx, idx)
                &&& spk.blocks@[b].stops(key, k)
                &&& forall|c: int, l: int|
                    spk.has(c, l) && (c < b || (c == b && l < k))
                        ==> !#[trigger] spk.blocks@[c].stops(key, l)
                &&& forall|m: int, c: int, l: int|
                    spk_no < m < kernels.len() && kernels[m].1.has(c, l)
                        ==> !#[trigger] kernels[m].1.blocks@[c].stops(key, l)
            },
            Err(error) => forall|m: int, c: int, l: int|
                0 <= m < kernels.len() && kernels[m].1.has(c, l)
                    ==> !#[trigger] kernels[m].1.blocks@[c].stops(key, l),
        },
{
    crate::search::lemma_latest_before(kernels, key, kernels.len() as int);
    if let Ok((_, spk_no, _, _)) = r {
        kernels[spk_no as int].1.lemma_find(key);
    }
    assert forall|m: int, c: int, l: int|
        0 <= m < kernels.len() && kernels[m].1.find(key) is None && kernels[m].1.has(
            c,
            l,
        ) implies !#[trigger] kernels[m].1.blocks@[c].stops(key, l) by {
        kernels[m].1.lemma_find(key);
    }
}

/// A query by identifier answers with a summary of the identifier, the first in file order of its
/// kernel, and no kernel loaded later stores one. It fails only if no kernel stores one.
pub proof fn law_a_query_by_id_finds_the_first_of_the_id(
    kernels: Seq<(Seq<char>, SPK)>,
    id: NaifId,
    r: Result<(&SPKSummaryRecord, usize, Option<usize>, usize), EphemerisError>,
)
    requires
        crate::search::is_answer(kernels, SummaryKey::Id(id), r),
    ensures
        match r {
            Ok((summary, spk_no, daf_idx, idx)) => {
                let spk = kernels[spk_no as int].1;
                &&& spk_no < kernels.len()
                &&& exists|b: int| {
                    &&& 0 <= b < spk.blocks@.len()
                    &&& (#[trigger] spk.blocks@[b]).daf_idx == daf_idx
                    &&& spk.blocks@[b].summaries is Some
                    &&& idx < spk.blocks@[b].summaries->0@.len()
                    &&& spk.blocks@[b].summaries->0@[idx as int] == *summary
                    &&& spk.blocks@[b].summaries->0@[idx as int].target_id == id
                    &&& forall|c: int, l: int|
                        0 <= c < spk.blocks@.len() && spk.blocks@[c].summaries is Some
                            && 0 <= l < spk.blocks@[c].summaries->0@.len() && (c < b || (c == b
                            && l < idx))
                            ==> (#[trigger] spk.blocks@[c].summaries->0@[l]).target_id != id
                }
                &&& forall|m: int, c: int, l: int|
                    spk_no < m < kernels.len() && 0 <= c < kernels[m].1.blocks@.len()
                        && kernels[m].1.blocks@[c].summaries is Some
                        && 0 <= l < kernels[m].1.blocks@[c].summaries->0@.len()
                        ==> (#[trigger] kernels[m].1.blocks@[c].summaries->0@[l]).target_id != id
            },
            Err(error) => {
                &&& forall|m: int, c: int, l: int|
                    0 <= m < kernels.len() && 0 <= c < kernels[m].1.blocks@.len()
                        && kernels[m].1.blocks@[c].summaries is Some
                        && 0 <= l < kernels[m].1.blocks@[c].summaries->0@.len()
                        ==> (#[trigger] kernels[m].1.blocks@[c].summaries->0@[l]).target_id != id
                &&& error matches EphemerisError::SPK {
                    action,
                    source: DAFError::SummaryIdError { kind, id: unknown },
                } && action@ == "searching for SPK summary"@ && kind@ == "SPK"@ && unknown == id
            },
        },
{
    let key = SummaryKey::Id(id);
    lemma_answer(kernels, key, r);
    if let Ok((summary, spk_no, daf_idx, idx)) = r {
        let spk = kernels[spk_no as int].1;
        let (b, k) = spk.find(key)->0;
        assert(spk.blocks@[b].daf_idx == daf_idx);
        assert forall|c: int, l: int|
            0 <= c < spk.blocks@.len() && spk.blocks@[c].summaries is Some
                && 0 <= l < spk.blocks@[c].summaries->0@.len() && (c < b || (c == b && l < idx))
                implies (#[trigger] spk.blocks@[c].summaries->0@[l]).target_id != id by {
            assert(spk.has(c, l));
            assert(!spk.blocks@[c].stops(key, l));
        }
        assert forall|m: int, c: int, l: int|
            spk_no < m < kernels.len() && 0 <= c < kernels[m].1.blocks@.len()
                && kernels[m].1.blocks@[c].summaries is Some
                && 0 <= l < kernels[m].1.blocks@[c].summaries->0@.len()
                implies (#[trigger] kernels[m].1.blocks@[c].summaries->0@[l]).target_id != id by {
            assert(kernels[m].1.has(c, l));
            assert(!kernels[m].1.blocks@[c].stops(key, l));
        }
    } else {
        assert forall|m: int, c: int, l: int|
            0 <= m < kernels.len() && 0 <= c < kernels[m].1.blocks@.len()
                && kernels[m].1.blocks@[c].summaries is Some
                && 0 <= l < kernels[m].1.blocks@[c].summaries->0@.len()
                implies (#[trigger] kernels[m].1.blocks@[c].summaries->0@[l]).target_id != id by {
            assert(kernels[m].1.has(c, l));
            assert(!kernels[m].1.blocks@[c].stops(key, l));
        }
    }
}

/// A query by name answers with the first summary in file order of its kernel, in whichever record,
/// that has the name, and no kernel loaded later stores one. It fails only if no kernel stores one.
pub proof fn law_a_query_by_name_finds_the_first_of_the_name(
    kernels: Seq<(Seq<char>, SPK)>,
    name: Seq<char>,
    r: Result<(&SPKSummaryRecord, usize, Option<usize>, usize), EphemerisError>,
)
    requires
        crate::search::is_answer(kernels, SummaryKey::Name(name), r),
    ensures
        match r {
            Ok((summary, spk_no, daf_idx, idx)) => {
                let spk = kernels[spk_no as int].1;
                &&& spk_no < kernels.len()
                &&& exists|b: int| {
                    &&& 0 <= b < spk.blocks@.len()
                    &&& (#[trigger] spk.blocks@[b]).daf_idx == daf_idx
                    &&& spk.blocks@[b].summaries is Some
                    &&& idx < spk.blocks@[b].summaries->0@.len()
                    &&& spk.blocks@[b].summaries->0@[idx as int] == *summary
                    &&& idx < spk.blocks@[b].names@.len()
                        && spk.blocks@[b].names@[idx as int]@ == name
                    &&& forall|c: int, l: int|
                        0 <= c < spk.blocks@.len() && spk.blocks@[c].summaries is Some
                            && 0 <= l < spk.blocks@[c].summaries->0@.len() && (c < b || (c == b
                            && l < idx))
                            ==> !(l < spk.blocks@[c].names@.len()
                                && (#[trigger] spk.blocks@[c].names@[l])@ == name)
                }
                &&& forall|m: int, c: int, l: int|
                    spk_no < m < kernels.len() && 0 <= c < kernels[m].1.blocks@.len()
                        && kernels[m].1.blocks@[c].summaries is Some
                        && 0 <= l < kernels[m].1.blocks@[c].summaries->0@.len()
                        ==> !(l < kernels[m].1.blocks@[c].names@.len()
                            && (#[trigger] kernels[m].1.blocks@[c].names@[l])@ == name)
            },
            Err(error) => {
                &&& forall|m: int, c: int, l: int|
                    0 <= m < kernels.len() && 0 <= c < kernels[m].1.blocks@.len()
                        && kernels[m].1.blocks@[c].summaries is Some
                        && 0 <= l < kernels[m].1.blocks@[c].summaries->0@.len()
                        ==> !(l < kernels[m].1.blocks@[c].names@.len()
                            && (#[trigger] kernels[m].1.blocks@[c].names@[l])@ == name)
                &&& error matches EphemerisError::SPK {
                    action,
                    source: DAFError::SummaryNameError { kind, name: unknown },
                } && action@ == "searching for SPK summary"@ && kind@ == "SPK"@ && unknown@ == name
            },
        },
{
    let key = SummaryKey::Name(name);
    lemma_answer(kernels, key, r);
    if let Ok((summary, spk_no, daf_idx, idx)) = r {
        let spk = kernels[spk_no as int].1;
        let (b, k) = spk.find(key)->0;
        assert(spk.blocks@[b].daf_idx == daf_idx);
        assert forall|c: int, l: int|
            0 <= c < spk.blocks@.len() && spk.blocks@[c].summaries is Some
                && 0 <= l < spk.blocks@[c].summaries->0@.len() && (c < b || (c == b && l < idx))
                implies !(l < spk.blocks@[c].names@.len()
                && (#[trigger] spk.blocks@[c].names@[l])@ == name) by {
            assert(spk.has(c, l));
            assert(!spk.blocks@[c].stops(key, l));
        }
        assert forall|m: int, c: int, l: int|
            spk_no < m < kernels.len() && 0 <= c < kernels[m].1.blocks@.len()
                && kernels[m].1.blocks@[c].summaries is Some
                && 0 <= l < kernels[m].1.blocks@[c].summaries->0@.len()
                implies !(l < kernels[m].1.blocks@[c].names@.len()
                && (#[trigger] kernels[m].1.blocks@[c].names@[l])@ == name) by {
            assert(kernels[m].1.has(c, l));
            assert(!kernels[m].1.blocks@[c].stops(key, l));
        }
    } else {
        assert forall|m: int, c: int, l: int|
            0 <= m < kernels.len() && 0 <= c < kernels[m].1.blocks@.len()
                && kernels[m].1.blocks@[c].summaries is Some
                && 0 <= l < kernels[m].1.blocks@[c].summaries->0@.len()
                implies !(l < kernels[m].1.blocks@[c].names@.len()
                && (#[trigger] kernels[m].1.blocks@[c].names@[l])@ == name) by {
            assert(kernels[m].1.has(c, l));
            assert(!kernels[m].1.blocks@[c].stops(key, l));
        }
    }
}

/// A query by identifier at an instant answers with the first summary in file order of its kernel
/// that has the identifier and data within 100 ns of the instant, and no kernel loaded later stores
/// one. It fails only if no kernel stores one, and the error tells an identifier that is nowhere from
/// one that has its data elsewhere.
pub proof fn law_a_query_at_an_epoch_finds_the_first_with_data(
    kernels: Seq<(Seq<char>, SPK)>,
    id: NaifId,
    epoch: Epoch,
    r: Result<(&SPKSummaryRecord, usize, Option<usize>, usize), EphemerisError>,
)
    requires
        crate::search::is_answer(kernels, SummaryKey::IdAt(id, epoch), r),
    ensures
        match r {
            Ok((summary, spk_no, daf_idx, idx)) => {
                let spk = kernels[spk_no as int].1;
                &&& spk_no < kernels.len()
                &&& exists|b: int| {
                    &&& 0 <= b < spk.blocks@.len()
                    &&& (#[trigger] spk.blocks@[b]).daf_idx == daf_idx
                    &&& spk.blocks@[b].summaries is Some
                    &&& idx < spk.blocks@[b].summaries->0@.len()
                    &&& spk.blocks@[b].summaries->0@[idx as int] == *summary
                    &&& spk.blocks@[b].summaries->0@[idx as int].target_id == id
                        && spk.blocks@[b].summaries->0@[idx as int].start_epoch.ns() - 100
                            <= epoch.ns()
                            <= spk.blocks@[b].summaries->0@[idx as int].end_epoch.ns() + 100
                    &&& forall|c: int, l: int|
                        0 <= c < spk.blocks@.len() && spk.blocks@[c].summaries is Some
                            && 0 <= l < spk.blocks@[c].summaries->0@.len() && (c < b || (c == b
                            && l < idx))
                            ==> !((#[trigger] spk.blocks@[c].summaries->0@[l]).target_id == id
                                && spk.blocks@[c].summaries->0@[l].start_epoch.ns() - 100
                                    <= epoch.ns()
                                    <= spk.blocks@[c].summaries->0@[l].end_epoch.ns() + 100)
                }
                &&& forall|m: int, c: int, l: int|
                    spk_no < m < kernels.len() && 0 <= c < kernels[m].1.blocks@.len()
                        && kernels[m].1.blocks@[c].summaries is Some
                        && 0 <= l < kernels[m].1.blocks@[c].summaries->0@.len()
                        ==> !((#[trigger] kernels[m].1.blocks@[c].summaries->0@[l]).target_id == id
                            && kernels[m].1.blocks@[c].summaries->0@[l].start_epoch.ns() - 100
                                <= epoch.ns()
                                <= kernels[m].1.blocks@[c].summaries->0@[l].end_epoch.ns() + 100)
            },
            Err(error) => {
                &&& forall|m: int, c: int, l: int|
                    0 <= m < kernels.len() && 0 <= c < kernels[m].1.blocks@.len()
                        && kernels[m].1.blocks@[c].summaries is Some
                        && 0 <= l < kernels[m].1.blocks@[c].summaries->0@.len()
                        ==> !((#[trigger] kernels[m].1.blocks@[c].summaries->0@[l]).target_id == id
                            && kernels[m].1.blocks@[c].summaries->0@[l].start_epoch.ns() - 100
                                <= epoch.ns()
                                <= kernels[m].1.blocks@[c].summaries->0@[l].end_epoch.ns() + 100)
                &&& if forall|m: int, c: int, l: int|
                    0 <= m < kernels.len() && 0 <= c < kernels[m].1.blocks@.len()
                        && kernels[m].1.blocks@[c].summaries is Some
                        && 0 <= l < kernels[m].1.blocks@[c].summaries->0@.len()
                        ==> (#[trigger] kernels[m].1.blocks@[c].summaries->0@[l]).target_id != id {
                    error matches EphemerisError::SPK {
                    action,
                    source: DAFError::SummaryIdError { kind, id: unknown },
                } && action@ == "searching for SPK summary"@ && kind@ == "SPK"@ && unknown == id
                } else {
                    match error {
                        EphemerisError::SPK {
                            action,
                            source: DAFError::SummaryIdAtEpochError {
                                kind,
                                id: i,
                                epoch: e,
                                start,
                                end,
                            },
                        } => {
                            &&& action@ == "searching for SPK summary"@
                            &&& kind@ == "SPK"@
                            &&& i == id
                            &&& e == epoch
                            &&& start
                                == crate::search::earliest_start(
                                crate::search::summaries_of(kernels, id),
                            )
                            &&& end
                                == crate::search::latest_end(
                                crate::search::summaries_of(kernels, id),
                            )
                        },
                        _ => false,
                    }
                }
            },
        },
{
    let key = SummaryKey::IdAt(id, epoch);
    lemma_answer(kernels, key, r);
    if let Ok((summary, spk_no, daf_idx, idx)) = r {
        let spk = kernels[spk_no as int].1;
        let (b, k) = spk.find(key)->0;
        assert(spk.blocks@[b].daf_idx == daf_idx);
        assert forall|c: int, l: int|
            0 <= c < spk.blocks@.len() && spk.blocks@[c].summaries is Some
                && 0 <= l < spk.blocks@[c].summaries->0@.len() && (c < b || (c == b && l < idx))
                implies !((#[trigger] spk.blocks@[c].summaries->0@[l]).target_id == id
                && spk.blocks@[c].summaries->0@[l].start_epoch.ns() - 100 <= epoch.ns()
                    <= spk.blocks@[c].summaries->0@[l].end_epoch.ns() + 100) by {
            assert(spk.has(c, l));
            assert(!spk.blocks@[c].stops(key, l));
        }
        assert forall|m: int, c: int, l: int|
            spk_no < m < kernels.len() && 0 <= c < kernels[m].1.blocks@.len()
                && kernels[m].1.blocks@[c].summaries is Some
                && 0 <= l < kernels[m].1.blocks@[c].summaries->0@.len()
                implies !((#[trigger] kernels[m].1.blocks@[c].summaries->0@[l]).target_id == id
                && kernels[m].1.blocks@[c].summaries->0@[l].start_epoch.ns() - 100 <= epoch.ns()
                    <= kernels[m].1.blocks@[c].summaries->0@[l].end_epoch.ns() + 100) by {
            assert(kernels[m].1.has(c, l));
            assert(!kernels[m].1.blocks@[c].stops(key, l));
        }
    } else {
        assert forall|m: int, c: int, l: int|
            0 <= m < kernels.len() && 0 <= c < kernels[m].1.blocks@.len()
                && kernels[m].1.blocks@[c].summaries is Some
                && 0 <= l < kernels[m].1.blocks@[c].summaries->0@.len()
                implies !((#[trigger] kernels[m].1.blocks@[c].summaries->0@[l]).target_id == id
                && kernels[m].1.blocks@[c].summaries->0@[l].start_epoch.ns() - 100 <= epoch.ns()
                    <= kernels[m].1.blocks@[c].summaries->0@[l].end_epoch.ns() + 100) by {
            assert(kernels[m].1.has(c, l));
            assert(!kernels[m].1.blocks@[c].stops(key, l));
        }
        crate::listing::lemma_known_ids_are_listed(kernels, id);
    }
}

/// Wherever a kernel stores a segment of an identifier with data within 100 ns of an instant, a query
/// is answered, by this kernel or one loaded later, and with the first such segment that the
/// answering kernel stores.
pub proof fn law_stored_data_are_found(
    kernels: Seq<(Seq<char>, SPK)>,
    id: NaifId,
    epoch: Epoch,
    n: int,
    b: int,
    k: int,
)
    requires
        0 <= n < kernels.len(),
        0 <= b < kernels[n].1.blocks@.len(),
        kernels[n].1.blocks@[b].summaries is Some,
        0 <= k < kernels[n].1.blocks@[b].summaries->0@.len(),
        kernels[n].1.blocks@[b].summaries->0@[k].target_id == id,
        kernels[n].1.blocks@[b].summaries->0@[k].start_epoch.ns() - 100 <= epoch.ns()
                <= kernels[n].1.blocks@[b].summaries->0@[k].end_epoch.ns() + 100,
    ensures
        ({
            let key = SummaryKey::IdAt(id, epoch);
            let m = crate::search::latest(kernels, key)->0;
            let (c, l) = kernels[m].1.find(key)->0;
            &&& crate::search::latest(kernels, key) is Some
            &&& n <= m < kernels.len()
            &&& kernels[m].1.find(key) is Some
            &&& 0 <= c < kernels[m].1.blocks@.len() && kernels[m].1.blocks@[c].summaries is Some
                && 0 <= l < kernels[m].1.blocks@[c].summaries->0@.len()
            &&& kernels[m].1.blocks@[c].summaries->0@[l].target_id == id
                && kernels[m].1.blocks@[c].summaries->0@[l].start_epoch.ns() - 100 <= epoch.ns()
                    <= kernels[m].1.blocks@[c].summaries->0@[l].end_epoch.ns() + 100
            &&& forall|d: int, j: int|
                0 <= d < kernels[m].1.blocks@.len() && kernels[m].1.blocks@[d].summaries is Some
                    && 0 <= j < kernels[m].1.blocks@[d].summaries->0@.len() && (d < c || (d == c
                    && j < l))
                    ==> !((#[trigger] kernels[m].1.blocks@[d].summaries->0@[j]).target_id == id
                        && kernels[m].1.blocks@[d].summaries->0@[j].start_epoch.ns() - 100
                            <= epoch.ns()
                            <= kernels[m].1.blocks@[d].summaries->0@[j].end_epoch.ns() + 100)
        }),
{
    let key = SummaryKey::IdAt(id, epoch);
    crate::search::lemma_latest_before(kernels, key, kernels.len() as int);
    kernels[n].1.lemma_find(key);
    assert(kernels[n].1.has(b, k));
    assert(kernels[n].1.blocks@[b].stops(key, k));
    let m = crate::search::latest(kernels, key)->0;
    kernels[m].1.lemma_find(key);
    let (c, l) = kernels[m].1.find(key)->0;
    assert forall|d: int, j: int|
        0 <= d < kernels[m].1.blocks@.len() && kernels[m].1.blocks@[d].summaries is Some
            && 0 <= j < kernels[m].1.blocks@[d].summaries->0@.len() && (d < c || (d == c && j < l))
            implies !((#[trigger] kernels[m].1.blocks@[d].summaries->0@[j]).target_id == id
            && kernels[m].1.blocks@[d].summaries->0@[j].start_epoch.ns() - 100 <= epoch.ns()
                <= kernels[m].1.blocks@[d].summaries->0@[j].end_epoch.ns() + 100) by {
        assert(kernels[m].1.has(d, j));
        assert(!kernels[m].1.blocks@[d].stops(key, j));
    }
}

/// Wherever a kernel stores a summary of a name, in whichever record, a query by the name is answered,
/// by this kernel or one loaded later, and with the first summary of the name that the answering
/// kernel stores.
pub proof fn law_stored_names_are_found(
    kernels: Seq<(Seq<char>, SPK)>,
    name: Seq<char>,
    n: int,
    b: int,
    k: int,
)
    requires
        0 <= n < kernels.len(),
        0 <= b < kernels[n].1.blocks@.len(),
        kernels[n].1.blocks@[b].summaries is Some,
        0 <= k < kernels[n].1.blocks@[b].summaries->0@.len(),
        k < kernels[n].1.blocks@[b].names@.len(),
        kernels[n].1.blocks@[b].names@[k]@ == name,
    ensures
        ({
            let key = SummaryKey::Name(name);
            let m = crate::search::latest(kernels, key)->0;
            let (c, l) = kernels[m].1.find(key)->0;
            &&& crate::search::latest(kernels, key) is Some
            &&& n <= m < kernels.len()
            &&& kernels[m].1.find(key) is Some
            &&& 0 <= c < kernels[m].1.blocks@.len() && kernels[m].1.blocks@[c].summaries is Some
                && 0 <= l < kernels[m].1.blocks@[c].summaries->0@.len()
            &&& l < kernels[m].1.blocks@[c].names@.len()
                && kernels[m].1.blocks@[c].names@[l]@ == name
            &&& forall|d: int, j: int|
                0 <= d < kernels[m].1.blocks@.len() && kernels[m].1.blocks@[d].summaries is Some
                    && 0 <= j < kernels[m].1.blocks@[d].summaries->0@.len() && (d < c || (d == c
                    && j < l))
                    ==> !(j < kernels[m].1.blocks@[d].names@.len()
                        && (#[trigger] kernels[m].1.blocks@[d].names@[j])@ == name)
        }),
{
    let key = SummaryKey::Name(name);
    crate::search::lemma_latest_before(kernels, key, kernels.len() as int);
    kernels[n].1.lemma_find(key);
    assert(kernels[n].1.has(b, k));
    assert(kernels[n].1.blocks@[b].stops(key, k));
    let m = crate::search::latest(kernels, key)->0;
    kernels[m].1.lemma_find(key);
    let (c, l) = kernels[m].1.find(key)->0;
    assert forall|d: int, j: int|
        0 <= d < kernels[m].1.blocks@.len() && kernels[m].1.blocks@[d].summaries is Some
            && 0 <= j < kernels[m].1.blocks@[d].summaries->0@.len() && (d < c || (d == c && j < l))
            implies !(j < kernels[m].1.blocks@[d].names@.len()
            && (#[trigger] kernels[m].1.blocks@[d].names@[j])@ == name) by {
        assert(kernels[m].1.has(d, j));
        assert(!kernels[m].1.blocks@[d].stops(key, j));
    }
}

/// The first summary of a name in file order is the one that a search by the name finds.
proof fn lemma_first_of_name(spk: SPK, name: Seq<char>, b: int, k: int)
    requires
        0 <= b < spk.blocks@.len(),
        spk.blocks@[b].summaries is Some,
        0 <= k < spk.blocks@[b].summaries->0@.len(),
        k < spk.blocks@[b].names@.len(),
        spk.blocks@[b].names@[k]@ == name,
        forall|d: int, j: int|
            0 <= d < spk.blocks@.len() && spk.blocks@[d].summaries is Some
                && 0 <= j < spk.blocks@[d].summaries->0@.len() && (d < b || (d == b && j < k))
                ==> !(j < spk.blocks@[d].names@.len()
                    && (#[trigger] spk.blocks@[d].names@[j])@ == name),
    ensures
        spk.find(SummaryKey::Name(name)) == Some((b, k)),
{
    let key = SummaryKey::Name(name);
    spk.lemma_find(key);
    assert(spk.has(b, k) && spk.blocks@[b].stops(key, k));
    let (c, l) = spk.find(key)->0;
    if c < b || (c == b && l < k) {
        assert(!(l < spk.blocks@[c].names@.len() && spk.blocks@[c].names@[l]@ == name));
    }
}

/// A query by name at an instant answers with the first summary of the name in file order of its
/// kernel, which has data within 100 ns of the instant. In no kernel loaded later does the first
/// summary of the name have data there, and if the query fails it has none in any kernel.
pub proof fn law_a_query_by_name_at_an_epoch_asks_the_first_of_the_name(
    kernels: Seq<(Seq<char>, SPK)>,
    name: Seq<char>,
    epoch: Epoch,
    r: Result<(&SPKSummaryRecord, usize, Option<usize>, usize), EphemerisError>,
)
    requires
        crate::search::is_answer(kernels, SummaryKey::NameAt(name, epoch), r),
    ensures
        match r {
            Ok((summary, spk_no, daf_idx, idx)) => {
                let spk = kernels[spk_no as int].1;
                &&& spk_no < kernels.len()
                &&& exists|b: int| {
                    &&& 0 <= b < spk.blocks@.len()
                    &&& (#[trigger] spk.blocks@[b]).daf_idx == daf_idx
                    &&& spk.blocks@[b].summaries is Some
                    &&& idx < spk.blocks@[b].summaries->0@.len()
                    &&& spk.blocks@[b].summaries->0@[idx as int] == *summary
                    &&& idx < spk.blocks@[b].names@.len()
                        && spk.blocks@[b].names@[idx as int]@ == name
                    &&& spk.blocks@[b].summaries->0@[idx as int].start_epoch.ns() - 100
                            <= epoch.ns()
                            <= spk.blocks@[b].summaries->0@[idx as int].end_epoch.ns() + 100
                    &&& forall|c: int, l: int|
                        0 <= c < spk.blocks@.len() && spk.blocks@[c].summaries is Some
                            && 0 <= l < spk.blocks@[c].summaries->0@.len() && (c < b || (c == b
                            && l < idx))
                            ==> !(l < spk.blocks@[c].names@.len()
                                && (#[trigger] spk.blocks@[c].names@[l])@ == name)
                }
                &&& forall|m: int, c: int, l: int|
                    spk_no < m < kernels.len() && 0 <= c < kernels[m].1.blocks@.len()
                        && kernels[m].1.blocks@[c].summaries is Some
                        && 0 <= l < kernels[m].1.blocks@[c].summaries->0@.len()
                        && l < kernels[m].1.blocks@[c].names@.len()
                        && (#[trigger] kernels[m].1.blocks@[c].names@[l])@ == name
                        && (forall|d: int, j: int|
                        0 <= d < kernels[m].1.blocks@.len()
                            && kernels[m].1.blocks@[d].summaries is Some
                            && 0 <= j < kernels[m].1.blocks@[d].summaries->0@.len()
                            && (d < c || (d == c && j < l))
                            ==> !(j < kernels[m].1.blocks@[d].names@.len()
                                && (#[trigger] kernels[m].1.blocks@[d].names@[j])@ == name))
                        ==> !(kernels[m].1.blocks@[c].summaries->0@[l].start_epoch.ns() - 100
                                <= epoch.ns()
                                <= kernels[m].1.blocks@[c].summaries->0@[l].end_epoch.ns() + 100)
            },
            Err(error) => {
                &&& forall|m: int, c: int, l: int|
                    0 <= m < kernels.len() && 0 <= c < kernels[m].1.blocks@.len()
                        && kernels[m].1.blocks@[c].summaries is Some
                        && 0 <= l < kernels[m].1.blocks@[c].summaries->0@.len()
                        && l < kernels[m].1.blocks@[c].names@.len()
                        && (#[trigger] kernels[m].1.blocks@[c].names@[l])@ == name
                        && (forall|d: int, j: int|
                        0 <= d < kernels[m].1.blocks@.len()
                            && kernels[m].1.blocks@[d].summaries is Some
                            && 0 <= j < kernels[m].1.blocks@[d].summaries->0@.len()
                            && (d < c || (d == c && j < l))
                            ==> !(j < kernels[m].1.blocks@[d].names@.len()
                                && (#[trigger] kernels[m].1.blocks@[d].names@[j])@ == name))
                        ==> !(kernels[m].1.blocks@[c].summaries->0@[l].start_epoch.ns() - 100
                                <= epoch.ns()
                                <= kernels[m].1.blocks@[c].summaries->0@[l].end_epoch.ns() + 100)
                &&& error matches EphemerisError::SPK {
                    action,
                    source: DAFError::SummaryNameAtEpochError { kind, name: sought, epoch: e },
                } && action@ == "searching for SPK summary"@ && kind@ == "SPK"@ && sought@ == name
                    && e == epoch
            },
        },
{
    let key = SummaryKey::NameAt(name, epoch);
    crate::search::lemma_latest_before(kernels, key, kernels.len() as int);
    if let Ok((summary, spk_no, daf_idx, idx)) = r {
        let spk = kernels[spk_no as int].1;
        spk.lemma_find(key);
        let (b, k) = spk.find(key)->0;
        assert(spk.blocks@[b].daf_idx == daf_idx);
        assert forall|c: int, l: int|
            0 <= c < spk.blocks@.len() && spk.blocks@[c].summaries is Some
                && 0 <= l < spk.blocks@[c].summaries->0@.len() && (c < b || (c == b && l < idx))
                implies !(l < spk.blocks@[c].names@.len()
                && (#[trigger] spk.blocks@[c].names@[l])@ == name) by {
            assert(spk.has(c, l));
            assert(!spk.blocks@[c].stops(key, l));
        }
        assert forall|m: int, c: int, l: int|
                    spk_no < m < kernels.len() && 0 <= c < kernels[m].1.blocks@.len()
                        && kernels[m].1.blocks@[c].summaries is Some
                        && 0 <= l < kernels[m].1.blocks@[c].summaries->0@.len()
                        && l < kernels[m].1.blocks@[c].names@.len()
                        && (#[trigger] kernels[m].1.blocks@[c].names@[l])@ == name
                        && (forall|d: int, j: int|
                        0 <= d < kernels[m].1.blocks@.len()
                            && kernels[m].1.blocks@[d].summaries is Some
                            && 0 <= j < kernels[m].1.blocks@[d].summaries->0@.len()
                            && (d < c || (d == c && j < l))
                            ==> !(j < kernels[m].1.blocks@[d].names@.len()
                                && (#[trigger] kernels[m].1.blocks@[d].names@[j])@ == name))
                        implies !(kernels[m].1.blocks@[c].summaries->0@[l].start_epoch.ns() - 100
                            <= epoch.ns()
                            <= kernels[m].1.blocks@[c].summaries->0@[l].end_epoch.ns() + 100) by {
            lemma_first_of_name(kernels[m].1, name, c, l);
            kernels[m].1.lemma_find(key);
        }
    } else {
        assert forall|m: int, c: int, l: int|
                    0 <= m < kernels.len() && 0 <= c < kernels[m].1.blocks@.len()
                        && kernels[m].1.blocks@[c].summaries is Some
                        && 0 <= l < kernels[m].1.blocks@[c].summaries->0@.len()
                        && l < kernels[m].1.blocks@[c].names@.len()
                        && (#[trigger] kernels[m].1.blocks@[c].names@[l])@ == name
                        && (forall|d: int, j: int|
                        0 <= d < kernels[m].1.blocks@.len()
                            && kernels[m].1.blocks@[d].summaries is Some
                            && 0 <= j < kernels[m].1.blocks@[d].summaries->0@.len()
                            && (d < c || (d == c && j < l))
                            ==> !(j < kernels[m].1.blocks@[d].names@.len()
                                && (#[trigger] kernels[m].1.blocks@[d].names@[j])@ == name))
                        implies !(kernels[m].1.blocks@[c].summaries->0@[l].start_epoch.ns() - 100
                            <= epoch.ns()
                            <= kernels[m].1.blocks@[c].summaries->0@[l].end_epoch.ns() + 100) by {
            lemma_first_of_name(kernels[m].1, name, c, l);
            kernels[m].1.lemma_find(key);
        }
    }
}

} // verus!
