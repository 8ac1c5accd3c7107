//! The kernels of one context and the queries over them.

use std::collections::HashMap;

use indexmap::IndexMap;
use vstd::prelude::*;

use crate::cache::{CachePred, CacheState, EphemerisCache, SpkSegmentMemo};
use crate::epoch::{alias_or_now, Duration, Epoch, EtSeconds};
use crate::error::{DAFError, EphemerisError};
use crate::kernels::{map_get_index, map_insert, map_len, map_new, map_shift_remove, map_swap_remove};
use crate::spk::{SPKSummaryRecord, SummaryKey, SummaryQuery, SPK};
use crate::NaifId;

verus! {

broadcast use vstd::std_specs::hash::group_hash_axioms;

/// The loaded kernels, by alias and in loading order, with the memory of previous queries.
pub struct Almanac {
    pub spk_data: IndexMap<String, SPK>,
    pub cache: EphemerisCache,
}

impl Almanac {
    /// The loaded kernels with their aliases, in loading order.
    pub open spec fn kernels(self) -> Seq<(Seq<char>, SPK)> {
        crate::kernels::map_entries(self.spk_data)
    }

    /// Every kernel is well formed, no alias occurs twice, and what the cache remembers is about
    /// the kernels that are loaded now.
    pub open spec fn wf(self) -> bool {
        &&& forall|i: int| 0 <= i < self.kernels().len() ==> (#[trigger] self.kernels()[i]).1.wf()
        &&& forall|i: int, j: int|
            0 <= i < j < self.kernels().len() ==> (#[trigger] self.kernels()[i]).0 != (
            #[trigger] self.kernels()[j]).0
        &&& self.cache.pred() == CachePred::about(Some(self.kernels()))
    }

    /// A context in which only this kernel is loaded.
    pub fn from_spk(spk: SPK) -> (r: Almanac)
        requires
            spk.wf(),
        ensures
            r.wf(),
            r.cache.began_empty(),
            r.kernels().len() == 1,
            r.kernels()[0].1 == spk,
            exists|reading: Option<Duration>|
                crate::epoch::is_clock_reading(reading) && r.kernels()[0].0
                    == #[trigger] crate::epoch::time_text(reading),
    {
        Almanac::default().with_spk(spk)
    }

    /// Loads a kernel under the text of the current time, or of the origin of TAI if the clock
    /// cannot be read.
    pub fn with_spk(self, spk: SPK) -> (r: Almanac)
        requires
            self.wf(),
            spk.wf(),
        ensures
            r.wf(),
            r.cache.began_empty(),
            exists|reading: Option<Duration>|
                crate::epoch::is_clock_reading(reading) && r.kernels() == crate::search::loaded(
                    self.kernels(),
                    #[trigger] crate::epoch::time_text(reading),
                    spk,
                ),
    {
        self.with_spk_as(spk, None)
    }

    /// Loads a kernel, naming it with the provided alias, or with the text of the current time if
    /// no alias is provided. It becomes the most recently loaded one, and a kernel that has this
    /// alias already is unloaded.
    pub fn with_spk_as(self, spk: SPK, alias: Option<String>) -> (r: Almanac)
        requires
            self.wf(),
            spk.wf(),
        ensures
            r.wf(),
            r.cache.began_empty(),
            match alias {
                Some(name) => r.kernels() == crate::search::loaded(self.kernels(), name@, spk),
                None => exists|reading: Option<Duration>|
                    crate::epoch::is_clock_reading(reading) && r.kernels() == crate::search::loaded(
                        self.kernels(),
                        #[trigger] crate::epoch::time_text(reading),
                        spk,
                    ),
            },
    {
        let name: String = alias_or_now(alias);
        self.with_spk_named(spk, name)
    }

    /// Loads a kernel under this alias as the most recently loaded one; a kernel that has the alias
    /// already is unloaded. What was remembered of the kernels so far is dropped.
    pub fn with_spk_named(self, spk: SPK, alias: String) -> (r: Almanac)
        requires
            self.wf(),
            spk.wf(),
        ensures
            r.wf(),
            r.kernels() == crate::search::loaded(self.kernels(), alias@, spk),
            r.cache.began_empty(),
    {
        let Almanac { mut spk_data, cache: _ } = self;
        let ghost before = crate::kernels::map_entries(spk_data);
        let ghost name = alias@;
        let _ = map_shift_remove(&mut spk_data, alias.as_str());
        proof {
            crate::kernels::lemma_position_of(before, name);
            crate::search::lemma_without(before, name);
        }
        let _ = map_insert(&mut spk_data, alias, spk);
        let cache: EphemerisCache = EphemerisCache::cold(
            Ghost(CachePred::about(Some(crate::kernels::map_entries(spk_data)))),
        );
        Almanac { spk_data, cache }
    }

    /// Unloads the kernel with the provided alias; the last one takes its place. What was
    /// remembered of the kernels so far is dropped. Fails, and changes nothing, if no kernel has
    /// this alias.
    pub fn spk_unload(&mut self, alias: &str) -> (r: Result<(), EphemerisError>)
        requires
            old(self).wf(),
        ensures
            final(self).wf(),
            final(self).kernels() == crate::search::unloaded(old(self).kernels(), alias@),
            match crate::kernels::position_of(old(self).kernels(), alias@) {
                Some(_) => r is Ok && final(self).cache.began_empty(),
                None => r matches Err(error) && error.is_unknown_alias(alias@) && final(self).cache
                    == old(self).cache,
            },
    {
        proof {
            crate::kernels::lemma_position_of(self.kernels(), alias@);
        }
        if map_swap_remove(&mut self.spk_data, alias).is_none() {
            Err(
                EphemerisError::AliasNotFound {
                    alias: alias.to_owned(),
                    action: "unload ephemeris",
                },
            )
        } else {
            self.cache = EphemerisCache::cold(
                Ghost(CachePred::about(Some(crate::kernels::map_entries(self.spk_data)))),
            );
            Ok(())
        }
    }

    /// The number of loaded kernels.
    pub fn num_loaded_spk(&self) -> (n: usize)
        ensures
            n == self.kernels().len(),
    {
        map_len(&self.spk_data)
    }

    /// Searches the kernels from the most recently loaded to the first. Returns the summary, the
    /// number of the kernel, and the record and the position of the summary within it.
    fn find_latest(&self, query: &SummaryQuery) -> (r: Option<
        (&SPKSummaryRecord, usize, Option<usize>, usize),
    >)
        ensures
            match r {
                Some((summary, spk_no, daf_idx, idx)) => crate::search::is_latest_answer(
                    self.kernels(),
                    query@,
                    (*summary, spk_no, daf_idx, idx),
                ) && spk_no < self.kernels().len(),
                None => crate::search::latest(self.kernels(), query@) is None,
            },
    {
        let mut n: usize = self.num_loaded_spk();
        while n > 0
            invariant
                n <= self.kernels().len(),
                crate::search::latest(self.kernels(), query@) == crate::search::latest_before(
                    self.kernels(),
                    query@,
                    n as int,
                ),
            decreases n,
        {
            if let Some((_, spk)) = map_get_index(&self.spk_data, n - 1) {
                if let Some((summary, daf_idx, idx)) = spk.find_summary(query) {
                    return Some((summary, n - 1, daf_idx, idx));
                }
            }
            n = n - 1;
        }
        None
    }

    /// Returns the most recently loaded summary by its ID, if any with that ID are available.
    pub fn spk_summary(&self, id: NaifId) -> (r: Result<
        (&SPKSummaryRecord, usize, Option<usize>, usize),
        EphemerisError,
    >)
        ensures
            crate::search::is_answer(self.kernels(), SummaryKey::Id(id), r),
    {
        match self.find_latest(&SummaryQuery::Id(id)) {
            Some(answer) => Ok(answer),
            None => Err(EphemerisError::unknown_id(id)),
        }
    }

    /// Returns the most recently loaded summary by its name, if any with that name are available.
    pub fn spk_summary_from_name(&self, name: &str) -> (r: Result<
        (&SPKSummaryRecord, usize, Option<usize>, usize),
        EphemerisError,
    >)
        ensures
            crate::search::is_answer(self.kernels(), SummaryKey::Name(name@), r),
    {
        match self.find_latest(&SummaryQuery::Name(name.to_owned())) {
            Some(answer) => Ok(answer),
            None => Err(
                EphemerisError::SPK {
                    action: "searching for SPK summary",
                    source: DAFError::SummaryNameError { kind: "SPK", name: name.to_owned() },
                },
            ),
        }
    }

    /// Returns the summary given the name of the summary record if that summary has data defined
    /// at the requested epoch, and the SPK where this name was found to be valid at that epoch.
    pub fn spk_summary_from_name_at_epoch(&self, name: &str, epoch: Epoch) -> (r: Result<
        (&SPKSummaryRecord, usize, Option<usize>, usize),
        EphemerisError,
    >)
        ensures
            crate::search::is_answer(self.kernels(), SummaryKey::NameAt(name@, epoch), r),
    {
        match self.find_latest(&SummaryQuery::NameAt(name.to_owned(), epoch)) {
            Some(answer) => Ok(answer),
            None => Err(
                EphemerisError::SPK {
                    action: "searching for SPK summary",
                    source: DAFError::SummaryNameAtEpochError {
                        kind: "SPK",
                        name: name.to_owned(),
                        epoch,
                    },
                },
            ),
        }
    }
}

impl Almanac {
    /// Copies all summaries that can be decoded, in the order in which they are used.
    fn summaries_in_order(&self) -> (all: Vec<SPKSummaryRecord>)
        ensures
            all@ == crate::search::records_of(self.kernels()),
    {
        let mut all: Vec<SPKSummaryRecord> = Vec::new();
        let mut n: usize = self.num_loaded_spk();
        while n > 0
            invariant
                n <= self.kernels().len(),
                all@ + crate::search::records_of_first(self.kernels(), n as int)
                    == crate::search::records_of(self.kernels()),
            decreases n,
        {
            let ghost before = all@;
            if let Some((_, spk)) = map_get_index(&self.spk_data, n - 1) {
                let mut b: usize = 0;
                while b < spk.blocks.len()
                    invariant
                        b <= spk.blocks.len(),
                        all@ == before + spk.records_before(b as int),
                    decreases spk.blocks.len() - b,
                {
                    spk.blocks[b].append_to(&mut all);
                    b = b + 1;
                }
            }
            n = n - 1;
        }
        all
    }

    /// Returns a vector of the summaries whose ID matches the desired `id`, in the order in which
    /// they will be used, i.e. in reverse loading order.
    pub fn spk_summaries(&self, id: NaifId) -> (r: Result<Vec<SPKSummaryRecord>, EphemerisError>)
        ensures
            match r {
                Ok(summaries) => summaries@.len() > 0 && summaries@ == crate::search::summaries_of(
                    self.kernels(),
                    id,
                ),
                Err(error) => crate::search::summaries_of(self.kernels(), id).len() == 0
                    && error.is_unknown_id(id),
            },
    {
        let all: Vec<SPKSummaryRecord> = self.summaries_in_order();
        let mut summaries: Vec<SPKSummaryRecord> = Vec::new();
        let mut i: usize = 0;
        while i < all.len()
            invariant
                i <= all.len(),
                summaries@ == crate::search::with_id(all@.take(i as int), id),
            decreases all.len() - i,
        {
            assert(all@.take(i + 1).drop_last() =~= all@.take(i as int));
            if all[i].target_id == id {
                summaries.push(all[i]);
            }
            i = i + 1;
        }
        assert(all@.take(i as int) =~= all@);
        if summaries.len() == 0 {
            Err(EphemerisError::unknown_id(id))
        } else {
            Ok(summaries)
        }
    }

    /// Returns the applicable domain of the request id, i.e. start and end epoch that the provided
    /// id has loaded data.
    pub fn spk_domain(&self, id: NaifId) -> (r: Result<(Epoch, Epoch), EphemerisError>)
        ensures
            match r {
                Ok((start, end)) => crate::search::summaries_of(self.kernels(), id).len() > 0
                    && start == crate::search::earliest_start(
                    crate::search::summaries_of(self.kernels(), id),
                ) && end == crate::search::latest_end(
                    crate::search::summaries_of(self.kernels(), id),
                ),
                Err(error) => crate::search::summaries_of(self.kernels(), id).len() == 0
                    && error.is_unknown_id(id),
            },
    {
        let summaries: Vec<SPKSummaryRecord> = match self.spk_summaries(id) {
            Ok(summaries) => summaries,
            Err(error) => {
                return Err(error);
            },
        };
        let mut start: Epoch = summaries[0].start_epoch;
        let mut end: Epoch = summaries[0].end_epoch;
        let mut i: usize = 1;
        while i < summaries.len()
            invariant
                1 <= i <= summaries.len(),
                start == crate::search::earliest_start(summaries@.take(i as int)),
                end == crate::search::latest_end(summaries@.take(i as int)),
            decreases summaries.len() - i,
        {
            assert(summaries@.take(i + 1).drop_last() =~= summaries@.take(i as int));
            if summaries[i].start_epoch.is_before(&start) {
                start = summaries[i].start_epoch;
            }
            if end.is_before(&summaries[i].end_epoch) {
                end = summaries[i].end_epoch;
            }
            i = i + 1;
        }
        assert(summaries@.take(i as int) =~= summaries@);
        Ok((start, end))
    }

    /// Returns a map of each loaded SPK ID to its domain validity.
    pub fn spk_domains(&self) -> (r: Result<HashMap<NaifId, (Epoch, Epoch)>, EphemerisError>)
        ensures
            match r {
                Ok(domains) => self.kernels().len() > 0 && crate::search::is_domain_map(
                    crate::search::records_of(self.kernels()),
                    domains@,
                ),
                Err(error) => self.kernels().len() == 0 && error
                    == EphemerisError::NoEphemerisLoaded,
            },
    {
        if self.num_loaded_spk() == 0 {
            return Err(EphemerisError::NoEphemerisLoaded);
        }
        let all: Vec<SPKSummaryRecord> = self.summaries_in_order();
        let mut domains: HashMap<NaifId, (Epoch, Epoch)> = HashMap::new();
        let mut i: usize = 0;
        while i < all.len()
            invariant
                i <= all.len(),
                crate::search::is_domain_map(all@.take(i as int), domains@),
            decreases all.len() - i,
        {
            let summary: SPKSummaryRecord = all[i];
            let domain: (Epoch, Epoch) = match domains.get(&summary.target_id) {
                Some((start, end)) => {
                    let first: Epoch = if summary.start_epoch.is_before(start) {
                        summary.start_epoch
                    } else {
                        *start
                    };
                    let last: Epoch = if end.is_before(&summary.end_epoch) {
                        summary.end_epoch
                    } else {
                        *end
                    };
                    (first, last)
                },
                None => (summary.start_epoch, summary.end_epoch),
            };
            let ghost before = domains@;
            domains.insert(summary.target_id, domain);
            proof {
                crate::search::lemma_domain_map_step(all@.take(i as int), before, summary, domain);
                assert(all@.take(i + 1) =~= all@.take(i as int).push(summary));
            }
            i = i + 1;
        }
        assert(all@.take(i as int) =~= all@);
        Ok(domains)
    }
}

impl Almanac {
    /// The live summary that `memo` points at, if the memo answers a query for `id` at `epoch`:
    /// the bounds of the memo enclose the instant, with no pad, the summary still has the
    /// identifier and the bounds, and the instant is not on a boundary of the segment.
    pub fn recall(&self, id: NaifId, epoch: &Epoch, memo: &SpkSegmentMemo) -> (r: Option<
        &SPKSummaryRecord,
    >)
        requires
            self.wf(),
        ensures
            match r {
                Some(summary) => exists|b: int| #[trigger]
                    crate::search::hits(self.kernels(), id, *epoch, epoch.et_seconds(), *memo, b)
                        && *summary == self.kernels()[memo.spk_no as int].1.record_at(
                        b,
                        memo.idx_in_spk as int,
                    ),
                None => forall|b: int|
                    !#[trigger] crate::search::hits(
                        self.kernels(),
                        id,
                        *epoch,
                        epoch.et_seconds(),
                        *memo,
                        b,
                    ),
            },
    {
        self.recall_at(id, epoch, epoch.to_et_seconds(), memo)
    }

    /// The live summary that `memo` points at, if the memo answers a query for `id` at `epoch`,
    /// which is `et_s` in seconds.
    pub fn recall_at(
        &self,
        id: NaifId,
        epoch: &Epoch,
        et_s: EtSeconds,
        memo: &SpkSegmentMemo,
    ) -> (r: Option<&SPKSummaryRecord>)
        requires
            self.wf(),
        ensures
            match r {
                Some(summary) => exists|b: int| #[trigger]
                    crate::search::hits(self.kernels(), id, *epoch, et_s, *memo, b) && *summary
                        == self.kernels()[memo.spk_no as int].1.record_at(
                        b,
                        memo.idx_in_spk as int,
                    ),
                None => forall|b: int|
                    !#[trigger] crate::search::hits(self.kernels(), id, *epoch, et_s, *memo, b),
            },
    {
        if !memo.start_et_s.is_at_most(&et_s) || !et_s.is_at_most(&memo.end_et_s) {
            return None;
        }
        let spk: &SPK = match map_get_index(&self.spk_data, memo.spk_no) {
            Some((_, spk)) => spk,
            None => {
                return None;
            },
        };
        assert(self.kernels()[memo.spk_no as int].1.wf());
        let summaries: &Vec<SPKSummaryRecord> = match spk.data_summaries_in_range(
            memo.summaries_byte_range,
        ) {
            Some(summaries) => summaries,
            None => {
                return None;
            },
        };
        let ghost place = choose|b: int|
            0 <= b < spk.blocks@.len() && #[trigger] spk.blocks@[b].summaries_byte_range
                == memo.summaries_byte_range && spk.blocks@[b].summaries == Some(*summaries);
        assert forall|b: int| #[trigger]
            crate::search::hits(self.kernels(), id, *epoch, et_s, *memo, b) implies b == place by {
            spk.lemma_own_place(b, place);
        }
        if memo.idx_in_spk >= summaries.len() {
            return None;
        }
        let summary: &SPKSummaryRecord = &summaries[memo.idx_in_spk];
        if summary.target_id == id && summary.start_epoch_et_s.equals(&memo.start_et_s)
            && summary.end_epoch_et_s.equals(&memo.end_et_s) && summary.holds_inside(epoch) {
            assert(crate::search::hits(self.kernels(), id, *epoch, et_s, *memo, place));
            Some(summary)
        } else {
            None
        }
    }

    /// Whether a search for `id` that ends in kernel `spk_no` may be remembered: no other kernel can
    /// shadow the identifier. The kernel must index it, so that its segments are in chronological
    /// order, and no kernel of higher precedence may contain it at any epoch.
    fn is_memo_safe(&self, id: NaifId, spk_no: usize) -> (r: bool)
        requires
            spk_no < self.kernels().len(),
        ensures
            r == crate::search::is_memo_safe(self.kernels(), id, spk_no as int),
    {
        match map_get_index(&self.spk_data, spk_no) {
            Some((_, spk)) => if !spk.index.contains(&id) {
                return false;
            },
            None => {
                return false;
            },
        }
        let mut m: usize = self.num_loaded_spk();
        while m > spk_no + 1
            invariant
                spk_no < m <= self.kernels().len(),
                forall|i: int|
                    m <= i < self.kernels().len() ==> #[trigger] self.kernels()[i].1.find(
                        SummaryKey::Id(id),
                    ) is None,
            decreases m,
        {
            if let Some((_, higher)) = map_get_index(&self.spk_data, m - 1) {
                if higher.find_summary(&SummaryQuery::Id(id)).is_some() {
                    assert(self.kernels()[m - 1].1.find(SummaryKey::Id(id)) is Some);
                    return false;
                }
            }
            m = m - 1;
        }
        true
    }

    /// The memo of this answer of a full search.
    fn memo_of(
        &self,
        id: NaifId,
        epoch: &Epoch,
        summary: &SPKSummaryRecord,
        spk_no: usize,
        daf_idx: Option<usize>,
        idx_in_spk: usize,
    ) -> (memo: Option<SpkSegmentMemo>)
        requires
            self.wf(),
            spk_no < self.kernels().len(),
            crate::search::is_latest_answer(
                self.kernels(),
                SummaryKey::IdAt(id, *epoch),
                (*summary, spk_no, daf_idx, idx_in_spk),
            ),
        ensures
            crate::search::is_memo_of(self.kernels(), id, *epoch, memo),
    {
        if !self.is_memo_safe(id, spk_no) {
            return None;
        }
        let range: Option<(usize, usize)> = match map_get_index(&self.spk_data, spk_no) {
            Some((_, spk)) => spk.summaries_byte_range(daf_idx),
            None => None,
        };
        let ghost spk = self.kernels()[spk_no as int].1;
        let ghost (place, _) = spk.find(SummaryKey::IdAt(id, *epoch))->0;
        match range {
            Some(range) => {
                proof {
                    assert(spk.wf());
                    let b = choose|b: int|
                        0 <= b < spk.blocks@.len() && #[trigger] spk.blocks@[b].daf_idx == daf_idx
                            && spk.blocks@[b].summaries_byte_range == range;
                    spk.lemma_own_place(b, place);
                }
                Some(
                    SpkSegmentMemo {
                        spk_no,
                        daf_idx,
                        idx_in_spk,
                        summaries_byte_range: range,
                        start_et_s: summary.start_epoch_et_s,
                        end_et_s: summary.end_epoch_et_s,
                        decoded: None,
                    },
                )
            },
            None => {
                assert(spk.blocks@[place].daf_idx == daf_idx);
                None
            },
        }
    }

    /// Searches all kernels for `id` at `epoch`. Returns the answer, and the memo to keep if the
    /// answer may be remembered.
    pub fn search_at_epoch(&self, id: NaifId, epoch: Epoch) -> (r: (
        Result<(&SPKSummaryRecord, usize, Option<usize>, usize), EphemerisError>,
        Option<SpkSegmentMemo>,
    ))
        requires
            self.wf(),
        ensures
            crate::search::is_cold_answer(self.kernels(), id, epoch, r.0),
            crate::search::is_memo_of(self.kernels(), id, epoch, r.1),
    {
        match self.find_latest(&SummaryQuery::IdAt(id, epoch)) {
            Some((summary, spk_no, daf_idx, idx)) => {
                let memo: Option<SpkSegmentMemo> = self.memo_of(
                    id,
                    &epoch,
                    summary,
                    spk_no,
                    daf_idx,
                    idx,
                );
                (Ok((summary, spk_no, daf_idx, idx)), memo)
            },
            None => match self.spk_domain(id) {
                Ok((start, end)) => (
                    Err(
                        EphemerisError::SPK {
                            action: "searching for SPK summary",
                            source: DAFError::SummaryIdAtEpochError {
                                kind: "SPK",
                                id,
                                epoch,
                                start,
                                end,
                            },
                        },
                    ),
                    None,
                ),
                Err(error) => (Err(error), None),
            },
        }
    }

    /// Answers a query for `id` at `epoch` when `memo` is what the cache holds: from the memo if it
    /// hits, else by a search of all kernels. Returns the answer, and the memo to keep if a search
    /// was made and may be remembered. A memo that a search has left behind does not change the
    /// answer.
    pub fn spk_summary_with_memo(
        &self,
        id: NaifId,
        epoch: Epoch,
        memo: Option<SpkSegmentMemo>,
    ) -> (r: (
        Result<(&SPKSummaryRecord, usize, Option<usize>, usize), EphemerisError>,
        Option<SpkSegmentMemo>,
    ))
        requires
            self.wf(),
        ensures
            crate::search::is_answer_with_memo(self.kernels(), id, epoch, memo, r.0, r.1),
            memo is None || crate::search::is_sound_memo(self.kernels(), id, memo->0)
                ==> crate::search::is_cold_answer(self.kernels(), id, epoch, r.0),
    {
        if let Some(m) = memo {
            if let Some(summary) = self.recall(id, &epoch, &m) {
                let r: (
                    Result<(&SPKSummaryRecord, usize, Option<usize>, usize), EphemerisError>,
                    Option<SpkSegmentMemo>,
                ) = (Ok((summary, m.spk_no, m.daf_idx, m.idx_in_spk)), None);
                proof {
                    let et_s = epoch.et_seconds();
                    let b = choose|b: int| #[trigger]
                        crate::search::hits(self.kernels(), id, epoch, et_s, m, b) && *summary
                            == self.kernels()[m.spk_no as int].1.record_at(b, m.idx_in_spk as int);
                    assert(self.kernels()[m.spk_no as int].1.wf());
                    if crate::search::is_sound_memo(self.kernels(), id, m) {
                        crate::search::lemma_recalled_is_cold(
                            self.kernels(),
                            id,
                            epoch,
                            et_s,
                            m,
                            b,
                            r.0,
                        );
                    }
                }
                return r;
            }
        }
        self.search_at_epoch(id, epoch)
    }

    /// Returns the summary given the ID of the summary record if that summary has data defined at
    /// the requested epoch. The cache may answer in place of a search, and never with another
    /// answer.
    pub fn spk_summary_at_epoch(&self, id: NaifId, epoch: Epoch) -> (r: Result<
        (&SPKSummaryRecord, usize, Option<usize>, usize),
        EphemerisError,
    >)
        requires
            self.wf(),
        ensures
            crate::search::is_cold_answer(self.kernels(), id, epoch, r),
            exists|state: CacheState, found: Option<SpkSegmentMemo>|
                #![trigger self.cache.held(state),
                    crate::search::is_memo_of(self.kernels(), id, epoch, found)]
                self.cache.held(state) && crate::search::is_answer_with_memo(
                    self.kernels(),
                    id,
                    epoch,
                    if state.spk_segments@.contains_key(id) {
                        Some(state.spk_segments@[id])
                    } else {
                        None
                    },
                    r,
                    found,
                ) && (found matches Some(m) ==> exists|before: CacheState, after: CacheState|
                    #[trigger] self.cache.replaced(before, after) && after.root == before.root
                        && after.spk_segments@ == before.spk_segments@.insert(id, m)),
    {
        let memo: Option<SpkSegmentMemo> = self.cache.spk_segment(id);
        let (r, found) = self.spk_summary_with_memo(id, epoch, memo);
        if let Some(m) = found {
            proof {
                crate::search::lemma_memo_of_search_is_sound(self.kernels(), id, epoch, m);
            }
            self.cache.store_spk_segment(id, m);
        }
        r
    }
}

impl Default for Almanac {
    /// A context with no kernel.
    fn default() -> (r: Almanac)
        ensures
            r.wf(),
            r.kernels() == Seq::<(Seq<char>, SPK)>::empty(),
            r.cache.began_empty(),
    {
        let spk_data: IndexMap<String, SPK> = map_new();
        let cache: EphemerisCache = EphemerisCache::cold(
            Ghost(CachePred::about(Some(crate::kernels::map_entries(spk_data)))),
        );
        Almanac { spk_data, cache }
    }
}

} // verus!
