//! The summaries of one SPK kernel and the searches within it.

use std::collections::HashSet;

use vstd::prelude::*;

use crate::epoch::{Epoch, EtSeconds};
use crate::index::chronological_ids;
use crate::NaifId;

verus! {

/// How far outside its bounds a segment still answers, in nanoseconds.
pub const EPOCH_PAD_NS: i128 = 100;

/// How a segment represents the trajectory; each variant is one of the SPK data types.
#[derive(Clone, Copy, Debug, PartialEq, Eq, Structural)]
pub enum DafDataType {
    Type1ModifiedDifferenceArray,
    Type2ChebyshevTriplet,
    Type3ChebyshevSextuplet,
    Type5DiscreteStates,
    Type8LagrangeEqualStep,
    Type9LagrangeUnequalStep,
    Type10SpaceCommandTLE,
    Type12HermiteEqualStep,
    Type13HermiteUnequalStep,
    Type14ChebyshevUnequalStep,
    Type15PrecessingConics,
    Type17Equinoctial,
    Type18ESOCHermiteLagrange,
    Type19ESOCPiecewise,
    Type20ChebyshevDerivative,
    Type21ExtendedModifiedDifferenceArray,
}

/// The summary of one ephemeris segment. `start_epoch` and `end_epoch` are the instants of the
/// two bounds that the kernel states in seconds.
#[derive(Clone, Copy, Debug)]
pub struct SPKSummaryRecord {
    pub start_epoch_et_s: EtSeconds,
    pub end_epoch_et_s: EtSeconds,
    pub start_epoch: Epoch,
    pub end_epoch: Epoch,
    pub target_id: NaifId,
    pub center_id: NaifId,
    pub frame_id: i32,
    pub data_type_i: i32,
    pub start_idx: i32,
    pub end_idx: i32,
}

/// One summary record of a kernel: where it lies in the file, and the summaries in it with their
/// names, or nothing if the record cannot be decoded.
#[derive(Debug)]
pub struct SummaryBlock {
    /// Index of the record in the file; nothing for the first one, which the file record points to.
    pub daf_idx: Option<usize>,
    /// Byte range of the summaries in the kernel, past the header of the record.
    pub summaries_byte_range: (usize, usize),
    pub summaries: Option<Vec<SPKSummaryRecord>>,
    pub names: Vec<String>,
}

/// A loaded SPK kernel.
#[derive(Debug)]
pub struct SPK {
    /// The summary records, in the order in which they are searched.
    pub blocks: Vec<SummaryBlock>,
    /// The identifiers whose segments the kernel stores in chronological order, so that no two
    /// of them overlap.
    pub index: HashSet<NaifId>,
}

/// What a summary is searched by.
#[derive(Debug)]
pub enum SummaryQuery {
    /// The first summary of this identifier.
    Id(NaifId),
    /// The first summary of this identifier that covers this instant.
    IdAt(NaifId, Epoch),
    /// The first summary of this name.
    Name(String),
    /// The first summary of this name, provided that it covers this instant.
    NameAt(String, Epoch),
}

/// The mathematical value of a [`SummaryQuery`].
pub enum SummaryKey {
    Id(NaifId),
    IdAt(NaifId, Epoch),
    Name(Seq<char>),
    NameAt(Seq<char>, Epoch),
}

impl View for SummaryQuery {
    type V = SummaryKey;

    open spec fn view(&self) -> SummaryKey {
        match *self {
            SummaryQuery::Id(id) => SummaryKey::Id(id),
            SummaryQuery::IdAt(id, epoch) => SummaryKey::IdAt(id, epoch),
            SummaryQuery::Name(name) => SummaryKey::Name(name@),
            SummaryQuery::NameAt(name, epoch) => SummaryKey::NameAt(name@, epoch),
        }
    }
}

impl SPKSummaryRecord {
    /// Whether `epoch` lies in the segment, up to the pad on either side.
    pub open spec fn covers(self, epoch: Epoch) -> bool {
        self.start_epoch.ns() - EPOCH_PAD_NS <= epoch.ns() <= self.end_epoch.ns() + EPOCH_PAD_NS
    }

    /// Whether the bounds in seconds enclose this many seconds, with no pad.
    pub open spec fn encloses(self, et_s: EtSeconds) -> bool {
        self.start_epoch_et_s.at_most(et_s) && et_s.at_most(self.end_epoch_et_s)
    }

    /// Whether `epoch` lies in the segment and on neither boundary: after the pad that a segment
    /// which ends at the start reaches over, and before the end.
    pub open spec fn is_inside(self, epoch: Epoch) -> bool {
        self.start_epoch.ns() + EPOCH_PAD_NS < epoch.ns() < self.end_epoch.ns()
    }

    /// Whether `epoch` lies in the segment, up to the pad on either side.
    pub fn is_valid_at(&self, epoch: &Epoch) -> (r: bool)
        ensures
            r == self.covers(*epoch),
    {
        let ns: i128 = epoch.since_j2000.total_nanoseconds();
        let start: i128 = self.start_epoch.since_j2000.total_nanoseconds();
        let end: i128 = self.end_epoch.since_j2000.total_nanoseconds();
        start - EPOCH_PAD_NS <= ns && ns <= end + EPOCH_PAD_NS
    }

    /// Whether `epoch` lies in the segment and on neither boundary.
    pub fn holds_inside(&self, epoch: &Epoch) -> (r: bool)
        ensures
            r == self.is_inside(*epoch),
    {
        let ns: i128 = epoch.since_j2000.total_nanoseconds();
        let start: i128 = self.start_epoch.since_j2000.total_nanoseconds();
        let end: i128 = self.end_epoch.since_j2000.total_nanoseconds();
        start + EPOCH_PAD_NS < ns && ns < end
    }
}

impl SummaryBlock {
    /// The summaries of this block; none if it cannot be decoded.
    pub open spec fn records(self) -> Seq<SPKSummaryRecord> {
        match self.summaries {
            Some(summaries) => summaries@,
            None => Seq::empty(),
        }
    }

    /// Whether a search stops at summary `k`.
    pub open spec fn stops(self, key: SummaryKey, k: int) -> bool {
        match key {
            SummaryKey::Id(id) => self.records()[k].target_id == id,
            SummaryKey::IdAt(id, epoch) => self.records()[k].target_id == id
                && self.records()[k].covers(epoch),
            SummaryKey::Name(name) => k < self.names@.len() && self.names@[k]@ == name,
            SummaryKey::NameAt(name, _) => k < self.names@.len() && self.names@[k]@ == name,
        }
    }

    /// The first of the summaries before `n` at which a search stops.
    pub open spec fn first_before(self, key: SummaryKey, n: int) -> Option<int>
        decreases n,
    {
        if n <= 0 {
            None
        } else if self.first_before(key, n - 1) is Some {
            self.first_before(key, n - 1)
        } else if self.stops(key, n - 1) {
            Some(n - 1)
        } else {
            None
        }
    }

    /// The first summary at which a search stops.
    pub open spec fn first(self, key: SummaryKey) -> Option<int> {
        self.first_before(key, self.records().len() as int)
    }

    /// A prefix that stops a search decides it.
    proof fn lemma_first_before_grows(self, key: SummaryKey, n: int, m: int)
        requires
            n <= m,
            self.first_before(key, n) is Some,
        ensures
            self.first_before(key, m) == self.first_before(key, n),
        decreases m - n,
    {
        if n < m {
            self.lemma_first_before_grows(key, n, m - 1);
        }
    }

    /// Appends the summaries of this block to `all`.
    pub(crate) fn append_to(&self, all: &mut Vec<SPKSummaryRecord>)
        ensures
            final(all)@ == old(all)@ + self.records(),
    {
        if let Some(summaries) = &self.summaries {
            let mut k: usize = 0;
            while k < summaries.len()
                invariant
                    k <= summaries.len(),
                    all@ == old(all)@ + summaries@.take(k as int),
                decreases summaries.len() - k,
            {
                all.push(summaries[k]);
                k = k + 1;
            }
            assert(summaries@.take(k as int) =~= summaries@);
        }
    }

    /// Whether two blocks claim the same record of the file or the same bytes.
    pub open spec fn collides(self, other: SummaryBlock) -> bool {
        self.daf_idx == other.daf_idx || self.summaries_byte_range == other.summaries_byte_range
    }

    /// Whether two blocks claim the same record of the file or the same bytes.
    fn shares_place(&self, other: &SummaryBlock) -> (r: bool)
        ensures
            r == self.collides(*other),
    {
        self.daf_idx == other.daf_idx || (self.summaries_byte_range.0
            == other.summaries_byte_range.0 && self.summaries_byte_range.1
            == other.summaries_byte_range.1)
    }

    /// Whether a search stops at summary `k`.
    fn stops_at(&self, query: &SummaryQuery, summary: &SPKSummaryRecord, k: usize) -> (r: bool)
        requires
            k < self.records().len(),
            *summary == self.records()[k as int],
        ensures
            r == self.stops(query@, k as int),
    {
        match query {
            SummaryQuery::Id(id) => summary.target_id == *id,
            SummaryQuery::IdAt(id, epoch) => summary.target_id == *id && summary.is_valid_at(epoch),
            SummaryQuery::Name(name) => k < self.names.len() && self.names[k] == *name,
            SummaryQuery::NameAt(name, _) => k < self.names.len() && self.names[k] == *name,
        }
    }

    /// The first summary at which a search stops, with its position.
    fn find_first(&self, query: &SummaryQuery) -> (r: Option<(&SPKSummaryRecord, usize)>)
        ensures
            match self.first(query@) {
                Some(k) => r matches Some((summary, i)) && i == k && 0 <= k < self.records().len()
                    && *summary == self.records()[k],
                None => r is None,
            },
    {
        match &self.summaries {
            None => None,
            Some(summaries) => {
                let mut k: usize = 0;
                while k < summaries.len()
                    invariant
                        self.summaries == Some(*summaries),
                        k <= summaries.len(),
                        self.first_before(query@, k as int) is None,
                    decreases summaries.len() - k,
                {
                    if self.stops_at(query, &summaries[k], k) {
                        proof {
                            self.lemma_first_before_grows(
                                query@,
                                k + 1,
                                summaries@.len() as int,
                            );
                        }
                        return Some((&summaries[k], k));
                    }
                    k = k + 1;
                }
                None
            },
        }
    }
}

/// The place of the first summary of `blocks` before block `n` at which a search stops.
pub open spec fn first_place_before(blocks: Seq<SummaryBlock>, key: SummaryKey, n: int) -> Option<
    (int, int),
>
    decreases n,
{
    if n <= 0 {
        None
    } else if first_place_before(blocks, key, n - 1) is Some {
        first_place_before(blocks, key, n - 1)
    } else {
        match blocks[n - 1].first(key) {
            Some(k) => Some((n - 1, k)),
            None => None,
        }
    }
}

/// A prefix that stops a search decides it.
proof fn lemma_first_place_before_grows(
    blocks: Seq<SummaryBlock>,
    key: SummaryKey,
    n: int,
    m: int,
)
    requires
        n <= m,
        first_place_before(blocks, key, n) is Some,
    ensures
        first_place_before(blocks, key, m) == first_place_before(blocks, key, n),
    decreases m - n,
{
    if n < m {
        lemma_first_place_before_grows(blocks, key, n, m - 1);
    }
}

/// The first place at which a search stops is a place at which it stops, and none before it is.
proof fn lemma_first_before(block: SummaryBlock, key: SummaryKey, n: int)
    requires
        0 <= n,
    ensures
        match block.first_before(key, n) {
            Some(k) => 0 <= k < n && block.stops(key, k) && forall|i: int|
                0 <= i < k ==> !#[trigger] block.stops(key, i),
            None => forall|i: int| 0 <= i < n ==> !#[trigger] block.stops(key, i),
        },
    decreases n,
{
    if n > 0 {
        lemma_first_before(block, key, n - 1);
    }
}

/// The first place at which a search stops is a place at which it stops, and none before it is.
proof fn lemma_first_place_before(blocks: Seq<SummaryBlock>, key: SummaryKey, n: int)
    requires
        0 <= n <= blocks.len(),
    ensures
        match first_place_before(blocks, key, n) {
            Some((b, k)) => 0 <= b < n && 0 <= k < blocks[b].records().len() && blocks[b].stops(
                key,
                k,
            ) && (forall|j: int| 0 <= j < k ==> !#[trigger] blocks[b].stops(key, j)) && (forall|
                i: int,
                j: int,
            |
                0 <= i < b && 0 <= j < blocks[i].records().len() ==> !#[trigger] blocks[i].stops(
                    key,
                    j,
                )),
            None => forall|i: int, j: int|
                0 <= i < n && 0 <= j < blocks[i].records().len() ==> !#[trigger] blocks[i].stops(
                    key,
                    j,
                ),
        },
    decreases n,
{
    if n > 0 {
        lemma_first_place_before(blocks, key, n - 1);
        lemma_first_before(blocks[n - 1], key, blocks[n - 1].records().len() as int);
    }
}

/// An instant does not change where a search by name stops.
proof fn lemma_same_name(blocks: Seq<SummaryBlock>, name: Seq<char>, epoch: Epoch, n: int)
    ensures
        first_place_before(blocks, SummaryKey::NameAt(name, epoch), n) == first_place_before(
            blocks,
            SummaryKey::Name(name),
            n,
        ),
    decreases n,
{
    if n > 0 {
        lemma_same_name(blocks, name, epoch, n - 1);
        let block = blocks[n - 1];
        lemma_first_before(block, SummaryKey::NameAt(name, epoch), block.records().len() as int);
        lemma_first_before(block, SummaryKey::Name(name), block.records().len() as int);
        match (block.first(SummaryKey::NameAt(name, epoch)), block.first(SummaryKey::Name(name))) {
            (Some(i), Some(j)) => {
                assert(block.stops(SummaryKey::Name(name), i));
                assert(block.stops(SummaryKey::NameAt(name, epoch), j));
            },
            (Some(i), None) => {
                assert(block.stops(SummaryKey::Name(name), i));
            },
            (None, Some(j)) => {
                assert(block.stops(SummaryKey::NameAt(name, epoch), j));
            },
            (None, None) => {},
        }
    }
}

/// No two blocks claim the same record of the file or the same bytes.
pub open spec fn have_own_places(blocks: Seq<SummaryBlock>) -> bool {
    forall|i: int, j: int|
        #![trigger blocks[i], blocks[j]]
        0 <= i < j < blocks.len() ==> !blocks[i].collides(blocks[j])
}

impl SPK {
    /// The summary at position `k` of block `b`.
    pub open spec fn record_at(self, b: int, k: int) -> SPKSummaryRecord {
        self.blocks@[b].records()[k]
    }

    /// Whether block `b` exists and has a summary at position `k`.
    pub open spec fn has(self, b: int, k: int) -> bool {
        0 <= b < self.blocks@.len() && 0 <= k < self.blocks@[b].records().len()
    }

    /// The blocks have places of their own, and the index holds the identifiers whose segments are
    /// in chronological order.
    pub open spec fn wf(self) -> bool {
        &&& have_own_places(self.blocks@)
        &&& forall|id: NaifId| #[trigger]
            self.index@.contains(id) <==> crate::index::is_chronological(self.blocks@, id)
    }

    /// Two blocks that claim the same place are one block.
    pub proof fn lemma_own_place(self, b: int, c: int)
        requires
            self.wf(),
            0 <= b < self.blocks@.len(),
            0 <= c < self.blocks@.len(),
            self.blocks@[b].collides(self.blocks@[c]),
        ensures
            b == c,
    {
        if c < b {
            assert(!self.blocks@[c].collides(self.blocks@[b]));
        }
    }

    /// The block and position of the summary that answers a search, if any does.
    pub open spec fn find(self, key: SummaryKey) -> Option<(int, int)> {
        match first_place_before(self.blocks@, key, self.blocks@.len() as int) {
            Some((b, k)) => match key {
                SummaryKey::NameAt(_, epoch) => if self.record_at(b, k).covers(epoch) {
                    Some((b, k))
                } else {
                    None
                },
                _ => Some((b, k)),
            },
            None => None,
        }
    }

    /// A search stops at the first summary in file order at which it can, and fails only if there
    /// is none or if an instant was asked for that the summary of that name does not cover.
    pub proof fn lemma_find(self, key: SummaryKey)
        ensures
            match self.find(key) {
                Some((b, k)) => self.has(b, k) && self.blocks@[b].stops(key, k) && (key
                    matches SummaryKey::NameAt(_, epoch) ==> self.record_at(b, k).covers(epoch)) && (
                forall|i: int, j: int|
                    self.has(i, j) && (i < b || (i == b && j < k))
                        ==> !#[trigger] self.blocks@[i].stops(key, j)),
                None => match key {
                    SummaryKey::NameAt(name, epoch) => match self.find(SummaryKey::Name(name)) {
                        Some((b, k)) => !self.record_at(b, k).covers(epoch),
                        None => true,
                    },
                    _ => forall|i: int, j: int|
                        self.has(i, j) ==> !#[trigger] self.blocks@[i].stops(key, j),
                },
            },
    {
        lemma_first_place_before(self.blocks@, key, self.blocks@.len() as int);
        if let SummaryKey::NameAt(name, epoch) = key {
            lemma_same_name(self.blocks@, name, epoch, self.blocks@.len() as int);
        }
    }

    /// Whether `summary` stands at position `k` of block `b`, which `daf_idx` and `idx` name.
    pub open spec fn is_at(
        self,
        b: int,
        k: int,
        summary: SPKSummaryRecord,
        daf_idx: Option<usize>,
        idx: usize,
    ) -> bool {
        self.has(b, k) && summary == self.record_at(b, k) && daf_idx == self.blocks@[b].daf_idx
            && idx == k
    }

    /// All summaries before block `n`, in file order.
    pub open spec fn records_before(self, n: int) -> Seq<SPKSummaryRecord>
        decreases n,
    {
        if n <= 0 {
            Seq::empty()
        } else {
            self.records_before(n - 1) + self.blocks@[n - 1].records()
        }
    }

    /// All summaries of the kernel that can be decoded, in file order.
    pub open spec fn records(self) -> Seq<SPKSummaryRecord> {
        self.records_before(self.blocks@.len() as int)
    }

    /// A kernel of these summary records, in the order in which they are searched. Nothing if two
    /// of the records claim the same place in the file.
    pub fn new(blocks: Vec<SummaryBlock>) -> (r: Option<SPK>)
        ensures
            match r {
                Some(spk) => spk.wf() && spk.blocks == blocks,
                None => !have_own_places(blocks@),
            },
    {
        let mut i: usize = 0;
        while i < blocks.len()
            invariant
                i <= blocks.len(),
                forall|p: int, q: int|
                    #![trigger blocks@[p], blocks@[q]]
                    0 <= p < i && p < q < blocks@.len() ==> !blocks@[p].collides(blocks@[q]),
            decreases blocks.len() - i,
        {
            let mut j: usize = i + 1;
            while j < blocks.len()
                invariant
                    i < j <= blocks.len(),
                    forall|q: int| i < q < j ==> !blocks@[i as int].collides(#[trigger] blocks@[q]),
                decreases blocks.len() - j,
            {
                if blocks[i].shares_place(&blocks[j]) {
                    assert(blocks@[i as int].collides(blocks@[j as int]));
                    return None;
                }
                j = j + 1;
            }
            i = i + 1;
        }
        let index: HashSet<NaifId> = chronological_ids(&blocks);
        Some(SPK { blocks, index })
    }

    /// The byte range of the summaries in the record that `daf_idx` names, if there is one.
    pub fn summaries_byte_range(&self, daf_idx: Option<usize>) -> (r: Option<(usize, usize)>)
        ensures
            match r {
                Some(range) => exists|b: int|
                    0 <= b < self.blocks@.len() && #[trigger] self.blocks@[b].daf_idx == daf_idx
                        && self.blocks@[b].summaries_byte_range == range,
                None => forall|b: int|
                    0 <= b < self.blocks@.len() ==> #[trigger] self.blocks@[b].daf_idx != daf_idx,
            },
    {
        let mut b: usize = 0;
        while b < self.blocks.len()
            invariant
                b <= self.blocks.len(),
                forall|i: int| 0 <= i < b ==> #[trigger] self.blocks@[i].daf_idx != daf_idx,
            decreases self.blocks.len() - b,
        {
            if self.blocks[b].daf_idx == daf_idx {
                return Some(self.blocks[b].summaries_byte_range);
            }
            b = b + 1;
        }
        None
    }

    /// The summaries that lie at this byte range, if a summary record lies there and can be
    /// decoded.
    pub fn data_summaries_in_range(&self, range: (usize, usize)) -> (r: Option<
        &Vec<SPKSummaryRecord>,
    >)
        requires
            self.wf(),
        ensures
            match r {
                Some(summaries) => exists|b: int|
                    0 <= b < self.blocks@.len() && #[trigger] self.blocks@[b].summaries_byte_range
                        == range && self.blocks@[b].summaries == Some(*summaries),
                None => forall|b: int|
                    0 <= b < self.blocks@.len() && #[trigger] self.blocks@[b].summaries_byte_range
                        == range ==> self.blocks@[b].summaries is None,
            },
    {
        let mut b: usize = 0;
        while b < self.blocks.len()
            invariant
                self.wf(),
                b <= self.blocks.len(),
                forall|i: int|
                    0 <= i < b ==> #[trigger] self.blocks@[i].summaries_byte_range != range,
            decreases self.blocks.len() - b,
        {
            let block: &SummaryBlock = &self.blocks[b];
            if block.summaries_byte_range.0 == range.0 && block.summaries_byte_range.1 == range.1 {
                return block.summaries.as_ref();
            }
            b = b + 1;
        }
        None
    }

    /// Searches the summaries in file order. Returns the summary, the record that holds it and
    /// its position in that record.
    pub fn find_summary(&self, query: &SummaryQuery) -> (r: Option<
        (&SPKSummaryRecord, Option<usize>, usize),
    >)
        ensures
            match self.find(query@) {
                Some((b, k)) => r matches Some((summary, daf_idx, idx)) && self.is_at(
                    b,
                    k,
                    *summary,
                    daf_idx,
                    idx,
                ),
                None => r is None,
            },
    {
        let mut b: usize = 0;
        while b < self.blocks.len()
            invariant
                b <= self.blocks.len(),
                first_place_before(self.blocks@, query@, b as int) is None,
            decreases self.blocks.len() - b,
        {
            let block: &SummaryBlock = &self.blocks[b];
            if let Some((summary, k)) = block.find_first(query) {
                proof {
                    lemma_first_place_before_grows(
                        self.blocks@,
                        query@,
                        b + 1,
                        self.blocks@.len() as int,
                    );
                }
                if let SummaryQuery::NameAt(_, epoch) = query {
                    if !summary.is_valid_at(epoch) {
                        return None;
                    }
                }
                return Some((summary, block.daf_idx, k));
            }
            b = b + 1;
        }
        None
    }
}

} // verus!
