//! The memory of previous ephemeris queries.

use std::collections::HashMap;

use vstd::prelude::*;
use vstd::rwlock::{ReadHandle, RwLock, RwLockPredicate, WriteHandle};

use crate::epoch::{Duration, Epoch, EtSeconds};
use crate::spk::{DafDataType, SPK};
use crate::NaifId;

verus! {

broadcast use vstd::std_specs::hash::group_hash_axioms;

/// Memoized location of the most recent segment match for a NAIF ID. Indices are only hints:
/// every use re-fetches the live summary and validates the ID and epoch bounds before trusting it.
#[derive(Clone, Copy, Debug)]
pub struct SpkSegmentMemo {
    pub spk_no: usize,
    pub daf_idx: Option<usize>,
    pub idx_in_spk: usize,
    /// Byte range of the summaries portion of the segment's summary record, resolved at store time.
    pub summaries_byte_range: (usize, usize),
    /// Bounds of the segment in ET seconds, copied from the summary at store time. A hit compares
    /// tightly, with no pad: boundary epochs fall back to the full search, which applies the exact
    /// padded semantics.
    pub start_et_s: EtSeconds,
    pub end_et_s: EtSeconds,
    pub decoded: Option<DecodedSplineHeader>,
}

/// The parsed header of an interpolation set. Holds values only, no references into the kernel.
#[derive(Clone, Copy, Debug)]
pub struct DecodedSplineHeader {
    pub dtype: DafDataType,
    pub init_epoch: Epoch,
    pub interval_length: Duration,
    pub rsize: usize,
    pub num_records: usize,
    /// Byte range of the segment's data within the kernel.
    pub dbl_byte_range: (usize, usize),
}

/// What the cache remembers.
#[derive(Debug)]
pub struct CacheState {
    pub root: Option<NaifId>,
    pub spk_segments: HashMap<NaifId, SpkSegmentMemo>,
}

impl CacheState {
    /// Remembers nothing.
    pub fn new() -> (state: CacheState)
        ensures
            state.root is None,
            state.spk_segments@ == Map::<NaifId, SpkSegmentMemo>::empty(),
    {
        CacheState { root: None, spk_segments: HashMap::new() }
    }

    /// The memo for `id`.
    pub fn segment(&self, id: NaifId) -> (memo: Option<SpkSegmentMemo>)
        ensures
            memo == (if self.spk_segments@.contains_key(id) {
                Some(self.spk_segments@[id])
            } else {
                None
            }),
    {
        match self.spk_segments.get(&id) {
            Some(memo) => Some(*memo),
            None => None,
        }
    }

    /// Replaces the memo for `id`.
    pub fn store_segment(&mut self, id: NaifId, memo: SpkSegmentMemo)
        ensures
            final(self).root == old(self).root,
            final(self).spk_segments@ == old(self).spk_segments@.insert(id, memo),
    {
        self.spk_segments.insert(id, memo);
    }

    /// Replaces the root of the ephemeris tree.
    pub fn memoize_root(&mut self, root: NaifId)
        ensures
            final(self).root == Some(root),
            final(self).spk_segments == old(self).spk_segments,
    {
        self.root = Some(root);
    }

    /// Attaches a decoded header to the memo for `id`, but only if that memo still points at the
    /// exact segment the header was decoded from.
    pub fn attach_decoded(
        &mut self,
        id: NaifId,
        spk_no: usize,
        daf_idx: Option<usize>,
        idx_in_spk: usize,
        header: DecodedSplineHeader,
    )
        ensures
            final(self).root == old(self).root,
            ({
                let memo = old(self).spk_segments@[id];
                final(self).spk_segments@ == if old(self).spk_segments@.contains_key(id)
                    && memo.spk_no == spk_no && memo.daf_idx == daf_idx && memo.idx_in_spk
                    == idx_in_spk {
                    old(self).spk_segments@.insert(
                        id,
                        SpkSegmentMemo { decoded: Some(header), ..memo },
                    )
                } else {
                    old(self).spk_segments@
                }
            }),
    {
        if let Some(memo) = self.segment(id) {
            if memo.spk_no == spk_no && memo.daf_idx == daf_idx && memo.idx_in_spk == idx_in_spk {
                self.store_segment(id, SpkSegmentMemo { decoded: Some(header), ..memo });
            }
        }
    }
}

/// What a cache may hold: memos about these kernels, if it is bound to any; these roots; and of each
/// segment, by its kernel, record and position, these decoded headers.
pub struct CachePred {
    pub kernels: Option<Seq<(Seq<char>, SPK)>>,
    pub roots: Set<NaifId>,
    pub headers: Set<(usize, Option<usize>, usize, DecodedSplineHeader)>,
}

impl CachePred {
    /// Memos about these kernels or, if there are none, any memos; any root and any header.
    pub open spec fn about(kernels: Option<Seq<(Seq<char>, SPK)>>) -> CachePred {
        CachePred { kernels, roots: Set::full(), headers: Set::full() }
    }

    /// Whether this memo may be stored for `id`: it is one that queries leave behind, and its
    /// decoded header, if it has one, is a header of the segment that it points at.
    pub open spec fn admits(self, id: NaifId, memo: SpkSegmentMemo) -> bool {
        &&& self.kernels matches Some(kernels) ==> crate::search::is_sound_memo(kernels, id, memo)
        &&& memo.decoded matches Some(header) ==> self.headers.contains(
            (memo.spk_no, memo.daf_idx, memo.idx_in_spk, header),
        )
    }
}

/// A header of the segment that a memo points at may be attached to it.
proof fn lemma_header_is_admitted(
    pred: CachePred,
    id: NaifId,
    memo: SpkSegmentMemo,
    header: DecodedSplineHeader,
)
    requires
        pred.admits(id, memo),
        pred.headers.contains((memo.spk_no, memo.daf_idx, memo.idx_in_spk, header)),
    ensures
        pred.admits(id, SpkSegmentMemo { decoded: Some(header), ..memo }),
{
    if let Some(kernels) = pred.kernels {
        let (n, k) = (memo.spk_no as int, memo.idx_in_spk as int);
        let b = choose|b: int| #[trigger]
            crate::search::memoizable(kernels, id, n, b, k) && crate::search::describes(
                kernels,
                memo,
                n,
                b,
                k,
            );
        let with_header = SpkSegmentMemo { decoded: Some(header), ..memo };
        assert(crate::search::memoizable(kernels, id, n, b, k) && crate::search::describes(
            kernels,
            with_header,
            n,
            b,
            k,
        ));
    }
}

impl RwLockPredicate<CacheState> for CachePred {
    open spec fn inv(self, state: CacheState) -> bool {
        &&& state.root matches Some(root) ==> self.roots.contains(root)
        &&& forall|id: NaifId| #[trigger]
            state.spk_segments@.contains_key(id) ==> self.admits(id, state.spk_segments@[id])
    }
}

/// Internal ephemeris query cache, shared by all that query. A pure optimization: whatever comes
/// out of it is a hint that is validated before use, and never an error. The lock is held for one
/// operation on [`CacheState`] at a time and cannot be poisoned.
///
/// What a shared cache holds at some moment is up to all who use it, so the contracts of its
/// methods speak of the state that the call itself found behind the lock: what is read comes from
/// it, and what is written replaces it. They also speak of everything that can come out: a root that
/// was fit to be stored, a memo that a query may leave behind, a header of the segment that its memo
/// points at.
pub struct EphemerisCache {
    state: RwLock<CacheState, CachePred>,
}

impl EphemerisCache {
    /// What this cache may hold.
    pub closed spec fn pred(self) -> CachePred {
        self.state.pred()
    }

    /// Whether a reader of the lock found this state.
    pub closed spec fn held(self, state: CacheState) -> bool {
        exists|handle: ReadHandle<CacheState, CachePred>| #[trigger]
            call_ensures(RwLock::<CacheState, CachePred>::acquire_read, (&self.state,), handle)
                && handle.view() == state
    }

    /// Whether a writer of the lock found the state `before` and left the state `after`.
    pub closed spec fn replaced(self, before: CacheState, after: CacheState) -> bool {
        exists|handle: WriteHandle<CacheState, CachePred>| #[trigger]
            call_ensures(
                RwLock::<CacheState, CachePred>::acquire_write,
                (&self.state,),
                (before, handle),
            ) && call_ensures(
                WriteHandle::<CacheState, CachePred>::release_write,
                (handle, after),
                (),
            )
    }

    /// Whether the lock was made around a state that remembers nothing.
    pub closed spec fn began_empty(self) -> bool {
        exists|state: CacheState|
            state.root is None && state.spk_segments@ == Map::<NaifId, SpkSegmentMemo>::empty()
                && #[trigger] call_ensures(
                RwLock::<CacheState, CachePred>::new,
                (state, Ghost(self.pred())),
                self.state,
            )
    }

    /// A cold cache, whatever it may come to hold.
    pub(crate) fn cold(Ghost(pred): Ghost<CachePred>) -> (cache: EphemerisCache)
        ensures
            cache.pred() == pred,
            cache.began_empty(),
    {
        let empty: CacheState = CacheState::new();
        EphemerisCache { state: RwLock::new(empty, Ghost(pred)) }
    }

    /// The memo for `id`, if there is one.
    pub fn spk_segment(&self, id: NaifId) -> (memo: Option<SpkSegmentMemo>)
        ensures
            memo matches Some(m) ==> self.pred().admits(id, m),
            exists|state: CacheState| #[trigger]
                self.held(state) && memo == (if state.spk_segments@.contains_key(id) {
                    Some(state.spk_segments@[id])
                } else {
                    None
                }),
    {
        let handle = self.state.acquire_read();
        let memo: Option<SpkSegmentMemo> = handle.borrow().segment(id);
        assert(self.held(handle.view()));
        handle.release_read();
        memo
    }

    /// Replaces the memo for `id`.
    pub fn store_spk_segment(&self, id: NaifId, memo: SpkSegmentMemo)
        requires
            self.pred().admits(id, memo),
        ensures
            exists|before: CacheState, after: CacheState| #[trigger]
                self.replaced(before, after) && after.root == before.root && after.spk_segments@
                    == before.spk_segments@.insert(id, memo),
    {
        let (mut state, handle) = self.state.acquire_write();
        let ghost before = state;
        state.store_segment(id, memo);
        let ghost after = state;
        handle.release_write(state);
        assert(self.replaced(before, after));
    }

    /// Attaches a decoded header to the memo for `id`, but only if that memo still points at the
    /// exact segment the header was decoded from.
    pub fn store_decoded(
        &self,
        id: NaifId,
        spk_no: usize,
        daf_idx: Option<usize>,
        idx_in_spk: usize,
        header: DecodedSplineHeader,
    )
        requires
            self.pred().headers.contains((spk_no, daf_idx, idx_in_spk, header)),
        ensures
            exists|before: CacheState, after: CacheState| #[trigger]
                self.replaced(before, after) && after.root == before.root && ({
                    let memo = before.spk_segments@[id];
                    after.spk_segments@ == if before.spk_segments@.contains_key(id) && memo.spk_no
                        == spk_no && memo.daf_idx == daf_idx && memo.idx_in_spk == idx_in_spk {
                        before.spk_segments@.insert(
                            id,
                            SpkSegmentMemo { decoded: Some(header), ..memo },
                        )
                    } else {
                        before.spk_segments@
                    }
                }),
    {
        let (mut state, handle) = self.state.acquire_write();
        let ghost before = state;
        state.attach_decoded(id, spk_no, daf_idx, idx_in_spk, header);
        let ghost after = state;
        proof {
            if after.spk_segments@ != before.spk_segments@ {
                lemma_header_is_admitted(self.pred(), id, before.spk_segments@[id], header);
            }
        }
        handle.release_write(state);
        assert(self.replaced(before, after));
    }

    /// The memoized root of the ephemeris tree, if there is one.
    pub fn root(&self) -> (root: Option<NaifId>)
        ensures
            root matches Some(r) ==> self.pred().roots.contains(r),
            exists|state: CacheState| #[trigger] self.held(state) && root == state.root,
    {
        let handle = self.state.acquire_read();
        let root: Option<NaifId> = handle.borrow().root;
        assert(self.held(handle.view()));
        handle.release_read();
        root
    }

    /// Memoizes the root of the ephemeris tree.
    pub fn store_root(&self, root: NaifId)
        requires
            self.pred().roots.contains(root),
        ensures
            exists|before: CacheState, after: CacheState| #[trigger]
                self.replaced(before, after) && after.root == Some(root) && after.spk_segments
                    == before.spk_segments,
    {
        let (mut state, handle) = self.state.acquire_write();
        let ghost before = state;
        state.memoize_root(root);
        let ghost after = state;
        handle.release_write(state);
        assert(self.replaced(before, after));
    }

    /// Drops all memoized data.
    pub fn invalidate(&self)
        ensures
            exists|before: CacheState, after: CacheState| #[trigger]
                self.replaced(before, after) && after.root is None && after.spk_segments@ == Map::<
                    NaifId,
                    SpkSegmentMemo,
                >::empty(),
    {
        let (before, handle) = self.state.acquire_write();
        let after: CacheState = CacheState::new();
        let ghost (found, left) = (before, after);
        handle.release_write(after);
        assert(self.replaced(found, left));
    }

    /// Only a reader of the lock shows what the cache held, only a writer what was replaced, and only
    /// a lock that was made around nothing began with nothing.
    proof fn law_the_lock_shows_the_state(self, before: CacheState, after: CacheState)
        ensures
            self.held(before) <==> exists|handle: ReadHandle<CacheState, CachePred>| #[trigger]
                call_ensures(
                    RwLock::<CacheState, CachePred>::acquire_read,
                    (&self.state,),
                    handle,
                ) && handle.view() == before,
            self.replaced(before, after) <==> exists|
                handle: WriteHandle<CacheState, CachePred>,
            | #[trigger]
                call_ensures(
                    RwLock::<CacheState, CachePred>::acquire_write,
                    (&self.state,),
                    (before, handle),
                ) && call_ensures(
                    WriteHandle::<CacheState, CachePred>::release_write,
                    (handle, after),
                    (),
                ),
            self.began_empty() <==> exists|state: CacheState|
                state.root is None && state.spk_segments@ == Map::<
                    NaifId,
                    SpkSegmentMemo,
                >::empty() && #[trigger] call_ensures(
                    RwLock::<CacheState, CachePred>::new,
                    (state, Ghost(self.pred())),
                    self.state,
                ),
    {
    }
}

/// A cold cache that is bound to no kernels and may hold anything.
impl Default for EphemerisCache {
    fn default() -> (cache: EphemerisCache)
        ensures
            cache.pred() == CachePred::about(None),
            cache.began_empty(),
    {
        EphemerisCache::cold(Ghost(CachePred::about(None)))
    }
}

/// Cloning yields a fresh, cold cache: clones are typically sent to other threads, and sharing the
/// lock would couple their performance.
impl Clone for EphemerisCache {
    fn clone(&self) -> (cache: EphemerisCache)
        ensures
            cache.pred() == self.pred(),
            cache.began_empty(),
    {
        EphemerisCache::cold(Ghost(self.pred()))
    }
}

} // verus!
