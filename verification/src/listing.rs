//! What is listed of an identifier and which domain it has, in terms of the segments that the kernels
//! store.

use vstd::prelude::*;

use crate::epoch::Epoch;
use crate::spk::{SPKSummaryRecord, SPK};
use crate::NaifId;

verus! {

/// The positions of one identifier among the summaries, in order.
proof fn lemma_positions_of_id(records: Seq<SPKSummaryRecord>, id: NaifId) -> (at: Seq<int>)
    ensures
        at.len() == crate::search::with_id(records, id).len(),
        forall|i: int|
            0 <= i < at.len() ==> 0 <= #[trigger] at[i] < records.len() && records[at[i]].target_id
                == id && crate::search::with_id(records, id)[i] == records[at[i]],
        forall|i: int, j: int| 0 <= i < j < at.len() ==> #[trigger] at[i] < #[trigger] at[j],
        forall|j: int|
            0 <= j < records.len() && (#[trigger] records[j]).target_id == id ==> at.contains(j),
    decreases records.len(),
{
    if records.len() == 0 {
        Seq::empty()
    } else {
        let init = records.drop_last();
        let last = records.len() - 1;
        let before = lemma_positions_of_id(init, id);
        assert forall|j: int| 0 <= j < last implies init[j] == #[trigger] records[j] by {}
        assert forall|i: int| 0 <= i < before.len() implies 0 <= #[trigger] before[i] < last
            && records[before[i]] == init[before[i]] by {}
        if records[last].target_id == id {
            let at = before.push(last);
            assert forall|j: int|
                0 <= j < records.len() && (#[trigger] records[j]).target_id
                    == id implies at.contains(j) by {
                if j < last {
                    let i = choose|i: int| 0 <= i < before.len() && before[i] == j;
                    assert(at[i] == j);
                } else {
                    assert(at[before.len() as int] == j);
                }
            }
            at
        } else {
            before
        }
    }
}

/// The summaries of an identifier are listed once each and in order: the list is read off at strictly
/// increasing positions, which are exactly those of the summaries that have the identifier.
pub proof fn law_each_summary_is_listed_once(
    records: Seq<SPKSummaryRecord>,
    id: NaifId,
) -> (at: Seq<int>)
    ensures
        at.len() == crate::search::with_id(records, id).len(),
        forall|i: int|
            0 <= i < at.len() ==> 0 <= #[trigger] at[i] < records.len()
                && crate::search::with_id(records, id)[i] == records[at[i]],
        forall|i: int, j: int| 0 <= i < j < at.len() ==> #[trigger] at[i] < #[trigger] at[j],
        forall|j: int|
            0 <= j < records.len() ==> (at.contains(j) <==> (#[trigger] records[j]).target_id
                == id),
        crate::search::with_id(records, id) == records.filter(
            |record: SPKSummaryRecord| record.target_id == id,
        ),
{
    lemma_list_is_filtered(records, id);
    lemma_positions_of_id(records, id)
}

proof fn lemma_list_is_filtered(records: Seq<SPKSummaryRecord>, id: NaifId)
    ensures
        crate::search::with_id(records, id) == records.filter(
            |record: SPKSummaryRecord| record.target_id == id,
        ),
    decreases records.len(),
{
    reveal(Seq::filter);
    if records.len() > 0 {
        lemma_list_is_filtered(records.drop_last(), id);
    }
}

/// The places of the summaries before block `n`, in file order.
proof fn lemma_places_in_file(spk: SPK, n: int) -> (places: Seq<(int, int)>)
    requires
        0 <= n <= spk.blocks@.len(),
    ensures
        places.len() == spk.records_before(n).len(),
        forall|i: int|
            0 <= i < places.len() ==> ({
                let (b, k) = #[trigger] places[i];
                b < n && spk.has(b, k) && spk.records_before(n)[i] == spk.record_at(b, k)
            }),
        forall|i: int, j: int|
            #![trigger places[i], places[j]]
            0 <= i < j < places.len() ==> ({
                let (b, k) = places[i];
                let (c, l) = places[j];
                b < c || (b == c && k < l)
            }),
        forall|b: int, k: int|
            b < n && #[trigger] spk.has(b, k) ==> exists|i: int|
                0 <= i < places.len() && #[trigger] places[i] == (b, k),
    decreases n,
{
    if n == 0 {
        Seq::empty()
    } else {
        let before = lemma_places_in_file(spk, n - 1);
        let here = Seq::new(spk.blocks@[n - 1].records().len(), |k: int| (n - 1, k));
        let places = before + here;
        assert forall|b: int, k: int| b < n && #[trigger] spk.has(b, k) implies exists|i: int|
            0 <= i < places.len() && #[trigger] places[i] == (b, k) by {
            if b < n - 1 {
                let i = choose|i: int| 0 <= i < before.len() && #[trigger] before[i] == (b, k);
                assert(places[i] == (b, k));
            } else {
                assert(places[before.len() + k] == (b, k));
            }
        }
        places
    }
}

/// The places of the summaries of the first `n` kernels, the most recently loaded first.
proof fn lemma_places_in_kernels(kernels: Seq<(Seq<char>, SPK)>, n: int) -> (places: Seq<
    (int, int, int),
>)
    requires
        0 <= n <= kernels.len(),
    ensures
        places.len() == crate::search::records_of_first(kernels, n).len(),
        forall|i: int|
            0 <= i < places.len() ==> ({
                let (m, b, k) = #[trigger] places[i];
                0 <= m < n && kernels[m].1.has(b, k) && crate::search::records_of_first(
                    kernels,
                    n,
                )[i] == kernels[m].1.record_at(b, k)
            }),
        forall|i: int, j: int|
            #![trigger places[i], places[j]]
            0 <= i < j < places.len() ==> ({
                let (m, b, k) = places[i];
                let (o, c, l) = places[j];
                o < m || (o == m && (b < c || (b == c && k < l)))
            }),
        forall|m: int, b: int, k: int|
            0 <= m < n && #[trigger] kernels[m].1.has(b, k) ==> exists|i: int|
                0 <= i < places.len() && #[trigger] places[i] == (m, b, k),
    decreases n,
{
    if n == 0 {
        Seq::empty()
    } else {
        let spk = kernels[n - 1].1;
        let file = lemma_places_in_file(spk, spk.blocks@.len() as int);
        let here = Seq::new(file.len(), |i: int| (n - 1, file[i].0, file[i].1));
        let before = lemma_places_in_kernels(kernels, n - 1);
        let places = here + before;
        assert forall|i: int| 0 <= i < here.len() implies #[trigger] here[i] == (
            n - 1,
            file[i].0,
            file[i].1,
        ) by {}
        assert forall|i: int| 0 <= i < places.len() implies ({
            let (m, b, k) = #[trigger] places[i];
            0 <= m < n && kernels[m].1.has(b, k) && crate::search::records_of_first(kernels, n)[i]
                == kernels[m].1.record_at(b, k)
        }) by {
            if i < here.len() {
                let (b, k) = file[i];
                assert(places[i] == (n - 1, b, k));
            } else {
                assert(places[i] == before[i - here.len()]);
            }
        }
        assert forall|i: int, j: int|
            #![trigger places[i], places[j]]
            0 <= i < j < places.len() implies ({
            let (m, b, k) = places[i];
            let (o, c, l) = places[j];
            o < m || (o == m && (b < c || (b == c && k < l)))
        }) by {
            if j < here.len() {
                let (b, k) = file[i];
                let (c, l) = file[j];
                assert(places[i] == (n - 1, b, k) && places[j] == (n - 1, c, l));
            } else if i < here.len() {
                assert(places[j] == before[j - here.len()]);
                assert(places[i] == here[i]);
            } else {
                assert(places[i] == before[i - here.len()]);
                assert(places[j] == before[j - here.len()]);
            }
        }
        assert forall|m: int, b: int, k: int|
            0 <= m < n && #[trigger] kernels[m].1.has(b, k) implies exists|i: int|
            0 <= i < places.len() && #[trigger] places[i] == (m, b, k) by {
            if m < n - 1 {
                let i = choose|i: int| 0 <= i < before.len() && #[trigger] before[i] == (m, b, k);
                assert(places[here.len() + i] == (m, b, k));
            } else {
                let i = choose|i: int| 0 <= i < file.len() && #[trigger] file[i] == (b, k);
                assert(places[i] == (m, b, k));
            }
        }
        places
    }
}

/// The summaries that are listed for an identifier are those that the kernels store under it, each
/// once: the most recently loaded kernel first, and within a kernel in file order.
pub proof fn law_summaries_are_those_stored(
    kernels: Seq<(Seq<char>, SPK)>,
    id: NaifId,
) -> (places: Seq<(int, int, int)>)
    ensures
        places.len() == crate::search::summaries_of(kernels, id).len(),
        forall|i: int|
            0 <= i < places.len() ==> ({
                let (n, b, k) = #[trigger] places[i];
                &&& 0 <= n < kernels.len()
                &&& 0 <= b < kernels[n].1.blocks@.len()
                &&& kernels[n].1.blocks@[b].summaries is Some
                &&& 0 <= k < kernels[n].1.blocks@[b].summaries->0@.len()
                &&& kernels[n].1.blocks@[b].summaries->0@[k].target_id == id
                &&& kernels[n].1.blocks@[b].summaries->0@[k] == crate::search::summaries_of(
                    kernels,
                    id,
                )[i]
            }),
        forall|i: int, j: int|
            #![trigger places[i], places[j]]
            0 <= i < j < places.len() ==> ({
                let (n, b, k) = places[i];
                let (m, c, l) = places[j];
                m < n || (m == n && (b < c || (b == c && k < l)))
            }),
        forall|n: int, b: int, k: int|
            0 <= n < kernels.len() && 0 <= b < kernels[n].1.blocks@.len()
                && kernels[n].1.blocks@[b].summaries is Some && 0 <= k
                < kernels[n].1.blocks@[b].summaries->0@.len() && (
            #[trigger] kernels[n].1.blocks@[b].summaries->0@[k]).target_id == id
                ==> places.contains((n, b, k)),
{
    let records = crate::search::records_of(kernels);
    let all = lemma_places_in_kernels(kernels, kernels.len() as int);
    let at = lemma_positions_of_id(records, id);
    let places = Seq::new(at.len(), |i: int| all[at[i]]);
    assert forall|i: int| 0 <= i < places.len() implies ({
        let (n, b, k) = #[trigger] places[i];
        &&& 0 <= n < kernels.len()
        &&& 0 <= b < kernels[n].1.blocks@.len()
        &&& kernels[n].1.blocks@[b].summaries is Some
        &&& 0 <= k < kernels[n].1.blocks@[b].summaries->0@.len()
        &&& kernels[n].1.blocks@[b].summaries->0@[k].target_id == id
        &&& kernels[n].1.blocks@[b].summaries->0@[k] == crate::search::summaries_of(kernels, id)[i]
    }) by {
        let (n, b, k) = all[at[i]];
        assert(kernels[n].1.has(b, k));
        assert(kernels[n].1.record_at(b, k) == records[at[i]]);
    }
    assert forall|i: int, j: int|
        #![trigger places[i], places[j]]
        0 <= i < j < places.len() implies ({
        let (n, b, k) = places[i];
        let (m, c, l) = places[j];
        m < n || (m == n && (b < c || (b == c && k < l)))
    }) by {
        assert(at[i] < at[j]);
        assert(places[i] == all[at[i]] && places[j] == all[at[j]]);
    }
    assert forall|n: int, b: int, k: int|
        0 <= n < kernels.len() && 0 <= b < kernels[n].1.blocks@.len()
            && kernels[n].1.blocks@[b].summaries is Some && 0 <= k
            < kernels[n].1.blocks@[b].summaries->0@.len() && (
        #[trigger] kernels[n].1.blocks@[b].summaries->0@[k]).target_id
            == id implies places.contains((n, b, k)) by {
        assert(kernels[n].1.has(b, k));
        let p = choose|p: int| 0 <= p < all.len() && #[trigger] all[p] == (n, b, k);
        assert(records[p] == kernels[n].1.record_at(b, k));
        let i = choose|i: int| 0 <= i < at.len() && at[i] == p;
        assert(places[i] == (n, b, k));
    }
    places
}

/// An identifier has summaries to list if and only if some kernel stores one.
pub proof fn lemma_known_ids_are_listed(kernels: Seq<(Seq<char>, SPK)>, id: NaifId)
    ensures
        crate::search::summaries_of(kernels, id).len() == 0 <==> forall|m: int, c: int, l: int|
            0 <= m < kernels.len() && 0 <= c < kernels[m].1.blocks@.len()
                && kernels[m].1.blocks@[c].summaries is Some && 0 <= l
                < kernels[m].1.blocks@[c].summaries->0@.len() ==> (
            #[trigger] kernels[m].1.blocks@[c].summaries->0@[l]).target_id != id,
{
    let places = law_summaries_are_those_stored(kernels, id);
    if places.len() > 0 {
        let (m, c, l) = places[0];
        assert(kernels[m].1.blocks@[c].summaries->0@[l].target_id == id);
    }
}

/// The domain of an identifier runs from the earliest start to the latest end of the segments that
/// the kernels store under it: one starts there and none before, one ends there and none after. There
/// is a domain if and only if a kernel stores such a segment.
pub proof fn law_a_domain_spans_what_is_stored(kernels: Seq<(Seq<char>, SPK)>, id: NaifId)
    ensures
        crate::search::summaries_of(kernels, id).len() > 0 <==> exists|n: int, b: int, k: int|
            0 <= n < kernels.len() && 0 <= b < kernels[n].1.blocks@.len()
                && kernels[n].1.blocks@[b].summaries is Some
                && 0 <= k < kernels[n].1.blocks@[b].summaries->0@.len()
                && (#[trigger] kernels[n].1.blocks@[b].summaries->0@[k]).target_id == id,
        crate::search::summaries_of(kernels, id).len() > 0 ==> ({
            let start = crate::search::earliest_start(crate::search::summaries_of(kernels, id));
            let end = crate::search::latest_end(crate::search::summaries_of(kernels, id));
            &&& exists|n: int, b: int, k: int|
                0 <= n < kernels.len() && 0 <= b < kernels[n].1.blocks@.len()
                    && kernels[n].1.blocks@[b].summaries is Some
                    && 0 <= k < kernels[n].1.blocks@[b].summaries->0@.len()
                    && (#[trigger] kernels[n].1.blocks@[b].summaries->0@[k]).target_id == id
                    && kernels[n].1.blocks@[b].summaries->0@[k].start_epoch == start
            &&& exists|n: int, b: int, k: int|
                0 <= n < kernels.len() && 0 <= b < kernels[n].1.blocks@.len()
                    && kernels[n].1.blocks@[b].summaries is Some
                    && 0 <= k < kernels[n].1.blocks@[b].summaries->0@.len()
                    && (#[trigger] kernels[n].1.blocks@[b].summaries->0@[k]).target_id == id
                    && kernels[n].1.blocks@[b].summaries->0@[k].end_epoch == end
            &&& forall|n: int, b: int, k: int|
                0 <= n < kernels.len() && 0 <= b < kernels[n].1.blocks@.len()
                    && kernels[n].1.blocks@[b].summaries is Some
                    && 0 <= k < kernels[n].1.blocks@[b].summaries->0@.len()
                    && (#[trigger] kernels[n].1.blocks@[b].summaries->0@[k]).target_id == id
                    ==> !kernels[n].1.blocks@[b].summaries->0@[k].start_epoch.precedes(start)
                        && !end.precedes(kernels[n].1.blocks@[b].summaries->0@[k].end_epoch)
        }),
{
    let summaries = crate::search::summaries_of(kernels, id);
    let places = law_summaries_are_those_stored(kernels, id);
    lemma_known_ids_are_listed(kernels, id);
    if summaries.len() > 0 {
        let start = crate::search::earliest_start(summaries);
        let end = crate::search::latest_end(summaries);
        crate::laws::law_domain_is_tight(summaries);
        let i = choose|i: int|
            0 <= i < summaries.len() && (#[trigger] summaries[i]).start_epoch == start;
        let j = choose|j: int|
            0 <= j < summaries.len() && (#[trigger] summaries[j]).end_epoch == end;
        let (n, b, k) = places[i];
        assert(kernels[n].1.blocks@[b].summaries->0@[k].start_epoch == start);
        let (n, b, k) = places[j];
        assert(kernels[n].1.blocks@[b].summaries->0@[k].end_epoch == end);
        assert forall|n: int, b: int, k: int|
            0 <= n < kernels.len() && 0 <= b < kernels[n].1.blocks@.len()
                && kernels[n].1.blocks@[b].summaries is Some
                && 0 <= k < kernels[n].1.blocks@[b].summaries->0@.len()
                && (#[trigger] kernels[n].1.blocks@[b].summaries->0@[k]).target_id == id
                implies !kernels[n].1.blocks@[b].summaries->0@[k].start_epoch.precedes(start)
                && !end.precedes(kernels[n].1.blocks@[b].summaries->0@[k].end_epoch) by {
            let p = choose|p: int| 0 <= p < places.len() && places[p] == (n, b, k);
            assert(summaries[p] == kernels[n].1.blocks@[b].summaries->0@[k]);
        }
    }
}

/// The map of all domains has exactly the identifiers that the kernels store segments of, each with
/// the earliest start and the latest end of these segments.
pub proof fn law_all_domains_span_what_is_stored(
    kernels: Seq<(Seq<char>, SPK)>,
    domains: Map<NaifId, (Epoch, Epoch)>,
    id: NaifId,
)
    requires
        crate::search::is_domain_map(crate::search::records_of(kernels), domains),
    ensures
        domains.contains_key(id) <==> exists|n: int, b: int, k: int|
            0 <= n < kernels.len() && 0 <= b < kernels[n].1.blocks@.len()
                && kernels[n].1.blocks@[b].summaries is Some
                && 0 <= k < kernels[n].1.blocks@[b].summaries->0@.len()
                && (#[trigger] kernels[n].1.blocks@[b].summaries->0@[k]).target_id == id,
        domains.contains_key(id) ==> ({
            let (start, end) = domains[id];
            &&& exists|n: int, b: int, k: int|
                0 <= n < kernels.len() && 0 <= b < kernels[n].1.blocks@.len()
                    && kernels[n].1.blocks@[b].summaries is Some
                    && 0 <= k < kernels[n].1.blocks@[b].summaries->0@.len()
                    && (#[trigger] kernels[n].1.blocks@[b].summaries->0@[k]).target_id == id
                    && kernels[n].1.blocks@[b].summaries->0@[k].start_epoch == start
            &&& exists|n: int, b: int, k: int|
                0 <= n < kernels.len() && 0 <= b < kernels[n].1.blocks@.len()
                    && kernels[n].1.blocks@[b].summaries is Some
                    && 0 <= k < kernels[n].1.blocks@[b].summaries->0@.len()
                    && (#[trigger] kernels[n].1.blocks@[b].summaries->0@[k]).target_id == id
                    && kernels[n].1.blocks@[b].summaries->0@[k].end_epoch == end
            &&& forall|n: int, b: int, k: int|
                0 <= n < kernels.len() && 0 <= b < kernels[n].1.blocks@.len()
                    && kernels[n].1.blocks@[b].summaries is Some
                    && 0 <= k < kernels[n].1.blocks@[b].summaries->0@.len()
                    && (#[trigger] kernels[n].1.blocks@[b].summaries->0@[k]).target_id == id
                    ==> !kernels[n].1.blocks@[b].summaries->0@[k].start_epoch.precedes(start)
                        && !end.precedes(kernels[n].1.blocks@[b].summaries->0@[k].end_epoch)
        }),
{
    law_a_domain_spans_what_is_stored(kernels, id);
    assert(crate::search::summaries_of(kernels, id) == crate::search::with_id(
        crate::search::records_of(kernels),
        id,
    ));
}

} // verus!
