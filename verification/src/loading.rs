//! What loading and unloading do to the kernels, place by place.

use vstd::prelude::*;

use crate::almanac::Almanac;
use crate::epoch::Duration;
use crate::spk::SPK;

verus! {

/// Loading a kernel under a new alias adds it behind all others.
pub proof fn law_a_new_alias_is_added_last(
    kernels: Seq<(Seq<char>, SPK)>,
    alias: Seq<char>,
    spk: SPK,
)
    requires
        forall|i: int| 0 <= i < kernels.len() ==> (#[trigger] kernels[i]).0 != alias,
    ensures
        crate::search::loaded(kernels, alias, spk) == kernels.push((alias, spk)),
        crate::search::unloaded(kernels, alias) == kernels,
        crate::kernels::position_of(kernels, alias) is None,
{
    crate::kernels::lemma_position_of(kernels, alias);
}

/// Loading a kernel under an alias in use takes out the kernel that has it, lets those behind it move
/// up, and adds the new one behind all others. Unloading the alias takes the kernel out as well, but
/// puts the last one in its place.
pub proof fn law_an_alias_in_use_is_given_up(
    kernels: Seq<(Seq<char>, SPK)>,
    alias: Seq<char>,
    spk: SPK,
    i: int,
)
    requires
        forall|i: int, j: int|
            0 <= i < j < kernels.len() ==> (#[trigger] kernels[i]).0 != (#[trigger] kernels[j]).0,
        0 <= i < kernels.len(),
        kernels[i].0 == alias,
    ensures
        ({
            let more = crate::search::loaded(kernels, alias, spk);
            let fewer = crate::search::unloaded(kernels, alias);
            let last = kernels.len() - 1;
            &&& crate::kernels::position_of(kernels, alias) == Some(i)
            &&& more.len() == kernels.len()
            &&& more[last] == (alias, spk)
            &&& forall|j: int| 0 <= j < i ==> #[trigger] more[j] == kernels[j]
            &&& forall|j: int| i <= j < last ==> #[trigger] more[j] == kernels[j + 1]
            &&& fewer.len() == last
            &&& forall|j: int| 0 <= j < last && j != i ==> #[trigger] fewer[j] == kernels[j]
            &&& i < last ==> fewer[i] == kernels[last]
        }),
{
    crate::kernels::lemma_position_of(kernels, alias);
}

/// A context into which a kernel was loaded without an alias holds it last, under what is printed for
/// a reading that the clock gave; where the clock can be read, that is the text of a time.
pub proof fn law_a_kernel_without_alias_is_named_by_the_clock(
    before: Almanac,
    after: Almanac,
    spk: SPK,
)
    requires
        exists|reading: Option<Duration>|
            crate::epoch::is_clock_reading(reading) && after.kernels() == crate::search::loaded(
                before.kernels(),
                #[trigger] crate::epoch::time_text(reading),
                spk,
            ),
    ensures
        after.kernels().len() > 0,
        after.kernels().last().1 == spk,
        exists|reading: Option<Duration>| #[trigger]
            crate::epoch::is_clock_reading(reading) && after.kernels().last().0 == (match reading {
                Some(utc) => crate::epoch::utc_text(utc.centuries, utc.nanoseconds),
                None => "1900-01-01T00:00:00 TAI"@,
            }),
        !crate::epoch::is_clock_reading(None) ==> exists|utc: Duration| #[trigger]
            crate::epoch::is_clock_reading(Some(utc)) && after.kernels().last().0
                == crate::epoch::utc_text(utc.centuries, utc.nanoseconds),
{
    let reading = choose|reading: Option<Duration>|
        crate::epoch::is_clock_reading(reading) && after.kernels() == crate::search::loaded(
            before.kernels(),
            #[trigger] crate::epoch::time_text(reading),
            spk,
        );
    if let Some(utc) = reading {
        assert(crate::epoch::is_clock_reading(Some(utc)));
    }
}

/// Of two kernels that are loaded one after the other under different readings of the clock, the
/// first stays loaded, right before the second.
pub proof fn law_kernels_of_different_times_stay_apart(
    kernels: Seq<(Seq<char>, SPK)>,
    one: SPK,
    other: SPK,
    first: Option<Duration>,
    second: Option<Duration>,
)
    requires
        crate::epoch::time_text(first) != crate::epoch::time_text(second),
        forall|i: int|
            0 <= i < kernels.len() ==> (#[trigger] kernels[i]).0 != crate::epoch::time_text(first)
                && kernels[i].0 != crate::epoch::time_text(second),
    ensures
        crate::search::loaded(
            crate::search::loaded(kernels, crate::epoch::time_text(first), one),
            crate::epoch::time_text(second),
            other,
        ) == kernels.push((crate::epoch::time_text(first), one)).push(
            (crate::epoch::time_text(second), other),
        ),
{
    let more = kernels.push((crate::epoch::time_text(first), one));
    law_a_new_alias_is_added_last(kernels, crate::epoch::time_text(first), one);
    law_a_new_alias_is_added_last(more, crate::epoch::time_text(second), other);
}

} // verus!
