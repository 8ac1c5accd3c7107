//! Lookup of ephemeris segments across loaded SPK kernels.
//!
//! An [`almanac::Almanac`] holds kernels in loading order. Queries search them from the most
//! recently loaded to the first, and a small cache remembers where the last answer for an
//! identifier was found. The cache is an optimization only: it never changes an answer, as the
//! contracts and the proof functions in [`laws`] state. What a query answers, lists and remembers,
//! and what a load does, is stated in terms of the stored segments in [`answers`], [`listing`],
//! [`remembered`] and [`loading`]; [`terms`] says what the words of the contracts mean.

pub mod almanac;
pub mod answers;
pub mod cache;
pub mod epoch;
pub mod error;
pub mod index;
pub mod kernels;
pub mod laws;
pub mod listing;
pub mod loading;
pub mod remembered;
pub mod search;
pub mod spk;
pub mod terms;

use vstd::prelude::*;

verus! {

/// A NAIF identifier of a body, barycenter or spacecraft.
pub type NaifId = i32;

} // verus!
