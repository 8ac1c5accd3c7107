//! Why a query or an unload fails.

use vstd::prelude::*;

use crate::epoch::Epoch;
use crate::NaifId;

verus! {

/// A search of the summaries that found nothing.
#[derive(Debug)]
pub enum DAFError {
    /// No summary of this name covers the instant.
    SummaryNameAtEpochError { kind: &'static str, name: String, epoch: Epoch },
    /// Summaries of this identifier exist between `start` and `end`, but none covers the instant.
    SummaryIdAtEpochError {
        kind: &'static str,
        id: NaifId,
        epoch: Epoch,
        start: Epoch,
        end: Epoch,
    },
    /// No summary has this name.
    SummaryNameError { kind: &'static str, name: String },
    /// No summary has this identifier.
    SummaryIdError { kind: &'static str, id: NaifId },
}

/// A request that cannot be served.
#[derive(Debug)]
pub enum EphemerisError {
    /// No kernel is loaded under this alias.
    AliasNotFound { alias: String, action: &'static str },
    /// The search of the loaded kernels failed.
    SPK { action: &'static str, source: DAFError },
    /// No kernel is loaded at all.
    NoEphemerisLoaded,
}

impl DAFError {
    /// Whether two errors are of one kind and hold the same texts, identifiers and instants.
    pub open spec fn says_the_same(self, other: DAFError) -> bool {
        match (self, other) {
            (
                DAFError::SummaryNameAtEpochError { kind: k, name: n, epoch: e },
                DAFError::SummaryNameAtEpochError { kind, name, epoch },
            ) => k@ == kind@ && n@ == name@ && e == epoch,
            (
                DAFError::SummaryIdAtEpochError { kind: k, id: i, epoch: e, start: s, end: t },
                DAFError::SummaryIdAtEpochError { kind, id, epoch, start, end },
            ) => k@ == kind@ && i == id && e == epoch && s == start && t == end,
            (
                DAFError::SummaryNameError { kind: k, name: n },
                DAFError::SummaryNameError { kind, name },
            ) => k@ == kind@ && n@ == name@,
            (
                DAFError::SummaryIdError { kind: k, id: i },
                DAFError::SummaryIdError { kind, id },
            ) => k@ == kind@ && i == id,
            _ => false,
        }
    }
}

impl EphemerisError {
    /// Whether two errors are of one kind and hold the same texts, identifiers and instants.
    pub open spec fn says_the_same(self, other: EphemerisError) -> bool {
        match (self, other) {
            (
                EphemerisError::AliasNotFound { alias: a, action: x },
                EphemerisError::AliasNotFound { alias, action },
            ) => a@ == alias@ && x@ == action@,
            (
                EphemerisError::SPK { action: x, source: s },
                EphemerisError::SPK { action, source },
            ) => x@ == action@ && s.says_the_same(source),
            (EphemerisError::NoEphemerisLoaded, EphemerisError::NoEphemerisLoaded) => true,
            _ => false,
        }
    }

    /// The error of a search for summaries of an identifier that no kernel has.
    pub open spec fn is_unknown_id(self, unknown: NaifId) -> bool {
        self matches EphemerisError::SPK {
            action,
            source: DAFError::SummaryIdError { kind, id },
        } && action@ == "searching for SPK summary"@ && kind@ == "SPK"@ && id == unknown
    }

    /// The error of a search for a name that no kernel has.
    pub open spec fn is_unknown_name(self, unknown: Seq<char>) -> bool {
        self matches EphemerisError::SPK {
            action,
            source: DAFError::SummaryNameError { kind, name },
        } && action@ == "searching for SPK summary"@ && kind@ == "SPK"@ && name@ == unknown
    }

    /// The error of a search for a name at an instant that no kernel covers.
    pub open spec fn is_name_without_data(self, sought: Seq<char>, at: Epoch) -> bool {
        self matches EphemerisError::SPK {
            action,
            source: DAFError::SummaryNameAtEpochError { kind, name, epoch },
        } && action@ == "searching for SPK summary"@ && kind@ == "SPK"@ && name@ == sought && epoch
            == at
    }

    /// The error of a search for an identifier at an instant outside its data, which spans
    /// `from` to `to`.
    pub open spec fn is_id_without_data(
        self,
        sought: NaifId,
        at: Epoch,
        from: Epoch,
        to: Epoch,
    ) -> bool {
        self matches EphemerisError::SPK {
            action,
            source: DAFError::SummaryIdAtEpochError { kind, id, epoch, start, end },
        } && action@ == "searching for SPK summary"@ && kind@ == "SPK"@ && id == sought && epoch
            == at && start == from && end == to
    }

    /// The error of an unload of an alias that is not loaded.
    pub open spec fn is_unknown_alias(self, unknown: Seq<char>) -> bool {
        self matches EphemerisError::AliasNotFound { alias, action } && action@
            == "unload ephemeris"@ && alias@ == unknown
    }

    pub(crate) fn unknown_id(id: NaifId) -> (e: EphemerisError)
        ensures
            e.is_unknown_id(id),
    {
        EphemerisError::SPK {
            action: "searching for SPK summary",
            source: DAFError::SummaryIdError { kind: "SPK", id },
        }
    }
}

} // verus!
