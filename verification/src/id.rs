//! The identifier of one composite image: a UTC instant.

use core::cmp::Ordering;
use vstd::prelude::*;
use vstd::std_specs::cmp::PartialOrdSpec;

verus! {

/// Names one composite image by the UTC instant at which it was taken.
///
/// The instant is held as whole seconds since the Unix epoch and the
/// nanoseconds past that second. During a leap second the nanoseconds run
/// past 999,999,999, so instants are ordered by the seconds first and by the
/// nanoseconds second.
#[derive(Debug, Clone, Copy, Hash, PartialEq, Eq, Structural, Ord)]
pub struct DownloadId {
    secs: i64,
    nanos: u32,
}

/// The order of two instants, each given as seconds and nanoseconds.
pub open spec fn instant_lt(a: (int, int), b: (int, int)) -> bool {
    a.0 < b.0 || (a.0 == b.0 && a.1 < b.1)
}

impl DownloadId {
    /// The instant that the identifier stands for.
    pub closed spec fn instant(self) -> (int, int) {
        (self.secs as int, self.nanos as int)
    }

    /// The identifier of the instant `secs` seconds and `nanos` nanoseconds
    /// after the Unix epoch.
    pub closed spec fn at(secs: i64, nanos: u32) -> DownloadId {
        DownloadId { secs, nanos }
    }

    /// The seconds of the instant, as a specification value.
    pub open spec fn spec_timestamp(self) -> i64 {
        self.instant().0 as i64
    }

    /// The nanoseconds of the instant, as a specification value.
    pub open spec fn spec_subsec_nanos(self) -> u32 {
        self.instant().1 as u32
    }

    /// Makes the identifier of the instant `secs` seconds and `nanos`
    /// nanoseconds after the Unix epoch.
    pub fn new(secs: i64, nanos: u32) -> (id: DownloadId)
        ensures
            id == DownloadId::at(secs, nanos),
            id.instant() == (secs as int, nanos as int),
    {
        DownloadId { secs, nanos }
    }

    /// Whole seconds of the instant since the Unix epoch.
    pub fn timestamp(&self) -> (secs: i64)
        ensures
            secs as int == self.instant().0,
    {
        self.secs
    }

    /// Nanoseconds of the instant past its last whole second.
    pub fn subsec_nanos(&self) -> (nanos: u32)
        ensures
            nanos as int == self.instant().1,
    {
        self.nanos
    }

    /// Whether this identifier's instant lies before that of `other`.
    pub fn precedes(&self, other: &DownloadId) -> (before: bool)
        ensures
            before == instant_lt(self.instant(), other.instant()),
    {
        self.secs < other.secs || (self.secs == other.secs && self.nanos < other.nanos)
    }

    /// The identifier made of an instant stands for that instant.
    pub proof fn lemma_instant_of_at(secs: i64, nanos: u32)
        ensures
            DownloadId::at(secs, nanos).instant() == (secs as int, nanos as int),
    {
    }

    /// An identifier is its instant: two identifiers of one instant are the
    /// same value.
    pub proof fn lemma_equal_by_instant(a: DownloadId, b: DownloadId)
        ensures
            a == b <==> a.instant() == b.instant(),
    {
    }

    /// Identifiers compare as their instants do: exactly one of before,
    /// same and after holds, and `partial_cmp` reports it.
    pub proof fn lemma_order_by_instant(a: DownloadId, b: DownloadId)
        ensures
            a.partial_cmp_spec(&b) == Some(Ordering::Less) <==> instant_lt(a.instant(), b.instant()),
            a.partial_cmp_spec(&b) == Some(Ordering::Greater) <==> instant_lt(
                b.instant(),
                a.instant(),
            ),
            a.partial_cmp_spec(&b) == Some(Ordering::Equal) <==> a == b,
            a.partial_cmp_spec(&b) is Some,
    {
    }

    /// The order of identifiers is transitive.
    pub proof fn lemma_order_transitive(a: DownloadId, b: DownloadId, c: DownloadId)
        requires
            a.partial_cmp_spec(&b) == Some(Ordering::Less),
            b.partial_cmp_spec(&c) == Some(Ordering::Less),
        ensures
            a.partial_cmp_spec(&c) == Some(Ordering::Less),
    {
    }
}

impl PartialOrd for DownloadId {
    fn partial_cmp(&self, other: &Self) -> (r: Option<Ordering>) {
        if self.secs < other.secs {
            Some(Ordering::Less)
        } else if self.secs > other.secs {
            Some(Ordering::Greater)
        } else if self.nanos < other.nanos {
            Some(Ordering::Less)
        } else if self.nanos > other.nanos {
            Some(Ordering::Greater)
        } else {
            Some(Ordering::Equal)
        }
    }
}

impl vstd::std_specs::cmp::PartialOrdSpecImpl for DownloadId {
    open spec fn obeys_partial_cmp_spec() -> bool {
        true
    }

    open spec fn partial_cmp_spec(&self, other: &Self) -> Option<Ordering> {
        if instant_lt(self.instant(), other.instant()) {
            Some(Ordering::Less)
        } else if instant_lt(other.instant(), self.instant()) {
            Some(Ordering::Greater)
        } else {
            Some(Ordering::Equal)
        }
    }
}

} // verus!
