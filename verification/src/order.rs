//! The order of release numbers: by major number, then by minor number, then
//! by patch number.

use crate::puppet_module::update_between;
use crate::version::Version;
use core::cmp::Ordering;
use vstd::prelude::*;
use vstd::std_specs::cmp::PartialOrdSpecImpl;

verus! {

/// How `a` stands to `b` in the order of release numbers.
pub open spec fn compare_versions(a: Version, b: Version) -> Ordering {
    if a.major < b.major {
        Ordering::Less
    } else if a.major > b.major {
        Ordering::Greater
    } else if a.minor < b.minor {
        Ordering::Less
    } else if a.minor > b.minor {
        Ordering::Greater
    } else if a.patch < b.patch {
        Ordering::Less
    } else if a.patch > b.patch {
        Ordering::Greater
    } else {
        Ordering::Equal
    }
}

impl PartialOrd for Version {
    fn partial_cmp(&self, other: &Version) -> (r: Option<Ordering>) {
        if self.major < other.major {
            Some(Ordering::Less)
        } else if self.major > other.major {
            Some(Ordering::Greater)
        } else if self.minor < other.minor {
            Some(Ordering::Less)
        } else if self.minor > other.minor {
            Some(Ordering::Greater)
        } else if self.patch < other.patch {
            Some(Ordering::Less)
        } else if self.patch > other.patch {
            Some(Ordering::Greater)
        } else {
            Some(Ordering::Equal)
        }
    }
}

impl PartialOrdSpecImpl for Version {
    open spec fn obeys_partial_cmp_spec() -> bool {
        true
    }

    open spec fn partial_cmp_spec(&self, other: &Version) -> Option<Ordering> {
        Some(compare_versions(*self, *other))
    }
}

impl Version {
    /// Tells whether this release comes before `other`.
    pub fn precedes(&self, other: &Version) -> (r: bool)
        ensures
            r == (compare_versions(*self, *other) == Ordering::Less),
    {
        *self < *other
    }
}

/// Release numbers are equal exactly where neither comes before the other.
pub proof fn lemma_equal_versions(a: Version, b: Version)
    ensures
        compare_versions(a, b) == Ordering::Equal <==> a == b,
        compare_versions(a, b) == Ordering::Less <==> compare_versions(b, a) == Ordering::Greater,
{
}

/// The order of release numbers is transitive.
pub proof fn lemma_order_is_transitive(a: Version, b: Version, c: Version)
    requires
        compare_versions(a, b) == Ordering::Less,
        compare_versions(b, c) == Ordering::Less,
    ensures
        compare_versions(a, c) == Ordering::Less,
{
}

/// A later release is always an update. (The converse does not hold: a
/// number that grows behind one that shrinks is an update to an earlier
/// release.)
pub proof fn lemma_later_release_is_an_update(pinned: Version, latest: Version)
    requires
        compare_versions(pinned, latest) == Ordering::Less,
    ensures
        update_between(pinned, latest) is Some,
{
}

} // verus!
