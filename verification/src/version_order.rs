//! The operators `<`, `<=`, `>` and `>=` on versions.

use crate::version::{spec_compare, Version};
use std::cmp::Ordering;
use vstd::prelude::*;
use vstd::std_specs::cmp::PartialOrdSpecImpl;

verus! {

impl PartialOrd for Version {
    /// Orders two versions as [`Version::compare`] does.
    fn partial_cmp(&self, other: &Version) -> (r: Option<Ordering>) {
        let order = self.compare(other);
        if order < 0 {
            Some(Ordering::Less)
        } else if order == 0 {
            Some(Ordering::Equal)
        } else {
            Some(Ordering::Greater)
        }
    }
}

impl PartialOrdSpecImpl for Version {
    open spec fn obeys_partial_cmp_spec() -> bool {
        true
    }

    open spec fn partial_cmp_spec(&self, other: &Version) -> Option<Ordering> {
        let order = spec_compare(self@, other@);
        if order < 0 {
            Some(Ordering::Less)
        } else if order == 0 {
            Some(Ordering::Equal)
        } else {
            Some(Ordering::Greater)
        }
    }
}

} // verus!
