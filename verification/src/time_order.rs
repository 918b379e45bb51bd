//! The order of musical time positions.
use vstd::prelude::*;
use core::cmp::Ordering;
use vstd::std_specs::cmp::PartialOrdSpecImpl;
use crate::musical_time::MusicalTime;

verus! {

impl PartialOrd for MusicalTime {
    fn partial_cmp(&self, other: &Self) -> (r: Option<Ordering>) {
        if self.beat < other.beat {
            Some(Ordering::Less)
        } else if self.beat > other.beat {
            Some(Ordering::Greater)
        } else if self.sub_beat < other.sub_beat {
            Some(Ordering::Less)
        } else if self.sub_beat > other.sub_beat {
            Some(Ordering::Greater)
        } else {
            Some(Ordering::Equal)
        }
    }
}

impl PartialOrdSpecImpl for MusicalTime {
    open spec fn obeys_partial_cmp_spec() -> bool {
        true
    }

    open spec fn partial_cmp_spec(&self, other: &Self) -> Option<Ordering> {
        if self.lt_spec(*other) {
            Some(Ordering::Less)
        } else if other.lt_spec(*self) {
            Some(Ordering::Greater)
        } else {
            Some(Ordering::Equal)
        }
    }
}

} // verus!
