//! Lazy event generation.
use vstd::prelude::*;
use crate::event::Event;
use crate::musical_time::MusicalTime;
use crate::song::Song;

verus! {

/// A lazy source of events that generates them on demand as playback advances.
pub trait EventSource {
    /// The source can be drained against `song`.
    spec fn can_drain(&self, song: &Song) -> bool;

    /// The source can be reset against `song`.
    spec fn can_seek(&self, song: &Song) -> bool;

    /// Drain all events up to (and including) `time` into `out`.
    /// Returns the number of events added.
    fn drain_until(&mut self, time: MusicalTime, song: &Song, out: &mut Vec<Event>) -> (r: usize)
        requires
            old(self).can_drain(song),
        ensures
            final(out)@.len() == old(out)@.len() + r,
            final(out)@.subrange(0, old(out)@.len() as int) == old(out)@,
    ;

    /// Seek to a new position, resetting internal cursor state.
    fn seek(&mut self, time: MusicalTime, song: &Song)
        requires
            old(self).can_seek(song),
    ;

    /// Peek at the time of the next event without consuming it.
    /// Returns `None` if the source is exhausted.
    fn peek_time(&self) -> Option<MusicalTime>;
}

} // verus!
