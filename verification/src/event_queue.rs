//! Time-ordered queue of scheduled events.
//!
//! During playback, events are consumed through a cursor that advances forward
//! without removing elements, so the realtime drain path never allocates.
use vstd::prelude::*;
use crate::event::Event;
use crate::musical_time::MusicalTime;

verus! {

/// Events are in nondecreasing time order.
pub open spec fn sorted_by_time(s: Seq<Event>) -> bool {
    forall|i: int, j: int| 0 <= i < j < s.len() ==> (#[trigger] s[i]).time.le_spec((#[trigger] s[j]).time)
}

/// A position at which a binary search of the sorted sequence `s` puts an
/// event at time `t`: after every earlier event and before every later one;
/// where `s` holds events at `t`, at one of them (which one a binary search
/// leaves open).
pub open spec fn is_search_point(s: Seq<Event>, p: int, t: MusicalTime) -> bool {
    &&& 0 <= p <= s.len()
    &&& forall|i: int| 0 <= i < p ==> (#[trigger] s[i]).time.le_spec(t)
    &&& forall|i: int| p <= i < s.len() ==> t.le_spec((#[trigger] s[i]).time)
    &&& (exists|i: int| 0 <= i < s.len() && (#[trigger] s[i]).time == t) ==> p < s.len() && s[p].time == t
}

/// The events of `s` whose flag in `keep` is set, in order.
pub open spec fn kept_events(s: Seq<Event>, keep: Seq<bool>) -> Seq<Event>
    decreases s.len(),
{
    if s.len() == 0 || keep.len() == 0 {
        Seq::empty()
    } else {
        let rest = kept_events(s.drop_last(), keep.drop_last());
        if keep.last() { rest.push(s.last()) } else { rest }
    }
}

/// A priority queue of events sorted by time, with a replay cursor.
#[derive(Clone, Debug, Default)]
pub struct EventQueue {
    events: Vec<Event>,
    /// Next event index to process (advances during playback).
    cursor: usize,
}

impl View for EventQueue {
    type V = Seq<Event>;

    /// The queued events, earliest first.
    closed spec fn view(&self) -> Seq<Event> {
        self.events@
    }
}

impl EventQueue {
    /// The replay cursor: index of the next event `drain_until` will consider.
    pub closed spec fn cursor_spec(&self) -> nat {
        self.cursor as nat
    }

    /// The queue keeps its events in time order.
    pub open spec fn wf(&self) -> bool {
        sorted_by_time(self@)
    }

    /// Create a new empty event queue.
    pub fn new() -> (r: Self)
        ensures
            r.wf(),
            r@ == Seq::<Event>::empty(),
            r.cursor_spec() == 0,
    {
        Self { events: Vec::new(), cursor: 0 }
    }

    /// Index of the first event not earlier than `t`.
    fn lower_bound(&self, t: MusicalTime) -> (r: usize)
        requires
            self.wf(),
        ensures
            r <= self@.len(),
            forall|i: int| 0 <= i < r ==> (#[trigger] self@[i]).time.lt_spec(t),
            forall|i: int| r <= i < self@.len() ==> t.le_spec((#[trigger] self@[i]).time),
    {
        let mut lo: usize = 0;
        let mut hi: usize = self.events.len();
        while lo < hi
            invariant
                0 <= lo <= hi <= self.events@.len(),
                sorted_by_time(self.events@),
                forall|i: int| 0 <= i < lo ==> (#[trigger] self.events@[i]).time.lt_spec(t),
                forall|i: int| hi <= i < self.events@.len() ==> t.le_spec((#[trigger] self.events@[i]).time),
            decreases hi - lo,
        {
            let mid = lo + (hi - lo) / 2;
            if self.events[mid].time < t {
                lo = mid + 1;
            } else {
                hi = mid;
            }
        }
        lo
    }

    /// Insert an event, keeping time order: after every earlier event,
    /// before every later one, and, where events of its time are queued,
    /// just before one of them (as a binary search finds it).
    pub fn push(&mut self, event: Event)
        requires
            old(self).wf(),
        ensures
            final(self).wf(),
            final(self).cursor_spec() == old(self).cursor_spec(),
            exists|p: int|
                #![trigger old(self)@.insert(p, event)]
                is_search_point(old(self)@, p, event.time) && final(self)@ == old(self)@.insert(p, event),
    {
        let pos = self.lower_bound(event.time);
        let ghost before = self.events@;
        let ghost t = event.time;
        proof {
            if exists|i: int| 0 <= i < before.len() && (#[trigger] before[i]).time == t {
                let i = choose|i: int| 0 <= i < before.len() && (#[trigger] before[i]).time == t;
                assert(!before[i].time.lt_spec(t));
                assert(pos <= i);
                assert(before[pos as int].time.le_spec(before[i].time));
                assert(t.le_spec(before[pos as int].time));
            }
            assert(is_search_point(before, pos as int, t));
        }
        self.events.insert(pos, event);
        assert(self.events@ == before.insert(pos as int, event));
        assert forall|i: int, j: int| 0 <= i < j < self.events@.len() implies
            (#[trigger] self.events@[i]).time.le_spec((#[trigger] self.events@[j]).time) by {
            let s = self.events@;
            if j < pos {
            } else if j == pos {
                assert(before[i].time.le_spec(event.time));
            } else if i < pos {
                assert(s[j] == before[j - 1]);
                assert(before[i].time.le_spec(event.time));
                assert(event.time.le_spec(before[j - 1].time));
            } else if i == pos {
                assert(event.time.le_spec(before[j - 1].time));
            } else {
                assert(before[i - 1].time.le_spec(before[j - 1].time));
            }
        }
    }

    /// Peek at the earliest event without removing it.
    pub fn peek(&self) -> (r: Option<&Event>)
        ensures
            r == (if self@.len() == 0 { None } else { Some(&self@[0]) }),
    {
        if self.events.len() == 0 {
            None
        } else {
            Some(&self.events[0])
        }
    }

    /// Remove and return the earliest event.
    pub fn pop(&mut self) -> (r: Option<Event>)
        requires
            old(self).wf(),
        ensures
            final(self).wf(),
            final(self).cursor_spec() == old(self).cursor_spec(),
            old(self)@.len() == 0 ==> r.is_none() && final(self)@ == old(self)@,
            old(self)@.len() > 0 ==> r == Some(old(self)@[0]) && final(self)@ == old(self)@.drop_first(),
    {
        if self.events.len() == 0 {
            None
        } else {
            let e = self.events.remove(0);
            assert(self.events@ =~= old(self).events@.drop_first());
            Some(e)
        }
    }

    /// Return the index range of events at or before `time`, starting at the
    /// cursor, and advance the cursor past them. Nothing is removed.
    pub fn drain_until(&mut self, time: MusicalTime) -> (r: core::ops::Range<usize>)
        ensures
            final(self)@ == old(self)@,
            r.start == old(self).cursor_spec(),
            r.start <= r.end,
            final(self).cursor_spec() == r.end,
            r.end > r.start ==> r.end <= old(self)@.len(),
            forall|i: int| r.start <= i < r.end ==> (#[trigger] old(self)@[i]).time.le_spec(time),
            r.end < old(self)@.len() ==> time.lt_spec(old(self)@[r.end as int].time),
    {
        let start = self.cursor;
        while self.cursor < self.events.len()
            invariant_except_break
                self.events@ == old(self).events@,
                start <= self.cursor,
                self.cursor > start ==> self.cursor <= self.events@.len(),
                forall|i: int| start <= i < self.cursor ==> (#[trigger] self.events@[i]).time.le_spec(time),
            ensures
                self.events@ == old(self).events@,
                start <= self.cursor,
                self.cursor > start ==> self.cursor <= self.events@.len(),
                forall|i: int| start <= i < self.cursor ==> (#[trigger] self.events@[i]).time.le_spec(time),
                self.cursor < self.events@.len() ==> time.lt_spec(self.events@[self.cursor as int].time),
            decreases self.events@.len() - self.cursor,
        {
            if self.events[self.cursor].time <= time {
                self.cursor = self.cursor + 1;
            } else {
                break;
            }
        }
        start..self.cursor
    }

    /// Get an event by index (for use with `drain_until` ranges).
    pub fn get(&self, index: usize) -> (r: Option<&Event>)
        ensures
            r == (if index < self@.len() { Some(&self@[index as int]) } else { None }),
    {
        if index < self.events.len() {
            Some(&self.events[index])
        } else {
            None
        }
    }

    /// Remove and return, in order, all events at or before `time`.
    pub fn pop_until(&mut self, time: MusicalTime) -> (r: Vec<Event>)
        requires
            old(self).wf(),
        ensures
            final(self).wf(),
            final(self).cursor_spec() == old(self).cursor_spec(),
            old(self)@ == r@ + final(self)@,
            forall|i: int| 0 <= i < r@.len() ==> (#[trigger] r@[i]).time.le_spec(time),
            final(self)@.len() > 0 ==> time.lt_spec(final(self)@[0].time),
    {
        let mut result: Vec<Event> = Vec::new();
        while self.events.len() > 0
            invariant_except_break
                old(self).events@ == result@ + self.events@,
                sorted_by_time(self.events@),
                self.cursor == old(self).cursor,
                forall|i: int| 0 <= i < result@.len() ==> (#[trigger] result@[i]).time.le_spec(time),
            ensures
                old(self).events@ == result@ + self.events@,
                sorted_by_time(self.events@),
                self.cursor == old(self).cursor,
                forall|i: int| 0 <= i < result@.len() ==> (#[trigger] result@[i]).time.le_spec(time),
                self.events@.len() > 0 ==> time.lt_spec(self.events@[0].time),
            decreases self.events@.len(),
        {
            if self.events[0].time <= time {
                let ghost before = self.events@;
                let e = self.events.remove(0);
                result.push(e);
                assert(self.events@ =~= before.drop_first());
                assert(old(self).events@ =~= result@ + self.events@);
            } else {
                break;
            }
        }
        result
    }

    /// Keep only the events for which `f` returns true, in their order.
    pub fn retain<F: Fn(&Event) -> bool>(&mut self, f: F)
        requires
            old(self).wf(),
            forall|i: int| 0 <= i < old(self)@.len() ==> f.requires((&old(self)@[i],)),
        ensures
            final(self).wf(),
            final(self).cursor_spec() == old(self).cursor_spec(),
            exists|keep: Seq<bool>| {
                &&& keep.len() == old(self)@.len()
                &&& (forall|i: int| 0 <= i < keep.len() ==> f.ensures((&old(self)@[i],), #[trigger] keep[i]))
                &&& final(self)@ == kept_events(old(self)@, keep)
            },
    {
        let ghost src = self.events@;
        let mut kept: Vec<Event> = Vec::new();
        let ghost mut keep: Seq<bool> = Seq::empty();
        let ghost mut last_idx: int = 0;
        let mut i: usize = 0;
        while i < self.events.len()
            invariant
                self.events@ == src,
                src == old(self).events@,
                self.cursor == old(self).cursor,
                sorted_by_time(src),
                forall|k: int| 0 <= k < src.len() ==> f.requires((&src[k],)),
                i <= src.len(),
                keep.len() == i,
                forall|k: int| 0 <= k < keep.len() ==> f.ensures((&src[k],), #[trigger] keep[k]),
                kept@ == kept_events(src.take(i as int), keep),
                sorted_by_time(kept@),
                kept@.len() > 0 ==> 0 <= last_idx < i && kept@.last() == src[last_idx],
            decreases src.len() - i,
        {
            let e = self.events[i];
            let b = f(&e);
            proof {
                assert(src.take(i + 1).drop_last() =~= src.take(i as int));
                assert(keep.push(b).drop_last() =~= keep);
            }
            if b {
                let ghost before = kept@;
                kept.push(e);
                proof {
                    assert forall|x: int, y: int| 0 <= x < y < kept@.len() implies (#[trigger] kept@[x]).time.le_spec((#[trigger] kept@[y]).time) by {
                        if y == kept@.len() - 1 && x < y {
                            assert(before[x].time.le_spec(before.last().time) || x == before.len() - 1);
                        }
                    }
                    last_idx = i as int;
                }
            }
            proof {
                keep = keep.push(b);
            }
            i = i + 1;
        }
        proof {
            assert(src.take(i as int) =~= src);
        }
        self.events = kept;
    }

    /// Reset the cursor to the beginning (called after scheduling).
    pub fn reset_cursor(&mut self)
        ensures
            final(self)@ == old(self)@,
            final(self).cursor_spec() == 0,
    {
        self.cursor = 0;
    }

    /// Remove all events and reset the cursor.
    pub fn clear(&mut self)
        ensures
            final(self).wf(),
            final(self)@ == Seq::<Event>::empty(),
            final(self).cursor_spec() == 0,
    {
        self.events.clear();
        self.cursor = 0;
    }

    /// Returns true if the queue is empty.
    pub fn is_empty(&self) -> (r: bool)
        ensures
            r == (self@.len() == 0),
    {
        self.events.len() == 0
    }

    /// Number of queued events.
    pub fn len(&self) -> (r: usize)
        ensures
            r == self@.len(),
    {
        self.events.len()
    }
}

/// The earliest queued event is never later than any other queued event.
pub proof fn lemma_first_is_earliest(q: EventQueue, i: int)
    requires
        q.wf(),
        0 <= i < q@.len(),
    ensures
        q@[0].time.le_spec(q@[i].time),
{
    if i > 0 {
        assert(q@[0].time.le_spec(q@[i].time));
    }
}

} // verus!
