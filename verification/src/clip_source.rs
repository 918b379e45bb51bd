//! Lazy, incremental event source for a single track.
//!
//! Walks a track's sequence entries and clips row by row, generating events
//! on demand as playback advances. It takes the same steps as the whole-song
//! scheduler but reads pattern data lazily, so edits ahead of the cursor take
//! effect.
use vstd::prelude::*;
use crate::event::Event;
use crate::event_source::EventSource;
use crate::musical_time::MusicalTime;
use crate::scheduler::{
    compute_max_rows, cursor_ok, entries_left, is_scheduled, max_rows_spec, rows_left, run, start_cursor,
    song_schedule, step, step_cursor, track_ok, track_schedulable, track_schedule, Cursor, StepKind, ROW_BEAT_ADVANCE,
};
use crate::song::{max_end_time, Song, Track};

verus! {

/// The walk from `c` as far as `limit`: it stops before a step taken at a
/// time past `limit`, or when the walk is over. The events produced, the
/// cursor reached, and whether the walk is over.
pub open spec fn drain(track: Track, song_rpb: int, max_rows: u64, c: Cursor, limit: MusicalTime) -> (Seq<Event>, Cursor, bool)
    decreases rows_left(max_rows, c), entries_left(track, c),
{
    if limit.lt_spec(c.time) {
        (seq![], c, false)
    } else {
        let s = step(track, song_rpb, max_rows, c);
        match s.0 {
            StepKind::Done => (seq![], c, true),
            StepKind::Exhausted => (s.1, s.2, true),
            StepKind::Skipped => drain(track, song_rpb, max_rows, s.2, limit),
            StepKind::Played => {
                let d = drain(track, song_rpb, max_rows, s.2, limit);
                (s.1 + d.0, d.1, d.2)
            },
        }
    }
}

/// Incremental event source for one track.
#[derive(Clone, Debug)]
pub struct ClipSourceState {
    /// Index into `song.tracks`
    track_idx: usize,
    /// Position of the walk
    cursor: Cursor,
    /// Song-level rows per beat
    song_rpb: u32,
    /// Max rows for loop detection
    max_rows: u64,
    /// Whether this source is exhausted
    exhausted: bool,
    /// The time at which this source became exhausted (accounts for PatternBreak/PositionJump).
    end_time: Option<MusicalTime>,
}

impl ClipSourceState {
    /// Index of the track this source walks.
    pub closed spec fn track_index(&self) -> int {
        self.track_idx as int
    }

    /// Position of the walk.
    pub closed spec fn cursor_spec(&self) -> Cursor {
        self.cursor
    }

    /// Rows per beat used where a pattern has none.
    pub closed spec fn song_rpb_spec(&self) -> int {
        self.song_rpb as int
    }

    /// Row budget of the walk.
    pub closed spec fn max_rows_spec(&self) -> u64 {
        self.max_rows
    }

    /// The walk is over.
    pub closed spec fn is_exhausted(&self) -> bool {
        self.exhausted
    }

    /// When the walk ended, once it has.
    pub closed spec fn end_time_spec(&self) -> Option<MusicalTime> {
        self.end_time
    }

    /// The source's state is consistent: a live walk has rows left, and the
    /// end time is known exactly when the walk is over.
    pub closed spec fn wf(&self) -> bool {
        &&& self.song_rpb <= 255
        &&& !self.exhausted ==> self.cursor.speed <= 255 && self.cursor.rows_processed < self.max_rows
        &&& self.exhausted <==> self.end_time.is_some()
    }

    /// The source can walk on through the tracks of `song`: its track exists
    /// and, while the walk is live, can be walked from the cursor.
    pub closed spec fn ready(&self, song: Song) -> bool {
        &&& self.wf()
        &&& self.track_idx < song.tracks@.len()
        &&& !self.exhausted ==> {
            &&& track_ok(song.tracks@[self.track_idx as int], self.song_rpb as int, self.max_rows)
            &&& cursor_ok(self.max_rows, self.cursor)
        }
    }

    /// Create a new source for a given track: exhausted from the start when
    /// the track has no entries, is muted or is not driven by the tracker.
    pub fn new(song: &Song, track_idx: usize) -> (r: Self)
        requires
            track_idx < song.tracks@.len(),
            max_rows_spec(song.tracks@[track_idx as int]) <= u64::MAX,
        ensures
            r.wf(),
            r.track_index() == track_idx,
            r.cursor_spec() == start_cursor(song.tracks@[track_idx as int], *song),
            r.song_rpb_spec() == song.rows_per_beat,
            r.max_rows_spec() == max_rows_spec(song.tracks@[track_idx as int]),
            r.is_exhausted() == (song.tracks@[track_idx as int].sequence@.len() == 0
                || !is_scheduled(*song, song.tracks@[track_idx as int])),
            r.end_time_spec() == (if r.is_exhausted() { Some(MusicalTime { beat: 0, sub_beat: 0 }) } else { None }),
            (is_scheduled(*song, song.tracks@[track_idx as int]) ==> track_schedulable(song.tracks@[track_idx as int], *song))
                ==> r.ready(*song),
    {
        let track = &song.tracks[track_idx];
        let time = if track.sequence.len() > 0 { track.sequence[0].start } else { MusicalTime::zero() };
        let exhausted = track.sequence.len() == 0 || track.muted || !song.is_tracker(track);
        let max_rows = compute_max_rows(track);
        let cursor = Cursor {
            seq_idx: 0,
            row: 0,
            time,
            speed: song.initial_speed as u32,
            rows_processed: 0,
        };
        proof {
            assert(cursor == start_cursor(*track, *song));
            if !exhausted && track_schedulable(*track, *song) {
                lemma_start_cursor_ok(*track, *song);
            }
        }
        Self {
            track_idx,
            cursor,
            song_rpb: song.rows_per_beat as u32,
            max_rows,
            exhausted,
            end_time: if exhausted { Some(MusicalTime::zero()) } else { None },
        }
    }
}

impl ClipSourceState {
    /// Update the internal speed (called when a SetSpeed event is observed).
    pub fn set_speed(&mut self, speed: u8)
        requires
            old(self).wf(),
        ensures
            final(self).wf(),
            final(self).cursor_spec() == (Cursor { speed: speed as u32, ..old(self).cursor_spec() }),
            final(self).track_index() == old(self).track_index(),
            final(self).song_rpb_spec() == old(self).song_rpb_spec(),
            final(self).max_rows_spec() == old(self).max_rows_spec(),
            final(self).is_exhausted() == old(self).is_exhausted(),
            final(self).end_time_spec() == old(self).end_time_spec(),
    {
        self.cursor.speed = speed as u32;
    }

    /// The time at which this source became exhausted.
    pub fn end_time(&self) -> (r: Option<MusicalTime>)
        ensures
            r == self.end_time_spec(),
    {
        self.end_time
    }
}

impl EventSource for ClipSourceState {
    open spec fn can_drain(&self, song: &Song) -> bool {
        self.ready(*song)
    }

    open spec fn can_seek(&self, song: &Song) -> bool {
        &&& self.track_index() < song.tracks@.len()
        &&& max_rows_spec(song.tracks@[self.track_index()]) <= u64::MAX
    }

    /// Walk on while the cursor's time is at most `time`, appending the
    /// events of every row played.
    fn drain_until(&mut self, time: MusicalTime, song: &Song, out: &mut Vec<Event>) -> (r: usize)
        ensures
            old(self).is_exhausted() ==> *final(self) == *old(self) && final(out)@ == old(out)@,
            !old(self).is_exhausted() ==> ({
                let d = drain(
                    song.tracks@[old(self).track_index()],
                    old(self).song_rpb_spec(),
                    old(self).max_rows_spec(),
                    old(self).cursor_spec(),
                    time,
                );
                &&& final(out)@ == old(out)@ + d.0
                &&& final(self).cursor_spec() == d.1
                &&& final(self).is_exhausted() == d.2
                &&& final(self).end_time_spec() == (if d.2 { Some(d.1.time) } else { None })
            }),
            final(self).ready(*song),
            final(self).track_index() == old(self).track_index(),
            final(self).song_rpb_spec() == old(self).song_rpb_spec(),
            final(self).max_rows_spec() == old(self).max_rows_spec(),
    {
        let start_len = out.len();
        if self.exhausted {
            return 0;
        }
        let track = &song.tracks[self.track_idx];
        let ghost d = drain(*track, self.song_rpb as int, self.max_rows, self.cursor, time);
        proof {
            assert(out@ + d.0 =~= old(out)@ + d.0);
        }
        loop
            invariant_except_break
                self.ready(*song),
                !self.exhausted,
                self.track_idx == old(self).track_idx,
                self.song_rpb == old(self).song_rpb,
                self.max_rows == old(self).max_rows,
                *track == song.tracks@[self.track_idx as int],
                out@ + drain(*track, self.song_rpb as int, self.max_rows, self.cursor, time).0 == old(out)@ + d.0,
                drain(*track, self.song_rpb as int, self.max_rows, self.cursor, time).1 == d.1,
                drain(*track, self.song_rpb as int, self.max_rows, self.cursor, time).2 == d.2,
            ensures
                self.ready(*song),
                self.track_idx == old(self).track_idx,
                self.song_rpb == old(self).song_rpb,
                self.max_rows == old(self).max_rows,
                out@ == old(out)@ + d.0,
                self.cursor == d.1,
                self.exhausted == d.2,
                self.end_time == (if d.2 { Some(d.1.time) } else { None }),
            decreases rows_left(self.max_rows, self.cursor), entries_left(*track, self.cursor),
        {
            if !(self.cursor.time <= time) {
                assert(out@ =~= out@ + seq![]);
                break;
            }
            let ghost before = self.cursor;
            let ghost e0 = out@;
            let mut c = self.cursor;
            let k = step_cursor(track, self.song_rpb, self.max_rows, &mut c, out);
            self.cursor = c;
            match k {
                StepKind::Done => {
                    self.exhausted = true;
                    self.end_time = Some(self.cursor.time);
                    assert(out@ =~= out@ + seq![]);
                    break;
                },
                StepKind::Exhausted => {
                    self.exhausted = true;
                    self.end_time = Some(self.cursor.time);
                    break;
                },
                StepKind::Skipped => {},
                StepKind::Played => {
                    let ghost dn = drain(*track, self.song_rpb as int, self.max_rows, self.cursor, time);
                    assert(out@ + dn.0 =~= e0 + drain(*track, self.song_rpb as int, self.max_rows, before, time).0);
                },
            }
        }
        out.len() - start_len
    }

    /// Restart the walk from the beginning of the track.
    fn seek(&mut self, _time: MusicalTime, song: &Song)
        ensures
            final(self).wf(),
            final(self).track_index() == old(self).track_index(),
            final(self).cursor_spec() == start_cursor(song.tracks@[old(self).track_index()], *song),
            final(self).song_rpb_spec() == song.rows_per_beat,
            final(self).max_rows_spec() == max_rows_spec(song.tracks@[old(self).track_index()]),
            final(self).is_exhausted() == (song.tracks@[old(self).track_index()].sequence@.len() == 0
                || !is_scheduled(*song, song.tracks@[old(self).track_index()])),
    {
        *self = Self::new(song, self.track_idx);
    }

    /// The time of the next row, unless the walk is over.
    fn peek_time(&self) -> (r: Option<MusicalTime>)
        ensures
            r == (if self.is_exhausted() { None } else { Some(self.cursor_spec().time) }),
    {
        if self.exhausted {
            None
        } else {
            Some(self.cursor.time)
        }
    }
}

/// Compute the total end time from all clip sources: the song's total time.
pub fn sources_end_time(_sources: &[ClipSourceState], song: &Song) -> (r: MusicalTime)
    requires
        song.end_times_computable(),
    ensures
        r == max_end_time(song.tracks@, song.rows_per_beat as int, song.tracks@.len() as int),
{
    song.total_time()
}

/// The latest time there is.
pub open spec fn far_future() -> MusicalTime {
    MusicalTime { beat: u64::MAX, sub_beat: u32::MAX }
}

/// Draining as far as `limit` and then walking on from where the drain
/// stopped produces the same events, and ends at the same time, as one walk
/// from the start: a source drained in pieces matches the whole schedule.
pub proof fn lemma_drain_then_run(track: Track, song_rpb: int, max_rows: u64, c: Cursor, limit: MusicalTime)
    ensures
        ({
            let d = drain(track, song_rpb, max_rows, c, limit);
            let rest = if d.2 { (Seq::<Event>::empty(), d.1.time) } else { run(track, song_rpb, max_rows, d.1) };
            &&& run(track, song_rpb, max_rows, c).0 == d.0 + rest.0
            &&& run(track, song_rpb, max_rows, c).1 == rest.1
        }),
    decreases rows_left(max_rows, c), entries_left(track, c),
{
    let d = drain(track, song_rpb, max_rows, c, limit);
    let s = step(track, song_rpb, max_rows, c);
    if limit.lt_spec(c.time) {
        assert(d.0 + run(track, song_rpb, max_rows, c).0 =~= run(track, song_rpb, max_rows, c).0);
    } else {
        match s.0 {
            StepKind::Done => {
                assert(d.0 + Seq::<Event>::empty() =~= Seq::<Event>::empty());
            },
            StepKind::Exhausted => {
                assert(d.0 + Seq::<Event>::empty() =~= s.1);
            },
            StepKind::Skipped => {
                lemma_drain_then_run(track, song_rpb, max_rows, s.2, limit);
            },
            StepKind::Played => {
                lemma_drain_then_run(track, song_rpb, max_rows, s.2, limit);
                let dn = drain(track, song_rpb, max_rows, s.2, limit);
                let rest = if dn.2 { (Seq::<Event>::empty(), dn.1.time) } else { run(track, song_rpb, max_rows, dn.1) };
                assert(s.1 + (dn.0 + rest.0) =~= (s.1 + dn.0) + rest.0);
            },
        }
    }
}

/// Draining without a time limit walks the whole track: the same events and
/// end time as one walk, and the source ends exhausted.
pub proof fn lemma_drain_forever(track: Track, song_rpb: int, max_rows: u64, c: Cursor)
    ensures
        ({
            let d = drain(track, song_rpb, max_rows, c, far_future());
            &&& d.2
            &&& d.0 == run(track, song_rpb, max_rows, c).0
            &&& d.1.time == run(track, song_rpb, max_rows, c).1
        }),
    decreases rows_left(max_rows, c), entries_left(track, c),
{
    let s = step(track, song_rpb, max_rows, c);
    assert(!far_future().lt_spec(c.time));
    match s.0 {
        StepKind::Skipped => {
            lemma_drain_forever(track, song_rpb, max_rows, s.2);
        },
        StepKind::Played => {
            lemma_drain_forever(track, song_rpb, max_rows, s.2);
        },
        _ => {},
    }
}

/// A fresh source for a track with entries, drained without a time limit,
/// yields exactly the events and end time that scheduling the track gives.
pub proof fn lemma_fresh_source_matches_schedule(track: Track, song: Song)
    requires
        track.sequence@.len() > 0,
    ensures
        ({
            let d = drain(track, song.rows_per_beat as int, max_rows_spec(track) as u64, start_cursor(track, song), far_future());
            &&& d.2
            &&& d.0 == track_schedule(track, song).0
            &&& d.1.time == track_schedule(track, song).1
        }),
{
    lemma_drain_forever(track, song.rows_per_beat as int, max_rows_spec(track) as u64, start_cursor(track, song));
}

/// The events a fresh source of `track` gives when drained without a time
/// limit: none for a track that is not scheduled or has no entries.
pub open spec fn fresh_source_events(song: Song, track: Track) -> Seq<Event> {
    if track.sequence@.len() > 0 && is_scheduled(song, track) {
        drain(track, song.rows_per_beat as int, max_rows_spec(track) as u64, start_cursor(track, song), far_future()).0
    } else {
        seq![]
    }
}

/// The events of a fresh source for each of the first `n` tracks, drained
/// without a time limit one track after the other.
pub open spec fn song_source_events(song: Song, n: int) -> Seq<Event>
    decreases n,
{
    if n <= 0 {
        seq![]
    } else {
        song_source_events(song, n - 1) + fresh_source_events(song, song.tracks@[n - 1])
    }
}

/// Draining a fresh source per track, track after track and without a time
/// limit, gives exactly the events of scheduling the whole song, in the same
/// order.
pub proof fn lemma_song_sources_match_schedule(song: Song, n: int)
    requires
        0 <= n <= song.tracks@.len(),
    ensures
        song_source_events(song, n) == song_schedule(song, n).0,
    decreases n,
{
    if n > 0 {
        lemma_song_sources_match_schedule(song, n - 1);
        let t = song.tracks@[n - 1];
        let prev = song_schedule(song, n - 1).0;
        if t.sequence@.len() > 0 {
            lemma_fresh_source_matches_schedule(t, song);
        }
        if is_scheduled(song, t) {
            assert(song_schedule(song, n).0 == prev + track_schedule(t, song).0);
        } else {
            assert(prev + Seq::<Event>::empty() =~= prev);
        }
        if t.sequence@.len() == 0 {
            assert(prev + Seq::<Event>::empty() =~= prev);
        }
    }
}

/// Every position the walk from `c` plays at, up to where it ends, is no
/// later than `limit`.
pub open spec fn walk_within(track: Track, song_rpb: int, max_rows: u64, c: Cursor, limit: MusicalTime) -> bool
    decreases rows_left(max_rows, c), entries_left(track, c),
{
    &&& !limit.lt_spec(c.time)
    &&& {
        let s = step(track, song_rpb, max_rows, c);
        match s.0 {
            StepKind::Skipped => walk_within(track, song_rpb, max_rows, s.2, limit),
            StepKind::Played => walk_within(track, song_rpb, max_rows, s.2, limit),
            _ => true,
        }
    }
}

/// Draining as far as a limit that the whole walk stays within walks the
/// whole track: the same events and end time as one walk, and the source
/// ends exhausted.
pub proof fn lemma_drain_within(track: Track, song_rpb: int, max_rows: u64, c: Cursor, limit: MusicalTime)
    requires
        walk_within(track, song_rpb, max_rows, c, limit),
    ensures
        ({
            let d = drain(track, song_rpb, max_rows, c, limit);
            &&& d.2
            &&& d.0 == run(track, song_rpb, max_rows, c).0
            &&& d.1.time == run(track, song_rpb, max_rows, c).1
        }),
    decreases rows_left(max_rows, c), entries_left(track, c),
{
    let s = step(track, song_rpb, max_rows, c);
    match s.0 {
        StepKind::Skipped => {
            lemma_drain_within(track, song_rpb, max_rows, s.2, limit);
        },
        StepKind::Played => {
            lemma_drain_within(track, song_rpb, max_rows, s.2, limit);
        },
        _ => {},
    }
}

/// The events a fresh source of `track` gives when drained as far as
/// `limit`: none for a track that is not scheduled or has no entries.
pub open spec fn fresh_source_events_until(song: Song, track: Track, limit: MusicalTime) -> Seq<Event> {
    if track.sequence@.len() > 0 && is_scheduled(song, track) {
        drain(track, song.rows_per_beat as int, max_rows_spec(track) as u64, start_cursor(track, song), limit).0
    } else {
        seq![]
    }
}

/// The events of a fresh source for each of the first `n` tracks, each
/// drained as far as `limit`, one track after the other.
pub open spec fn song_source_events_until(song: Song, n: int, limit: MusicalTime) -> Seq<Event>
    decreases n,
{
    if n <= 0 {
        seq![]
    } else {
        song_source_events_until(song, n - 1, limit) + fresh_source_events_until(song, song.tracks@[n - 1], limit)
    }
}

/// Draining a fresh source per track, track after track, as far as a limit
/// that every scheduled track's walk stays within, gives exactly the events
/// of scheduling the whole song, in the same order.
pub proof fn lemma_song_sources_until_match_schedule(song: Song, n: int, limit: MusicalTime)
    requires
        0 <= n <= song.tracks@.len(),
        forall|i: int| 0 <= i < n && (#[trigger] song.tracks@[i]).sequence@.len() > 0 && is_scheduled(song, song.tracks@[i]) ==>
            walk_within(song.tracks@[i], song.rows_per_beat as int, max_rows_spec(song.tracks@[i]) as u64,
                start_cursor(song.tracks@[i], song), limit),
    ensures
        song_source_events_until(song, n, limit) == song_schedule(song, n).0,
    decreases n,
{
    if n > 0 {
        lemma_song_sources_until_match_schedule(song, n - 1, limit);
        let t = song.tracks@[n - 1];
        let prev = song_schedule(song, n - 1).0;
        if t.sequence@.len() > 0 && is_scheduled(song, t) {
            lemma_drain_within(t, song.rows_per_beat as int, max_rows_spec(t) as u64, start_cursor(t, song), limit);
            assert(song_schedule(song, n).0 == prev + track_schedule(t, song).0);
        } else {
            assert(prev + Seq::<Event>::empty() =~= prev);
        }
    }
}

/// A scheduled track's walk can start: its start cursor has room for every row.
pub proof fn lemma_start_cursor_ok(track: Track, song: Song)
    requires
        track.sequence@.len() > 0,
        max_rows_spec(track) <= u64::MAX,
        track_ok(track, song.rows_per_beat as int, max_rows_spec(track) as u64),
    ensures
        cursor_ok(max_rows_spec(track) as u64, start_cursor(track, song)),
{
    let e = track.sequence@[0];
    assert(e.start.beat + ROW_BEAT_ADVANCE * (max_rows_spec(track) as u64) <= u64::MAX);
}

} // verus!
