//! Playback transport: the clock that turns output frames into ticks and
//! musical time, follows tempo and speed changes, collects the events due
//! at the current time, and tells when the song is over.
use vstd::prelude::*;
use crate::clip_source::{drain, ClipSourceState};
use crate::event::{Event, EventPayload};
use crate::event_source::EventSource;
use crate::musical_time::{MusicalTime, SUB_BEAT_UNIT};
use crate::scheduler::{is_scheduled, max_rows_spec, song_schedulable, start_cursor};
use crate::song::{ChannelSettings, Song, Track};
use crate::event::NodeId;
use crate::mod_format::slice_range;
use vstd::arithmetic::power2::{lemma2_to64, lemma_pow2_unfold, pow2};
use vstd::seq_lib::{to_multiset_build, to_multiset_insert};

verus! {

/// Frames rendered at most between two event checks.
pub const BLOCK_SIZE: usize = 256;

/// Output frames in one tick at `tempo` BPM: `sample_rate * 5 / (tempo * 2)`.
pub open spec fn samples_per_tick_spec(sample_rate: int, tempo: int) -> int {
    (sample_rate * 5) / (tempo * 2)
}

/// The tempo a tempo event sets: its BPM * 100 value divided by 100, in 8 bits.
pub open spec fn event_tempo(bpm_x100: u16) -> u8 {
    ((bpm_x100 / 100) % 256) as u8
}

/// The playback clock and its settings.
pub struct Transport {
    /// Current playback position in musical time
    pub current_time: MusicalTime,
    /// Output sample rate
    pub sample_rate: u32,
    /// Output frames per tick at the current tempo
    pub samples_per_tick: u32,
    /// Frames rendered in the current tick
    pub sample_counter: u32,
    /// Current tempo (BPM)
    pub tempo: u8,
    /// Current speed (ticks per row)
    pub speed: u8,
    /// Rows per beat (from the song)
    pub rows_per_beat: u32,
    /// Tick within the current beat
    pub tick_in_beat: u32,
    /// Is playback running?
    pub playing: bool,
    /// Time at which the song ends, once known
    pub song_end_time: Option<MusicalTime>,
    /// Per-node bypass flags, by node id
    pub node_bypass: Vec<bool>,
}

/// Every source can be drained against `song`.
pub open spec fn sources_ready(sources: Seq<ClipSourceState>, song: Song) -> bool {
    forall|i: int| 0 <= i < sources.len() ==> (#[trigger] sources[i]).can_drain(&song)
}

/// Every source has ended.
pub open spec fn all_ended(sources: Seq<ClipSourceState>) -> bool {
    forall|i: int| 0 <= i < sources.len() ==> (#[trigger] sources[i]).end_time_spec() is Some
}

/// The source has ended at or before `t`.
pub open spec fn ended_by(src: ClipSourceState, t: MusicalTime) -> bool {
    match src.end_time_spec() {
        Some(e) => e.le_spec(t),
        None => false,
    }
}

/// The latest end time of the first `n` sources (zero for none).
pub open spec fn latest_end(sources: Seq<ClipSourceState>, n: int) -> MusicalTime
    decreases n,
{
    if n <= 0 {
        MusicalTime { beat: 0, sub_beat: 0 }
    } else {
        let prev = latest_end(sources, n - 1);
        match sources[n - 1].end_time_spec() {
            Some(e) => if prev.lt_spec(e) { e } else { prev },
            None => prev,
        }
    }
}

/// Events are in nondecreasing time order.
pub open spec fn time_sorted(s: Seq<Event>) -> bool {
    forall|i: int, j: int| 0 <= i < j < s.len() ==> (#[trigger] s[i]).time.le_spec((#[trigger] s[j]).time)
}

impl Transport {
    /// The transport's settings are in range.
    pub open spec fn wf(&self) -> bool {
        &&& self.rows_per_beat <= 255
        &&& self.tempo > 0
        &&& self.sample_rate * 5 <= u32::MAX
    }

    /// Ticks in one beat at the current speed.
    pub open spec fn tpb(&self) -> int {
        self.speed * self.rows_per_beat
    }

    /// A stopped transport at the start of `song`: its tempo, speed and rows
    /// per beat, no node bypassed.
    pub fn new(song: &Song, sample_rate: u32) -> (r: Self)
        requires
            song.initial_tempo > 0,
            sample_rate * 5 <= u32::MAX,
        ensures
            r.wf(),
            r.current_time == (MusicalTime { beat: 0, sub_beat: 0 }),
            r.sample_rate == sample_rate,
            r.samples_per_tick == samples_per_tick_spec(sample_rate as int, song.initial_tempo as int),
            r.sample_counter == 0,
            r.tempo == song.initial_tempo,
            r.speed == song.initial_speed,
            r.rows_per_beat == song.rows_per_beat,
            r.tick_in_beat == 0,
            !r.playing,
            r.song_end_time.is_none(),
            r.node_bypass@.len() == song.graph.nodes@.len(),
            forall|i: int| 0 <= i < r.node_bypass@.len() ==> !(#[trigger] r.node_bypass@[i]),
    {
        let mut node_bypass: Vec<bool> = Vec::new();
        while node_bypass.len() < song.graph.nodes.len()
            invariant
                node_bypass@.len() <= song.graph.nodes@.len(),
                forall|i: int| 0 <= i < node_bypass@.len() ==> !(#[trigger] node_bypass@[i]),
            decreases song.graph.nodes@.len() - node_bypass@.len(),
        {
            node_bypass.push(false);
        }
        let mut t = Self {
            current_time: MusicalTime::zero(),
            sample_rate,
            samples_per_tick: 0,
            sample_counter: 0,
            tempo: song.initial_tempo,
            speed: song.initial_speed,
            rows_per_beat: song.rows_per_beat as u32,
            tick_in_beat: 0,
            playing: false,
            song_end_time: None,
            node_bypass,
        };
        t.update_samples_per_tick();
        t
    }

    /// Recompute the frames per tick from the tempo.
    pub fn update_samples_per_tick(&mut self)
        requires
            old(self).tempo > 0,
            old(self).sample_rate * 5 <= u32::MAX,
        ensures
            *final(self) == (Transport {
                samples_per_tick: samples_per_tick_spec(old(self).sample_rate as int, old(self).tempo as int) as u32,
                ..*old(self)
            }),
    {
        self.samples_per_tick = (self.sample_rate * 5) / (self.tempo as u32 * 2);
    }

    /// Start playback.
    pub fn play(&mut self)
        ensures
            *final(self) == (Transport { playing: true, ..*old(self) }),
    {
        self.playing = true;
    }

    /// Stop playback.
    pub fn stop(&mut self)
        ensures
            *final(self) == (Transport { playing: false, ..*old(self) }),
    {
        self.playing = false;
    }

    /// Ticks per beat: speed times rows per beat.
    pub fn ticks_per_beat(&self) -> (r: u32)
        requires
            self.wf(),
        ensures
            r == self.tpb(),
    {
        assert(self.speed * self.rows_per_beat <= 255 * 255) by (nonlinear_arith)
            requires self.speed <= 255, self.rows_per_beat <= 255;
        self.speed as u32 * self.rows_per_beat
    }

    /// The transport one tick later: on to the next beat after the beat's
    /// last tick, else to the tick's fraction of the beat.
    pub open spec fn ticked(self) -> Transport {
        let tick = self.tick_in_beat + 1;
        let tpb = self.tpb();
        if tick >= tpb {
            Transport {
                tick_in_beat: 0,
                current_time: MusicalTime { beat: (self.current_time.beat + 1) as u64, sub_beat: 0 },
                ..self
            }
        } else {
            Transport {
                tick_in_beat: tick as u32,
                current_time: MusicalTime {
                    sub_beat: (tick * (SUB_BEAT_UNIT as int) / tpb) as u32,
                    ..self.current_time
                },
                ..self
            }
        }
    }

    /// Advance by one tick: on to the next beat after the beat's last tick,
    /// else to the tick's fraction of the beat.
    pub fn advance_tick(&mut self)
        requires
            old(self).wf(),
            old(self).tpb() <= 5960,
            old(self).tick_in_beat < 5960,
            old(self).current_time.beat < u64::MAX,
        ensures
            final(self).wf(),
            *final(self) == old(self).ticked(),
    {
        self.tick_in_beat = self.tick_in_beat + 1;
        let tpb = self.ticks_per_beat();
        if self.tick_in_beat >= tpb {
            self.tick_in_beat = 0;
            self.current_time.beat = self.current_time.beat + 1;
            self.current_time.sub_beat = 0;
        } else {
            assert(self.tick_in_beat * SUB_BEAT_UNIT <= 5960 * 720720) by (nonlinear_arith)
                requires self.tick_in_beat < 5960, SUB_BEAT_UNIT == 720720;
            self.current_time.sub_beat = self.tick_in_beat * SUB_BEAT_UNIT / tpb;
        }
    }

    /// Apply a tempo or speed event: a tempo change sets the tempo and the
    /// frames per tick, a speed change the speed of the transport and of
    /// every source. Other events leave both alone.
    pub fn apply_global_event(&mut self, payload: &EventPayload, sources: &mut Vec<ClipSourceState>)
        requires
            old(self).wf(),
            *payload matches EventPayload::SetTempo(t) ==> event_tempo(t) > 0,
            forall|i: int| 0 <= i < old(sources)@.len() ==> (#[trigger] old(sources)@[i]).wf(),
        ensures
            final(self).wf(),
            final(sources)@.len() == old(sources)@.len(),
            match *payload {
                EventPayload::SetTempo(t) => {
                    &&& *final(self) == (Transport {
                        tempo: event_tempo(t),
                        samples_per_tick: samples_per_tick_spec(old(self).sample_rate as int, event_tempo(t) as int) as u32,
                        ..*old(self)
                    })
                    &&& final(sources)@ == old(sources)@
                },
                EventPayload::SetSpeed(s) => {
                    &&& *final(self) == (Transport { speed: s, ..*old(self) })
                    &&& forall|i: int| 0 <= i < final(sources)@.len() ==> {
                        let a = #[trigger] final(sources)@[i];
                        let b = old(sources)@[i];
                        &&& a.wf()
                        &&& a.cursor_spec() == (crate::scheduler::Cursor { speed: s as u32, ..b.cursor_spec() })
                        &&& a.track_index() == b.track_index()
                        &&& a.song_rpb_spec() == b.song_rpb_spec()
                        &&& a.max_rows_spec() == b.max_rows_spec()
                        &&& a.is_exhausted() == b.is_exhausted()
                        &&& a.end_time_spec() == b.end_time_spec()
                    }
                },
                _ => *final(self) == *old(self) && final(sources)@ == old(sources)@,
            },
    {
        match payload {
            EventPayload::SetTempo(t) => {
                self.tempo = ((*t / 100) % 256) as u8;
                self.update_samples_per_tick();
            },
            EventPayload::SetSpeed(s) => {
                self.speed = *s;
                let mut i: usize = 0;
                while i < sources.len()
                    invariant
                        i <= sources@.len(),
                        sources@.len() == old(sources)@.len(),
                        forall|k: int| i <= k < sources@.len() ==> #[trigger] sources@[k] == old(sources)@[k],
                        forall|k: int| 0 <= k < old(sources)@.len() ==> (#[trigger] old(sources)@[k]).wf(),
                        forall|k: int| 0 <= k < i ==> {
                            let a = #[trigger] sources@[k];
                            let b = old(sources)@[k];
                            &&& a.wf()
                            &&& a.cursor_spec() == (crate::scheduler::Cursor { speed: *s as u32, ..b.cursor_spec() })
                            &&& a.track_index() == b.track_index()
                            &&& a.song_rpb_spec() == b.song_rpb_spec()
                            &&& a.max_rows_spec() == b.max_rows_spec()
                            &&& a.is_exhausted() == b.is_exhausted()
                            &&& a.end_time_spec() == b.end_time_spec()
                        },
                    decreases sources@.len() - i,
                {
                    let mut src = sources.remove(i);
                    src.set_speed(*s);
                    sources.insert(i, src);
                    i = i + 1;
                }
            },
            _ => {},
        }
    }

    /// Frames to render before the next check: what is left of the output,
    /// at most to the end of the current tick and at most one block.
    pub fn sub_block(&self, remaining: usize) -> (r: usize)
        requires
            self.sample_counter <= self.samples_per_tick,
        ensures
            r as int == ({
                let to_tick = self.samples_per_tick - self.sample_counter;
                let a = if remaining <= to_tick { remaining as int } else { to_tick };
                if a <= BLOCK_SIZE { a } else { BLOCK_SIZE as int }
            }),
    {
        let to_tick = (self.samples_per_tick - self.sample_counter) as usize;
        let a = if remaining <= to_tick { remaining } else { to_tick };
        if a <= BLOCK_SIZE { a } else { BLOCK_SIZE }
    }

    /// Count `frames` rendered frames; at the end of a tick start the next
    /// tick and report it.
    pub fn advance_frames(&mut self, frames: u32) -> (tick: bool)
        requires
            old(self).wf(),
            old(self).sample_counter + frames <= u32::MAX,
            old(self).tpb() <= 5960,
            old(self).tick_in_beat < 5960,
            old(self).current_time.beat < u64::MAX,
        ensures
            final(self).wf(),
            tick == (old(self).sample_counter + frames >= old(self).samples_per_tick),
            !tick ==> *final(self) == (Transport { sample_counter: (old(self).sample_counter + frames) as u32, ..*old(self) }),
            tick ==> *final(self) == (Transport { sample_counter: 0, ..*old(self) }).ticked(),
    {
        self.sample_counter = self.sample_counter + frames;
        if self.sample_counter >= self.samples_per_tick {
            self.sample_counter = 0;
            self.advance_tick();
            true
        } else {
            false
        }
    }

    /// The song has ended: the known end time is reached, or, before it is
    /// known, every source has ended and the time is past each one's end.
    pub fn is_finished(&self, sources: &Vec<ClipSourceState>) -> (r: bool)
        ensures
            r == match self.song_end_time {
                Some(end) => end.le_spec(self.current_time),
                None => sources@.len() > 0 && forall|i: int| 0 <= i < sources@.len() ==>
                    ended_by(#[trigger] sources@[i], self.current_time),
            },
    {
        match self.song_end_time {
            Some(end) => end <= self.current_time,
            None => {
                if sources.len() == 0 {
                    return false;
                }
                let mut i: usize = 0;
                while i < sources.len()
                    invariant
                        i <= sources@.len(),
                        self.song_end_time.is_none(),
                        forall|k: int| 0 <= k < i ==> ended_by(#[trigger] sources@[k], self.current_time),
                    decreases sources@.len() - i,
                {
                    match sources[i].end_time() {
                        Some(e) => {
                            if !(e <= self.current_time) {
                                assert(!ended_by(sources@[i as int], self.current_time));
                                return false;
                            }
                        },
                        None => {
                            assert(!ended_by(sources@[i as int], self.current_time));
                            return false;
                        },
                    }
                    i = i + 1;
                }
                true
            },
        }
    }

    /// Once every source has ended, fix the song's end time to the latest
    /// of their end times.
    pub fn lock_end_time(&mut self, sources: &Vec<ClipSourceState>)
        ensures
            (old(self).song_end_time.is_none() && sources@.len() > 0 && all_ended(sources@))
                ==> *final(self) == (Transport { song_end_time: Some(latest_end(sources@, sources@.len() as int)), ..*old(self) }),
            !(old(self).song_end_time.is_none() && sources@.len() > 0 && all_ended(sources@))
                ==> *final(self) == *old(self),
    {
        if self.song_end_time.is_some() || sources.len() == 0 {
            return;
        }
        let mut latest = MusicalTime::zero();
        let mut i: usize = 0;
        while i < sources.len()
            invariant
                i <= sources@.len(),
                forall|k: int| 0 <= k < i ==> (#[trigger] sources@[k]).end_time_spec() is Some,
                latest == latest_end(sources@, i as int),
            decreases sources@.len() - i,
        {
            match sources[i].end_time() {
                Some(e) => {
                    if latest < e {
                        latest = e;
                    }
                },
                None => {
                    return;
                },
            }
            i = i + 1;
        }
        self.song_end_time = Some(latest);
    }

    /// Set the bypass flag of a node, if the node exists.
    pub fn set_bypass(&mut self, node: u16, bypassed: bool)
        ensures
            final(self).node_bypass@ == (if (node as int) < old(self).node_bypass@.len() {
                old(self).node_bypass@.update(node as int, bypassed)
            } else {
                old(self).node_bypass@
            }),
            *final(self) == (Transport { node_bypass: final(self).node_bypass, ..*old(self) }),
    {
        if (node as usize) < self.node_bypass.len() {
            self.node_bypass.set(node as usize, bypassed);
        }
    }
}

/// The events of `s` that are due at `t` (not later than it), or, with
/// `due` false, those that are not, in their order.
pub open spec fn due_events(s: Seq<Event>, t: MusicalTime, due: bool) -> Seq<Event>
    decreases s.len(),
{
    if s.len() == 0 {
        Seq::empty()
    } else {
        let rest = due_events(s.drop_last(), t, due);
        if s.last().time.le_spec(t) == due { rest.push(s.last()) } else { rest }
    }
}

/// Move the pending events due at `time` (not later than it) to `out`,
/// keeping the later ones pending, each group in its order.
pub fn take_due_events(pending: &mut Vec<Event>, time: MusicalTime, out: &mut Vec<Event>)
    ensures
        final(out)@ == old(out)@ + due_events(old(pending)@, time, true),
        final(pending)@ == due_events(old(pending)@, time, false),
{
    let ghost p0 = pending@;
    let mut kept: Vec<Event> = Vec::new();
    let mut i: usize = 0;
    proof {
        assert(p0.take(0) =~= Seq::<Event>::empty());
        assert(out@ =~= old(out)@ + due_events(p0.take(0), time, true));
    }
    while i < pending.len()
        invariant
            pending@ == p0,
            p0 == old(pending)@,
            i <= p0.len(),
            out@ == old(out)@ + due_events(p0.take(i as int), time, true),
            kept@ == due_events(p0.take(i as int), time, false),
        decreases p0.len() - i,
    {
        let e = pending[i];
        proof {
            assert(p0.take(i + 1).drop_last() =~= p0.take(i as int));
            assert(p0.take(i + 1).last() == e);
        }
        if e.time <= time {
            out.push(e);
            proof {
                assert(out@ =~= old(out)@ + due_events(p0.take(i + 1), time, true));
            }
        } else {
            kept.push(e);
        }
        i = i + 1;
    }
    proof {
        assert(p0.take(i as int) =~= p0);
    }
    *pending = kept;
}

/// Sort events by time, keeping events of equal time in their order.
pub fn sort_by_time(events: &mut Vec<Event>)
    ensures
        time_sorted(final(events)@),
        final(events)@.to_multiset() == old(events)@.to_multiset(),
        final(events)@.len() == old(events)@.len(),
{
    let ghost src = events@;
    let mut sorted: Vec<Event> = Vec::new();
    let mut i: usize = 0;
    proof {
        assert(src.take(0) =~= Seq::<Event>::empty());
    }
    while i < events.len()
        invariant
            events@ == src,
            src == old(events)@,
            i <= src.len(),
            time_sorted(sorted@),
            sorted@.to_multiset() == src.take(i as int).to_multiset(),
            sorted@.len() == i,
        decreases src.len() - i,
    {
        let e = events[i];
        let mut p: usize = sorted.len();
        while p > 0 && e.time < sorted[p - 1].time
            invariant
                p <= sorted@.len(),
                forall|k: int| p <= k < sorted@.len() ==> e.time.lt_spec((#[trigger] sorted@[k]).time),
            decreases p,
        {
            p = p - 1;
        }
        let ghost before = sorted@;
        proof {
            assert(p == 0 || !e.time.lt_spec(before[p - 1].time));
        }
        sorted.insert(p, e);
        proof {
            assert(sorted@ == before.insert(p as int, e));
            to_multiset_insert(before, p as int, e);
            assert(src.take(i + 1) =~= src.take(i as int).push(e));
            to_multiset_build(src.take(i as int), e);
            assert forall|x: int, y: int| 0 <= x < y < sorted@.len() implies
                (#[trigger] sorted@[x]).time.le_spec((#[trigger] sorted@[y]).time) by {
                let s = sorted@;
                if y < p {
                    assert(s[x] == before[x] && s[y] == before[y]);
                } else if y == p {
                    assert(s[x] == before[x]);
                    assert(before[x].time.le_spec(before[p - 1].time) || x == p - 1);
                } else if x < p {
                    assert(s[y] == before[y - 1]);
                    assert(s[x] == before[x]);
                    assert(e.time.lt_spec(before[y - 1].time));
                    if x < p - 1 {
                        assert(before[x].time.le_spec(before[p - 1].time));
                    }
                } else if x == p {
                    assert(s[y] == before[y - 1]);
                    assert(e.time.lt_spec(before[y - 1].time));
                } else {
                    assert(s[x] == before[x - 1] && s[y] == before[y - 1]);
                }
            }
        }
        i = i + 1;
    }
    proof {
        assert(src.take(i as int) =~= src);
    }
    *events = sorted;
}

/// A fresh event source for every track of `song`, in track order.
pub fn make_sources(song: &Song) -> (r: Vec<ClipSourceState>)
    requires
        song_schedulable(*song),
        forall|i: int| 0 <= i < song.tracks@.len() ==> max_rows_spec(#[trigger] song.tracks@[i]) <= u64::MAX,
    ensures
        r@.len() == song.tracks@.len(),
        sources_ready(r@, *song),
        forall|i: int| 0 <= i < r@.len() ==> {
            let s = #[trigger] r@[i];
            &&& s.track_index() == i
            &&& s.cursor_spec() == start_cursor(song.tracks@[i], *song)
            &&& s.max_rows_spec() == max_rows_spec(song.tracks@[i])
            &&& s.is_exhausted() == (song.tracks@[i].sequence@.len() == 0 || !is_scheduled(*song, song.tracks@[i]))
        },
{
    let mut sources: Vec<ClipSourceState> = Vec::new();
    let mut i: usize = 0;
    while i < song.tracks.len()
        invariant
            i <= song.tracks@.len(),
            song_schedulable(*song),
            forall|k: int| 0 <= k < song.tracks@.len() ==> max_rows_spec(#[trigger] song.tracks@[k]) <= u64::MAX,
            sources@.len() == i,
            sources_ready(sources@, *song),
            forall|k: int| 0 <= k < i ==> {
                let s = #[trigger] sources@[k];
                &&& s.track_index() == k
                &&& s.cursor_spec() == start_cursor(song.tracks@[k], *song)
                &&& s.max_rows_spec() == max_rows_spec(song.tracks@[k])
                &&& s.is_exhausted() == (song.tracks@[k].sequence@.len() == 0 || !is_scheduled(*song, song.tracks@[k]))
            },
        decreases song.tracks@.len() - i,
    {
        let src = ClipSourceState::new(song, i);
        sources.push(src);
        i = i + 1;
    }
    sources
}

/// Right shift that keeps the sum of `input_count` panned inputs from
/// clipping: at most half of them sound on one side, so the smallest `s`
/// with `2^s` at least that many (at least one).
pub fn compute_mix_shift(input_count: u32) -> (r: u32)
    ensures
        r < 32,
        pow2(r as nat) >= (if input_count / 2 >= 1 { input_count / 2 } else { 1 }),
        r == 0 || pow2((r - 1) as nat) < (if input_count / 2 >= 1 { input_count / 2 } else { 1 }),
{
    let sides: u32 = if input_count / 2 >= 1 { input_count / 2 } else { 1 };
    let mut shift: u32 = 0;
    let mut p: u64 = 1;
    proof {
        lemma2_to64();
    }
    while p < sides as u64
        invariant
            shift <= 31,
            p == pow2(shift as nat),
            1 <= sides <= 0x7fff_ffff,
            shift == 0 || pow2((shift - 1) as nat) < sides,
            pow2(31) == 0x8000_0000,
        decreases 31 - shift,
    {
        proof {
            if shift == 31 {
                assert(false);
            }
            lemma_pow2_unfold((shift + 1) as nat);
        }
        shift = shift + 1;
        p = p * 2;
    }
    shift
}

/// Index of the first track from `i` on that drives node `node` with at
/// least one channel.
pub open spec fn channel_track(tracks: Seq<Track>, node: NodeId, i: int) -> Option<int>
    decreases tracks.len() - i,
{
    if i < 0 || i >= tracks.len() {
        None
    } else if tracks[i].machine_node == Some(node) && tracks[i].num_channels > 0 {
        Some(i)
    } else {
        channel_track(tracks, node, i + 1)
    }
}

proof fn lemma_channel_track_range(tracks: Seq<Track>, node: NodeId, i: int)
    requires
        0 <= i,
    ensures
        channel_track(tracks, node, i) matches Some(k) ==> i <= k < tracks.len(),
    decreases tracks.len() - i,
{
    if i < tracks.len() && !(tracks[i].machine_node == Some(node) && tracks[i].num_channels > 0) {
        lemma_channel_track_range(tracks, node, i + 1);
    }
}

/// The channel settings of the tracker channels a node drives: those of the
/// first track bound to it, cut at the end of the song's channel list.
pub fn channels_for_node(song: &Song, node_id: NodeId) -> (r: &[ChannelSettings])
    requires
        channel_track(song.tracks@, node_id, 0) matches Some(k)
            ==> song.tracks@[k].base_channel <= song.channels@.len(),
    ensures
        r@ == match channel_track(song.tracks@, node_id, 0) {
            Some(k) => {
                let t = song.tracks@[k];
                let end = t.base_channel + t.num_channels;
                song.channels@.subrange(t.base_channel as int, if end < song.channels@.len() { end } else { song.channels@.len() as int })
            },
            None => Seq::empty(),
        },
{
    proof {
        lemma_channel_track_range(song.tracks@, node_id, 0);
    }
    let mut i: usize = 0;
    while i < song.tracks.len()
        invariant
            i <= song.tracks@.len(),
            channel_track(song.tracks@, node_id, 0) == channel_track(song.tracks@, node_id, i as int),
            channel_track(song.tracks@, node_id, 0) matches Some(k)
                ==> 0 <= k < song.tracks@.len() && song.tracks@[k].base_channel <= song.channels@.len(),
        decreases song.tracks@.len() - i,
    {
        let t = &song.tracks[i];
        if t.machine_node == Some(node_id) && t.num_channels > 0 {
            let base = t.base_channel as usize;
            let end = base + t.num_channels as usize;
            let stop = if end < song.channels.len() { end } else { song.channels.len() };
            return slice_range(song.channels.as_slice(), base, stop);
        }
        i = i + 1;
    }
    proof {
        assert(Seq::<ChannelSettings>::empty() =~= song.channels@.subrange(0, 0));
    }
    slice_range(song.channels.as_slice(), 0, 0)
}

/// The events a source yields when drained up to `time` against `song`.
pub open spec fn source_events(src: ClipSourceState, song: Song, time: MusicalTime) -> Seq<Event> {
    if src.is_exhausted() {
        Seq::empty()
    } else {
        drain(song.tracks@[src.track_index()], src.song_rpb_spec(), src.max_rows_spec(), src.cursor_spec(), time).0
    }
}

/// The events the first `n` sources yield, source after source.
pub open spec fn sources_events(sources: Seq<ClipSourceState>, song: Song, time: MusicalTime, n: int) -> Seq<Event>
    decreases n,
{
    if n <= 0 {
        Seq::empty()
    } else {
        sources_events(sources, song, time, n - 1) + source_events(sources[n - 1], song, time)
    }
}

/// Collect the events due at `time`: the pending ones not later than it
/// and what each source yields up to it, sorted by time.
pub fn drain_all_sources(
    pending: &mut Vec<Event>,
    sources: &mut Vec<ClipSourceState>,
    song: &Song,
    time: MusicalTime,
    out: &mut Vec<Event>,
)
    requires
        sources_ready(old(sources)@, *song),
    ensures
        time_sorted(final(out)@),
        final(out)@.to_multiset() == (due_events(old(pending)@, time, true)
            + sources_events(old(sources)@, *song, time, old(sources)@.len() as int)).to_multiset(),
        final(pending)@ == due_events(old(pending)@, time, false),
        final(sources)@.len() == old(sources)@.len(),
        sources_ready(final(sources)@, *song),
{
    out.clear();
    take_due_events(pending, time, out);
    let ghost due = out@;
    proof {
        assert(due =~= due_events(old(pending)@, time, true));
        assert(due + sources_events(old(sources)@, *song, time, 0) =~= due);
    }
    let mut i: usize = 0;
    while i < sources.len()
        invariant
            i <= sources@.len(),
            sources@.len() == old(sources)@.len(),
            forall|k: int| i <= k < sources@.len() ==> #[trigger] sources@[k] == old(sources)@[k],
            sources_ready(old(sources)@, *song),
            sources_ready(sources@, *song),
            out@ == due + sources_events(old(sources)@, *song, time, i as int),
        decreases sources@.len() - i,
    {
        let ghost before = out@;
        let mut src = sources.remove(i);
        proof {
            assert(src == old(sources)@[i as int]);
        }
        src.drain_until(time, song, out);
        proof {
            assert(out@ =~= before + source_events(old(sources)@[i as int], *song, time));
            assert(out@ =~= due + sources_events(old(sources)@, *song, time, i + 1));
        }
        let ghost s1 = sources@;
        sources.insert(i, src);
        proof {
            assert forall|k: int| 0 <= k < sources@.len() implies (#[trigger] sources@[k]).can_drain(song) by {
                if k < i {
                    assert(sources@[k] == s1[k]);
                } else if k > i {
                    assert(sources@[k] == s1[k - 1]);
                }
            }
        }
        i = i + 1;
    }
    sort_by_time(out);
}

} // verus!
