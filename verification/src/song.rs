//! Song structure, tracks and sequencing.
use vstd::prelude::*;
use arrayvec::ArrayString;
use crate::event::NodeId;
use crate::graph::{AudioGraph, NodeType, Parameter};
use crate::instrument::Instrument;
use crate::musical_time::{add_rows_spec, can_add_sub_beats, sub_per_row, MusicalTime};
use crate::names::{fitted, name32, name32_bytes, name32_new, text_eq};
use crate::pattern::Pattern;
use crate::sample::Sample;
use vstd::string::StringSliceAdditionalSpecFns;

verus! {

/// A complete song.
#[derive(Clone, Debug)]
pub struct Song {
    /// Song title
    pub title: ArrayString<32>,
    /// Initial tempo in BPM (32-255 typical)
    pub initial_tempo: u8,
    /// Initial speed (ticks per row, 1-31)
    pub initial_speed: u8,
    /// Rows per beat (default 4: 4 rows = 1 beat)
    pub rows_per_beat: u8,
    /// Global volume (0-64)
    pub global_volume: u8,
    /// Instruments
    pub instruments: Vec<Instrument>,
    /// Samples
    pub samples: Vec<Sample>,
    /// Per-channel settings
    pub channels: Vec<ChannelSettings>,
    /// Audio routing graph
    pub graph: AudioGraph,
    /// Tracks (per-track sequencing)
    pub tracks: Vec<Track>,
}

/// An entry in a legacy order list (used during format parsing).
#[derive(Clone, Copy, Debug, PartialEq, Eq, Structural)]
pub enum OrderEntry {
    /// Play pattern with this index
    Pattern(u8),
    /// Skip marker (+++), continue to next
    Skip,
    /// End of song marker (---)
    End,
}

/// Per-channel settings.
#[derive(Clone, Copy, Debug, PartialEq, Eq, Structural)]
pub struct ChannelSettings {
    /// Initial panning (-64 to +64, 0 = center)
    pub initial_pan: i8,
    /// Initial volume (0-64)
    pub initial_vol: u8,
    /// Is the channel muted?
    pub muted: bool,
}

impl Default for ChannelSettings {
    /// Centered, full volume, not muted.
    fn default() -> (r: Self)
        ensures
            r == (ChannelSettings { initial_pan: 0, initial_vol: 64, muted: false }),
    {
        Self { initial_pan: 0, initial_vol: 64, muted: false }
    }
}

/// How a sequence entry ends.
#[derive(Clone, Copy, Debug, Default, PartialEq, Eq, Structural)]
pub enum SeqTermination {
    /// The clip plays to its end (or to `length` rows)
    #[default]
    Natural,
    /// The clip is cut short by muting
    Mute,
    /// The clip is cut short by a pattern break
    Break,
}

/// An entry in a track's sequence (playback order).
#[derive(Clone, Copy, Debug, PartialEq, Eq, Structural)]
pub struct SeqEntry {
    /// When this clip starts playing
    pub start: MusicalTime,
    /// Index into the track's `clips` pool
    pub clip_idx: u16,
    /// Number of rows of the clip that play
    pub length: u16,
    /// How the entry ends
    pub termination: SeqTermination,
}

/// A clip in a track's pool.
#[derive(Clone, Debug)]
pub enum Clip {
    /// A pattern of note data.
    Pattern(Pattern),
}

impl Clip {
    /// The pattern of this clip.
    pub open spec fn pattern_spec(&self) -> Pattern {
        match self {
            Clip::Pattern(p) => *p,
        }
    }

    /// Get the pattern if this is a pattern clip.
    pub fn pattern(&self) -> (r: Option<&Pattern>)
        ensures
            r == Some(&self.pattern_spec()),
    {
        match self {
            Clip::Pattern(p) => Some(p),
        }
    }

    /// Get a mutable reference to the pattern if this is a pattern clip.
    pub fn pattern_mut(&mut self) -> (r: Option<&mut Pattern>)
        ensures
            r.is_some(),
            *r.unwrap() == old(self).pattern_spec(),
            final(self).pattern_spec() == *final(r.unwrap()),
    {
        match self {
            Clip::Pattern(p) => Some(p),
        }
    }
}

/// A track in the timeline: a clip pool and a playback sequence.
#[derive(Clone, Debug)]
pub struct Track {
    /// Parent machine node in the graph; `None` = standalone/channel track.
    pub machine_node: Option<NodeId>,
    /// First tracker channel index this track drives.
    pub base_channel: u8,
    /// Number of channels (= pattern column count).
    pub num_channels: u8,
    /// Pool of clips owned by this track
    pub clips: Vec<Clip>,
    /// Playback order (which clip to play when)
    pub sequence: Vec<SeqEntry>,
    /// Track group (tracks of one group share a playback position display)
    pub group: Option<u16>,
    /// Is the track muted?
    pub muted: bool,
}

/// The pattern of clip `idx` of `track`, if there is such a clip.
pub open spec fn pattern_at(track: Track, idx: int) -> Option<Pattern> {
    if 0 <= idx < track.clips@.len() {
        Some(track.clips@[idx].pattern_spec())
    } else {
        None
    }
}

/// Rows per beat of a pattern: its own value, or the song's.
pub open spec fn effective_rpb(p: Pattern, song_rpb: int) -> int {
    match p.rows_per_beat {
        Some(r) => r as int,
        None => song_rpb,
    }
}

pub(crate) fn pattern_rpb(p: &Pattern, song_rpb: u32) -> (r: u32)
    ensures
        r == effective_rpb(*p, song_rpb as int),
{
    match p.rows_per_beat {
        Some(r) => r as u32,
        None => song_rpb,
    }
}

/// Index of the first entry from `i` on that starts on `beat`.
pub open spec fn first_on_beat(seq: Seq<SeqEntry>, beat: u32, i: int) -> Option<int>
    decreases seq.len() - i,
{
    if i < 0 || i >= seq.len() {
        None
    } else if starts_on_beat(seq[i], beat) {
        Some(i)
    } else {
        first_on_beat(seq, beat, i + 1)
    }
}

/// The sequence entry of `track` whose start lies on `beat` (compared in 32 bits).
pub open spec fn starts_on_beat(e: SeqEntry, beat: u32) -> bool {
    e.start.beat as u32 == beat
}

impl Track {
    /// Create a new track with the given channel mapping, no clips, no
    /// sequence, no group, not muted.
    pub fn new(machine_node: Option<NodeId>, base_channel: u8, num_channels: u8) -> (r: Self)
        ensures
            r.machine_node == machine_node,
            r.base_channel == base_channel,
            r.num_channels == num_channels,
            r.clips@.len() == 0,
            r.sequence@.len() == 0,
            r.group.is_none(),
            !r.muted,
    {
        Self {
            machine_node,
            base_channel,
            num_channels,
            clips: Vec::new(),
            sequence: Vec::new(),
            group: None,
            muted: false,
        }
    }

    /// The pattern of clip `idx`, if any.
    pub fn get_pattern_at(&self, idx: usize) -> (r: Option<&Pattern>)
        ensures
            r == (match pattern_at(*self, idx as int) {
                Some(p) => Some(&p),
                None => None,
            }),
    {
        if idx < self.clips.len() {
            self.clips[idx].pattern()
        } else {
            None
        }
    }

    /// The first sequence entry starting on `beat`, if any.
    pub fn seq_entry_at_beat(&self, beat: u32) -> (r: Option<&SeqEntry>)
        ensures
            r == (match first_on_beat(self.sequence@, beat, 0) {
                Some(i) => Some(&self.sequence@[i]),
                None => None,
            }),
            first_on_beat(self.sequence@, beat, 0) matches Some(i) ==> 0 <= i < self.sequence@.len(),
    {
        let mut i: usize = 0;
        while i < self.sequence.len()
            invariant
                i <= self.sequence@.len(),
                first_on_beat(self.sequence@, beat, 0) == first_on_beat(self.sequence@, beat, i as int),
            decreases self.sequence@.len() - i,
        {
            if self.sequence[i].start.beat as u32 == beat {
                return Some(&self.sequence[i]);
            }
            i = i + 1;
        }
        None
    }
}

/// Node `id` is a machine named `name`.
pub open spec fn is_machine_named(graph: AudioGraph, id: int, name: Seq<char>) -> bool {
    0 <= id < graph.nodes@.len() && match graph.nodes@[id].node_type {
        NodeType::BuzzMachine { machine_name } => machine_name@ == name,
        _ => false,
    }
}

/// Node `id` is a machine.
pub open spec fn is_machine(graph: AudioGraph, id: int) -> bool {
    0 <= id < graph.nodes@.len() && graph.nodes@[id].node_type is BuzzMachine
}

/// A track is driven by the tracker: it is routed to channels directly, or to
/// the machine named "Tracker".
pub open spec fn is_tracker_track(graph: AudioGraph, track: Track) -> bool {
    match track.machine_node {
        None => true,
        Some(id) => is_machine_named(graph, id as int, "Tracker"@),
    }
}

fn node_is_machine_named(graph: &AudioGraph, i: usize, name: &str) -> (r: bool)
    requires
        i < graph.nodes@.len(),
    ensures
        r == is_machine_named(*graph, i as int, name@),
{
    match &graph.nodes[i].node_type {
        NodeType::BuzzMachine { machine_name } => text_eq(machine_name.as_str(), name),
        _ => false,
    }
}

/// The first node from position `i` on that is a machine named `name`.
pub open spec fn first_named_from(graph: AudioGraph, name: Seq<char>, i: int) -> Option<NodeId>
    decreases graph.nodes@.len() - i,
{
    if i < 0 || i >= graph.nodes@.len() {
        None
    } else if is_machine_named(graph, i, name) {
        Some(i as u16)
    } else {
        first_named_from(graph, name, i + 1)
    }
}

/// The search for a named machine looks at the node list only.
pub proof fn lemma_first_named_same_nodes(g1: AudioGraph, g2: AudioGraph, name: Seq<char>, i: int)
    requires
        g1.nodes@ == g2.nodes@,
    ensures
        first_named_from(g1, name, i) == first_named_from(g2, name, i),
    decreases g1.nodes@.len() - i,
{
    if 0 <= i < g1.nodes@.len() && !is_machine_named(g1, i, name) {
        lemma_first_named_same_nodes(g1, g2, name, i + 1);
    }
}

/// The first node from position `i` on that is a machine.
pub open spec fn first_machine_from(graph: AudioGraph, i: int) -> Option<NodeId>
    decreases graph.nodes@.len() - i,
{
    if i < 0 || i >= graph.nodes@.len() {
        None
    } else if is_machine(graph, i) {
        Some(i as u16)
    } else {
        first_machine_from(graph, i + 1)
    }
}

/// Find the first machine node named "Tracker".
pub fn find_tracker_node(graph: &AudioGraph) -> (r: Option<NodeId>)
    ensures
        r == first_named_from(*graph, "Tracker"@, 0),
{
    let mut i: usize = 0;
    while i < graph.nodes.len()
        invariant
            i <= graph.nodes@.len(),
            first_named_from(*graph, "Tracker"@, 0) == first_named_from(*graph, "Tracker"@, i as int),
        decreases graph.nodes@.len() - i,
    {
        if node_is_machine_named(graph, i, "Tracker") {
            return Some(i as NodeId);
        }
        i = i + 1;
    }
    None
}

/// Find the first machine node (e.g. the Amiga filter of a MOD song).
pub fn find_machine_node(graph: &AudioGraph) -> (r: Option<NodeId>)
    ensures
        r == first_machine_from(*graph, 0),
{
    let mut i: usize = 0;
    while i < graph.nodes.len()
        invariant
            i <= graph.nodes@.len(),
            first_machine_from(*graph, 0) == first_machine_from(*graph, i as int),
        decreases graph.nodes@.len() - i,
    {
        let found = match &graph.nodes[i].node_type {
            NodeType::BuzzMachine { .. } => true,
            _ => false,
        };
        if found {
            return Some(i as NodeId);
        }
        i = i + 1;
    }
    None
}

/// Classic Amiga panning for channel `i`: L R R L, repeating.
pub open spec fn amiga_pan(i: int) -> i8 {
    if i % 4 == 0 || i % 4 == 3 { -64i8 } else { 64i8 }
}

/// The end time of a track: the end of its last entry's clip, at the clip's
/// rows-per-beat. `None` without entries or when the last entry names no clip.
pub open spec fn track_end_time_spec(track: Track, song_rpb: int) -> Option<MusicalTime> {
    if track.sequence@.len() == 0 {
        None
    } else {
        let last = track.sequence@.last();
        match pattern_at(track, last.clip_idx as int) {
            None => None,
            Some(p) => Some(add_rows_spec(last.start, p.rows as int, effective_rpb(p, song_rpb))),
        }
    }
}

/// Computing a track's end time divides by a nonzero rows-per-beat and does
/// not overflow.
pub open spec fn track_end_computable(track: Track, song_rpb: int) -> bool {
    track.sequence@.len() > 0 ==> {
        let last = track.sequence@.last();
        match pattern_at(track, last.clip_idx as int) {
            None => true,
            Some(p) => effective_rpb(p, song_rpb) > 0
                && can_add_sub_beats(last.start, p.rows * sub_per_row(effective_rpb(p, song_rpb))),
        }
    }
}

/// The later of two times.
pub open spec fn later(a: MusicalTime, b: MusicalTime) -> MusicalTime {
    if a.lt_spec(b) { b } else { a }
}

/// The latest end time among the first `n` tracks, or zero.
pub open spec fn max_end_time(tracks: Seq<Track>, song_rpb: int, n: int) -> MusicalTime
    decreases n,
{
    if n <= 0 {
        MusicalTime { beat: 0, sub_beat: 0 }
    } else {
        let prev = max_end_time(tracks, song_rpb, n - 1);
        match track_end_time_spec(tracks[n - 1], song_rpb) {
            Some(t) => later(prev, t),
            None => prev,
        }
    }
}

/// Compute the end time for a track (time after its last clip finishes).
pub fn track_end_time(track: &Track, song_rpb: u8) -> (r: Option<MusicalTime>)
    requires
        track_end_computable(*track, song_rpb as int),
    ensures
        r == track_end_time_spec(*track, song_rpb as int),
{
    if track.sequence.len() == 0 {
        return None;
    }
    let last = track.sequence[track.sequence.len() - 1];
    match track.get_pattern_at(last.clip_idx as usize) {
        None => None,
        Some(pattern) => {
            let rpb = pattern_rpb(pattern, song_rpb as u32);
            Some(last.start.add_rows(pattern.rows as u32, rpb))
        },
    }
}

/// The tracker-style sequence built from an order list: each pattern entry
/// starts where the previous existing pattern ended; skip markers are
/// ignored and an end marker stops the list.
pub open spec fn sequence_from_order(
    order: Seq<OrderEntry>,
    patterns: Seq<Pattern>,
    song_rpb: int,
    i: int,
    time: MusicalTime,
) -> Seq<SeqEntry>
    decreases order.len() - i,
{
    if i < 0 || i >= order.len() {
        Seq::empty()
    } else {
        match order[i] {
            OrderEntry::End => Seq::empty(),
            OrderEntry::Skip => sequence_from_order(order, patterns, song_rpb, i + 1, time),
            OrderEntry::Pattern(idx) => {
                let exists = (idx as int) < patterns.len();
                let length = if exists { patterns[idx as int].rows } else { 0u16 };
                let next = if exists {
                    add_rows_spec(time, patterns[idx as int].rows as int, effective_rpb(patterns[idx as int], song_rpb))
                } else {
                    time
                };
                seq![SeqEntry { start: time, clip_idx: idx as u16, length, termination: SeqTermination::Natural }]
                    + sequence_from_order(order, patterns, song_rpb, i + 1, next)
            },
        }
    }
}

/// Two pattern lists of the same length whose patterns agree in row count
/// and rows per beat.
pub open spec fn same_shapes(p1: Seq<Pattern>, p2: Seq<Pattern>) -> bool {
    &&& p1.len() == p2.len()
    &&& forall|k: int| 0 <= k < p1.len() ==> (#[trigger] p1[k]).rows == p2[k].rows && p1[k].rows_per_beat == p2[k].rows_per_beat
}

/// The sequence built from an order list depends on the patterns only
/// through their row counts and rows per beat.
pub proof fn lemma_sequence_same_shapes(
    order: Seq<OrderEntry>,
    p1: Seq<Pattern>,
    p2: Seq<Pattern>,
    song_rpb: int,
    i: int,
    time: MusicalTime,
)
    requires
        same_shapes(p1, p2),
    ensures
        sequence_from_order(order, p1, song_rpb, i, time) == sequence_from_order(order, p2, song_rpb, i, time),
    decreases order.len() - i,
{
    if 0 <= i < order.len() {
        match order[i] {
            OrderEntry::End => {},
            OrderEntry::Skip => {
                lemma_sequence_same_shapes(order, p1, p2, song_rpb, i + 1, time);
            },
            OrderEntry::Pattern(idx) => {
                if (idx as int) < p1.len() {
                    let k = idx as int;
                    assert(p1[k].rows == p2[k].rows && p1[k].rows_per_beat == p2[k].rows_per_beat);
                    assert(effective_rpb(p1[k], song_rpb) == effective_rpb(p2[k], song_rpb));
                    let next = add_rows_spec(time, p1[k].rows as int, effective_rpb(p1[k], song_rpb));
                    lemma_sequence_same_shapes(order, p1, p2, song_rpb, i + 1, next);
                } else {
                    lemma_sequence_same_shapes(order, p1, p2, song_rpb, i + 1, time);
                }
            },
        }
    }
}

/// Every pattern an order list refers to has a nonzero rows-per-beat.
pub open spec fn order_rpb_ok(order: Seq<OrderEntry>, patterns: Seq<Pattern>, song_rpb: int) -> bool {
    forall|i: int| 0 <= i < order.len() ==> match #[trigger] order[i] {
        OrderEntry::Pattern(idx) => (idx as int) < patterns.len() ==> effective_rpb(patterns[idx as int], song_rpb) > 0,
        _ => true,
    }
}

/// Build a sequence from a legacy order list, computing start times.
pub fn build_sequence_from_order(order: &[OrderEntry], patterns: &[Pattern], song_rpb: u8) -> (r: Vec<SeqEntry>)
    requires
        order@.len() <= 0xffff_ffff,
        order_rpb_ok(order@, patterns@, song_rpb as int),
    ensures
        r@ == sequence_from_order(order@, patterns@, song_rpb as int, 0, MusicalTime { beat: 0, sub_beat: 0 }),
{
    let rpb = song_rpb as u32;
    let mut sequence: Vec<SeqEntry> = Vec::new();
    let mut time = MusicalTime::zero();
    let mut i: usize = 0;
    while i < order.len()
        invariant_except_break
            i <= order@.len(),
            order@.len() <= 0xffff_ffff,
            order_rpb_ok(order@, patterns@, song_rpb as int),
            rpb == song_rpb,
            time.wf(),
            time.beat <= i * 0x1_0000,
            sequence@ + sequence_from_order(order@, patterns@, song_rpb as int, i as int, time)
                == sequence_from_order(order@, patterns@, song_rpb as int, 0, MusicalTime { beat: 0, sub_beat: 0 }),
        ensures
            sequence@ == sequence_from_order(order@, patterns@, song_rpb as int, 0, MusicalTime { beat: 0, sub_beat: 0 }),
        decreases order@.len() - i,
    {
        match order[i] {
            OrderEntry::Pattern(idx) => {
                let ghost before = sequence@;
                let ghost t0 = time;
                let exists = (idx as usize) < patterns.len();
                let length: u16 = if exists { patterns[idx as usize].rows } else { 0 };
                sequence.push(SeqEntry {
                    start: time,
                    clip_idx: idx as u16,
                    length,
                    termination: SeqTermination::Natural,
                });
                if exists {
                    let pattern = &patterns[idx as usize];
                    let pat_rpb = pattern_rpb(pattern, rpb);
                    assert(order@[i as int] == OrderEntry::Pattern(idx));
                    proof {
                        let spr = sub_per_row(pat_rpb as int);
                        assert(spr <= 720720 && spr >= 0) by (nonlinear_arith) requires pat_rpb > 0, spr == 720720int / (pat_rpb as int);
                        let delta = pattern.rows * spr;
                        assert(0 <= delta <= 0xffff * 720720) by (nonlinear_arith)
                            requires spr <= 720720, spr >= 0, pattern.rows <= 0xffff, delta == pattern.rows * spr;
                        assert((time.sub_beat + delta) / 720720 <= 0x1_0000) by (nonlinear_arith)
                            requires 0 <= delta <= 0xffff * 720720, time.sub_beat < 720720;
                        assert(can_add_sub_beats(time, delta));
                        crate::musical_time::lemma_add_rows_advances(time, pattern.rows as nat, pat_rpb as int);
                    }
                    time = time.add_rows(pattern.rows as u32, pat_rpb);
                }
                proof {
                    assert(sequence@ == before.push(SeqEntry { start: t0, clip_idx: idx as u16, length, termination: SeqTermination::Natural }));
                    assert(sequence@ + sequence_from_order(order@, patterns@, song_rpb as int, i + 1, time)
                        =~= before + sequence_from_order(order@, patterns@, song_rpb as int, i as int, t0));
                }
            },
            OrderEntry::Skip => {},
            OrderEntry::End => {
                assert(sequence_from_order(order@, patterns@, song_rpb as int, i as int, time) == Seq::<SeqEntry>::empty());
                assert(sequence@ =~= sequence@ + Seq::<SeqEntry>::empty());
                break;
            },
        }
        i = i + 1;
    }
    sequence
}

/// Two patterns have the same shape, settings and cells.
pub open spec fn same_pattern(a: Pattern, b: Pattern) -> bool {
    &&& a.rows == b.rows
    &&& a.channels == b.channels
    &&& a.ticks_per_row == b.ticks_per_row
    &&& a.rows_per_beat == b.rows_per_beat
    &&& a.data@ == b.data@
}

/// Two songs agree on everything but their tracks.
pub open spec fn same_except_tracks(a: Song, b: Song) -> bool {
    &&& a.title == b.title
    &&& a.initial_tempo == b.initial_tempo
    &&& a.initial_speed == b.initial_speed
    &&& a.rows_per_beat == b.rows_per_beat
    &&& a.global_volume == b.global_volume
    &&& a.instruments@ == b.instruments@
    &&& a.samples@ == b.samples@
    &&& a.channels@ == b.channels@
    &&& a.graph.nodes@ == b.graph.nodes@
    &&& a.graph.connections@ == b.graph.connections@
}

/// The song settings every new song starts from.
pub open spec fn default_settings(s: Song) -> bool {
    &&& s.initial_tempo == 125
    &&& s.initial_speed == 6
    &&& s.rows_per_beat == 4
    &&& s.global_volume == 64
    &&& s.instruments@.len() == 0
    &&& s.samples@.len() == 0
    &&& s.tracks@.len() == 0
}

/// A graph holding only the master node.
pub open spec fn master_only(g: AudioGraph) -> bool {
    &&& g.nodes@.len() == 1
    &&& g.nodes@[0].id == 0
    &&& g.nodes@[0].node_type == NodeType::Master
    &&& g.nodes@[0].parameters@.len() == 0
    &&& g.connections@.len() == 0
}

impl Default for Song {
    /// An untitled song at 125 BPM, speed 6, 4 rows per beat, volume 64, with
    /// a master-only graph and nothing else.
    fn default() -> (r: Self)
        ensures
            name32_bytes(r.title) == Seq::<u8>::empty(),
            default_settings(r),
            r.channels@.len() == 0,
            master_only(r.graph),
    {
        Self {
            title: name32_new(),
            initial_tempo: 125,
            initial_speed: 6,
            rows_per_beat: 4,
            global_volume: 64,
            instruments: Vec::new(),
            samples: Vec::new(),
            channels: Vec::new(),
            graph: AudioGraph::with_master(),
            tracks: Vec::new(),
        }
    }
}

/// The graph of a tracker song: master (0), Amiga filter (1) with its cutoff
/// parameter, and the tracker machine (2); tracker -> filter -> master.
pub open spec fn tracker_graph(g: AudioGraph) -> bool {
    &&& g.nodes@.len() == 3
    &&& g.nodes@[0].id == 0 && g.nodes@[0].node_type == NodeType::Master
    &&& g.nodes@[0].parameters@.len() == 0
    &&& g.nodes@[1].id == 1 && is_machine_named(g, 1, "Amiga Filter"@)
    &&& g.nodes@[1].parameters@.len() == 1
    &&& g.nodes@[1].parameters@[0].id == 0
    &&& g.nodes@[1].parameters@[0].min == 1000
    &&& g.nodes@[1].parameters@[0].max == 22050
    &&& g.nodes@[1].parameters@[0].default == 4410
    &&& g.nodes@[1].parameters@[0].value == 4410
    &&& g.nodes@[2].id == 2 && is_machine_named(g, 2, "Tracker"@)
    &&& g.nodes@[2].parameters@.len() == 0
    &&& g.connections@ == seq![
        crate::graph::Connection { from: 1, to: 0, from_channel: 0, to_channel: 0, gain: 0 },
        crate::graph::Connection { from: 2, to: 1, from_channel: 0, to_channel: 0, gain: 0 },
    ]
}

impl Song {
    /// Create a new empty song with the given title (left empty when it does
    /// not fit in 32 bytes).
    pub fn new(title: &str) -> (r: Self)
        ensures
            name32_bytes(r.title) == fitted(title.spec_bytes(), 32),
            default_settings(r),
            r.channels@.len() == 0,
            master_only(r.graph),
    {
        let mut song = Self::default();
        song.title = name32(title);
        song
    }

    /// Create a song with `num_channels` tracker channels: graph
    /// tracker -> Amiga filter -> master, Amiga L R R L panning, full volume.
    pub fn with_channels(title: &str, num_channels: u8) -> (r: Self)
        ensures
            name32_bytes(r.title) == fitted(title.spec_bytes(), 32),
            default_settings(r),
            tracker_graph(r.graph),
            r.channels@.len() == num_channels,
            forall|i: int| 0 <= i < num_channels ==> #[trigger] r.channels@[i] == (ChannelSettings {
                initial_pan: amiga_pan(i),
                initial_vol: 64,
                muted: false,
            }),
    {
        let mut song = Self::new(title);
        let filter_id = song.graph.add_node(NodeType::BuzzMachine { machine_name: "Amiga Filter".to_owned() });
        song.graph.add_parameter(filter_id, Parameter::new(0, "Cutoff", 1000, 22050, 4410));
        song.graph.connect(filter_id, 0);
        let ghost g1 = song.graph;
        let tracker_id = song.graph.add_node(NodeType::BuzzMachine { machine_name: "Tracker".to_owned() });
        song.graph.connect(tracker_id, filter_id);
        proof {
            assert(song.graph.nodes@[0] == g1.nodes@[0]);
            assert(song.graph.nodes@[1] == g1.nodes@[1]);
            assert(song.graph.connections@ =~= seq![
                crate::graph::Connection { from: 1, to: 0, from_channel: 0, to_channel: 0, gain: 0 },
                crate::graph::Connection { from: 2, to: 1, from_channel: 0, to_channel: 0, gain: 0 },
            ]);
        }
        let mut i: u8 = 0;
        while i < num_channels
            invariant
                i <= num_channels,
                song.channels@.len() == i,
                forall|j: int| 0 <= j < i ==> #[trigger] song.channels@[j] == (ChannelSettings {
                    initial_pan: amiga_pan(j),
                    initial_vol: 64,
                    muted: false,
                }),
                name32_bytes(song.title) == fitted(title.spec_bytes(), 32),
                default_settings(song),
                tracker_graph(song.graph),
            decreases num_channels - i,
        {
            let pan: i8 = if i % 4 == 0 || i % 4 == 3 { -64 } else { 64 };
            song.channels.push(ChannelSettings { initial_pan: pan, initial_vol: 64, muted: false });
            i = i + 1;
        }
        song
    }

    /// The track is driven by the tracker.
    pub fn is_tracker(&self, track: &Track) -> (r: bool)
        ensures
            r == is_tracker_track(self.graph, *track),
    {
        match track.machine_node {
            None => true,
            Some(id) => (id as usize) < self.graph.nodes.len() && node_is_machine_named(&self.graph, id as usize, "Tracker"),
        }
    }

    /// Every track's end time can be computed.
    pub open spec fn end_times_computable(&self) -> bool {
        forall|i: int| 0 <= i < self.tracks@.len() ==> track_end_computable(#[trigger] self.tracks@[i], self.rows_per_beat as int)
    }

    /// Total song time: the latest end time of any track, or zero.
    pub fn total_time(&self) -> (r: MusicalTime)
        requires
            self.end_times_computable(),
        ensures
            r == max_end_time(self.tracks@, self.rows_per_beat as int, self.tracks@.len() as int),
    {
        let mut best = MusicalTime::zero();
        let mut i: usize = 0;
        while i < self.tracks.len()
            invariant
                i <= self.tracks@.len(),
                self.end_times_computable(),
                best == max_end_time(self.tracks@, self.rows_per_beat as int, i as int),
            decreases self.tracks@.len() - i,
        {
            match track_end_time(&self.tracks[i], self.rows_per_beat) {
                Some(t) => {
                    if best < t {
                        best = t;
                    }
                },
                None => {},
            }
            i = i + 1;
        }
        best
    }
}

/// Copy every pattern into a clip, in order.
fn clips_from_patterns(patterns: &[Pattern]) -> (r: Vec<Clip>)
    ensures
        r@.len() == patterns@.len(),
        forall|k: int| 0 <= k < r@.len() ==> same_pattern(#[trigger] r@[k].pattern_spec(), patterns@[k]),
{
    let mut clips: Vec<Clip> = Vec::new();
    let mut k: usize = 0;
    while k < patterns.len()
        invariant
            k <= patterns@.len(),
            clips@.len() == k,
            forall|j: int| 0 <= j < k ==> same_pattern(#[trigger] clips@[j].pattern_spec(), patterns@[j]),
        decreases patterns@.len() - k,
    {
        clips.push(Clip::Pattern(patterns[k].duplicate()));
        k = k + 1;
    }
    clips
}

/// Build the single track of a tracker song from multi-channel patterns and
/// an order list: one clip per pattern, the sequence of the order list, the
/// tracker machine as its node, channels `0..channels.len()`, group 0.
/// A song without channels is left unchanged.
pub fn build_tracks(song: &mut Song, patterns: &[Pattern], order: &[OrderEntry])
    requires
        order@.len() <= 0xffff_ffff,
        order_rpb_ok(order@, patterns@, old(song).rows_per_beat as int),
    ensures
        same_except_tracks(*final(song), *old(song)),
        old(song).channels@.len() as u8 == 0 ==> final(song).tracks@ == old(song).tracks@,
        old(song).channels@.len() as u8 != 0 ==> {
            let t = final(song).tracks@[0];
            &&& final(song).tracks@.len() == 1
            &&& t.machine_node == first_named_from(old(song).graph, "Tracker"@, 0)
            &&& t.base_channel == 0
            &&& t.num_channels == old(song).channels@.len() as u8
            &&& t.group == Some(0u16)
            &&& !t.muted
            &&& t.clips@.len() == patterns@.len()
            &&& forall|k: int| 0 <= k < patterns@.len() ==> same_pattern(#[trigger] t.clips@[k].pattern_spec(), patterns@[k])
            &&& t.sequence@ == sequence_from_order(order@, patterns@, old(song).rows_per_beat as int, 0, MusicalTime { beat: 0, sub_beat: 0 })
        },
{
    let num_channels = song.channels.len() as u8;
    if num_channels == 0 {
        return;
    }
    let machine_node = find_tracker_node(&song.graph);
    let mut track = Track::new(machine_node, 0, num_channels);
    track.clips = clips_from_patterns(patterns);
    track.sequence = build_sequence_from_order(order, patterns, song.rows_per_beat);
    track.group = Some(0);
    let mut tracks: Vec<Track> = Vec::new();
    tracks.push(track);
    song.tracks = tracks;
}

} // verus!
