//! Walking a modulation envelope's breakpoints: which segment a playing
//! envelope is in, how far into it, and where loops and the sustain point
//! take it. Values are read from the breakpoints by the caller.
use vstd::prelude::*;

verus! {

/// Where a playing envelope stands.
#[derive(Clone, Copy, Debug, PartialEq, Eq, Structural)]
pub struct EnvelopeWalk {
    /// Current segment index (the "from" breakpoint)
    pub segment: u16,
    /// Time units elapsed within the current segment
    pub time_in_segment: u32,
    /// The breakpoint whose value the envelope outputs; `None` while it is
    /// between `segment` and the next breakpoint
    pub value_index: Option<u16>,
    /// A one-shot envelope reached its end
    pub finished: bool,
    /// Holding at the sustain point, waiting for gate-off
    pub gate_held: bool,
    /// A loop point was crossed on the last advance
    pub looped: bool,
}

/// One step of the walk over breakpoints whose distances from their
/// predecessors are `dts`: the state after it, and whether the walk stops
/// there. Past the last breakpoint the envelope is finished. When the time
/// reaches the next breakpoint (or it is no distance away) the walk moves
/// onto it, keeping the time left over: it holds at the sustain point; at
/// or past the loop's end it jumps back to the loop's start, and goes on
/// while time is left; on the last breakpoint it is finished; otherwise it
/// goes on while time is left. Short of the next breakpoint it stops
/// between the two.
pub open spec fn walk_step(w: EnvelopeWalk, dts: Seq<u32>, loop_range: Option<(u16, u16)>, sustain: Option<u16>) -> (EnvelopeWalk, bool) {
    let next = w.segment + 1;
    if next >= dts.len() {
        (EnvelopeWalk { finished: true, value_index: Some(w.segment), ..w }, true)
    } else if dts[next] == 0 || w.time_in_segment >= dts[next] {
        let over = if dts[next] > 0 { w.time_in_segment - dts[next] } else { w.time_in_segment as int };
        let w1 = EnvelopeWalk { segment: next as u16, time_in_segment: over as u32, value_index: Some(next as u16), ..w };
        if sustain == Some(next as u16) {
            (EnvelopeWalk { gate_held: true, time_in_segment: 0, ..w1 }, true)
        } else if loop_range is Some && next >= loop_range->Some_0.1 {
            let s = loop_range->Some_0.0;
            (EnvelopeWalk { segment: s, looped: true, value_index: Some(s), ..w1 }, over == 0)
        } else if next + 1 >= dts.len() {
            (EnvelopeWalk { finished: true, ..w1 }, true)
        } else {
            (w1, over == 0)
        }
    } else {
        (EnvelopeWalk { value_index: None, ..w }, true)
    }
}

/// The walk after `n` steps, and whether it has stopped (a stopped walk
/// stays where it stopped).
pub open spec fn walk_iter(w: EnvelopeWalk, dts: Seq<u32>, loop_range: Option<(u16, u16)>, sustain: Option<u16>, n: nat) -> (EnvelopeWalk, bool)
    decreases n,
{
    if n == 0 {
        (w, false)
    } else {
        let prev = walk_iter(w, dts, loop_range, sustain, (n - 1) as nat);
        if prev.1 { prev } else { walk_step(prev.0, dts, loop_range, sustain) }
    }
}

/// Where the walk from `w` stops.
pub open spec fn resolve_spec(w: EnvelopeWalk, dts: Seq<u32>, loop_range: Option<(u16, u16)>, sustain: Option<u16>) -> EnvelopeWalk {
    walk_iter(w, dts, loop_range, sustain, choose|n: nat| walk_iter(w, dts, loop_range, sustain, n).1).0
}

/// From breakpoint `k` on, with no time consumed, a walk reaches a
/// breakpoint at a distance, the sustain point or the end before it comes
/// to the loop's end `e`.
pub open spec fn pass_ok(dts: Seq<u32>, e: int, sustain: Option<u16>, k: int) -> bool
    decreases dts.len() - k,
{
    if k < 0 || k >= dts.len() {
        true
    } else if dts[k] > 0 || sustain == Some(#[verifier::truncate] (k as u16)) {
        true
    } else if k >= e {
        false
    } else if k + 1 >= dts.len() {
        true
    } else {
        pass_ok(dts, e, sustain, k + 1)
    }
}

/// A loop that the walk can reach starts at a breakpoint, and a pass from
/// its start consumes time, holds or ends before it loops again.
pub open spec fn loop_progresses(dts: Seq<u32>, loop_range: Option<(u16, u16)>, sustain: Option<u16>) -> bool {
    match loop_range {
        Some((s, e)) => e < dts.len() ==> s < dts.len() && pass_ok(dts, e as int, sustain, s + 1),
        None => true,
    }
}

proof fn lemma_stopped_stays(w: EnvelopeWalk, dts: Seq<u32>, lr: Option<(u16, u16)>, sus: Option<u16>, n: nat, m: nat)
    requires
        walk_iter(w, dts, lr, sus, n).1,
        n <= m,
    ensures
        walk_iter(w, dts, lr, sus, m) == walk_iter(w, dts, lr, sus, n),
    decreases m,
{
    if m > n {
        lemma_stopped_stays(w, dts, lr, sus, n, (m - 1) as nat);
    }
}

proof fn lemma_resolve_at(w: EnvelopeWalk, dts: Seq<u32>, lr: Option<(u16, u16)>, sus: Option<u16>, n: nat)
    requires
        walk_iter(w, dts, lr, sus, n).1,
    ensures
        resolve_spec(w, dts, lr, sus) == walk_iter(w, dts, lr, sus, n).0,
{
    let c = choose|k: nat| walk_iter(w, dts, lr, sus, k).1;
    assert(walk_iter(w, dts, lr, sus, c).1);
    if c <= n {
        lemma_stopped_stays(w, dts, lr, sus, c, n);
    } else {
        lemma_stopped_stays(w, dts, lr, sus, n, c);
    }
}

/// Whether a walk over these breakpoints can get stuck in its loop: the
/// condition under which resolving it always ends.
pub fn loop_can_progress(dts: &[u32], loop_range: Option<(u16, u16)>, sustain: Option<u16>) -> (r: bool)
    ensures
        r == loop_progresses(dts@, loop_range, sustain),
{
    match loop_range {
        None => true,
        Some((s, e)) => {
            if e as usize >= dts.len() {
                return true;
            }
            if s as usize >= dts.len() {
                return false;
            }
            let mut k: usize = s as usize + 1;
            while k < dts.len()
                invariant
                    s + 1 <= k,
                    e < dts@.len(),
                    s < dts@.len(),
                    loop_range == Some((s, e)),
                    pass_ok(dts@, e as int, sustain, s + 1) == pass_ok(dts@, e as int, sustain, k as int),
                decreases dts@.len() - k,
            {
                if dts[k] > 0 || sustain == Some(#[verifier::truncate] (k as u16)) {
                    return true;
                }
                if k >= e as usize {
                    return false;
                }
                if k + 1 >= dts.len() {
                    return true;
                }
                k = k + 1;
            }
            true
        },
    }
}

/// Walk forward through the breakpoints until the time in the segment lies
/// within it, handling loop and sustain.
pub fn resolve_walk(w: EnvelopeWalk, dts: &[u32], loop_range: Option<(u16, u16)>, sustain: Option<u16>) -> (r: EnvelopeWalk)
    requires
        dts@.len() > 0,
        dts@.len() <= 0xffff,
        w.segment < dts@.len(),
        loop_progresses(dts@, loop_range, sustain),
    ensures
        r == resolve_spec(w, dts@, loop_range, sustain),
        r.segment < dts@.len(),
{
    let mut cur = w;
    let ghost mut n: nat = 0;
    let ghost mut free: bool = true;
    loop
        invariant
            dts@.len() > 0,
            dts@.len() <= 0xffff,
            cur.segment < dts@.len(),
            loop_progresses(dts@, loop_range, sustain),
            walk_iter(w, dts@, loop_range, sustain, n) == (cur, false),
            !free ==> (loop_range is Some && pass_ok(dts@, loop_range->Some_0.1 as int, sustain, cur.segment + 1)),
        decreases cur.time_in_segment, (if free { 1int } else { 0int }), dts@.len() - cur.segment,
    {
        let ghost before = cur;
        proof {
            assert(walk_iter(w, dts@, loop_range, sustain, n + 1) == walk_step(before, dts@, loop_range, sustain));
        }
        let seg = cur.segment as usize;
        let next_idx = seg + 1;
        if next_idx >= dts.len() {
            cur.finished = true;
            cur.value_index = Some(cur.segment);
            proof { lemma_resolve_at(w, dts@, loop_range, sustain, n + 1); }
            return cur;
        }
        let dt = dts[next_idx];
        if dt == 0 || cur.time_in_segment >= dt {
            let overshoot = if dt > 0 { cur.time_in_segment - dt } else { cur.time_in_segment };
            cur.segment = next_idx as u16;
            cur.time_in_segment = overshoot;
            cur.value_index = Some(cur.segment);
            if sustain == Some(cur.segment) {
                cur.gate_held = true;
                cur.time_in_segment = 0;
                proof { lemma_resolve_at(w, dts@, loop_range, sustain, n + 1); }
                return cur;
            }
            if let Some((s, e)) = loop_range {
                if cur.segment >= e {
                    proof {
                        if !free && dt == 0 {
                            assert(pass_ok(dts@, e as int, sustain, next_idx as int) == false);
                        }
                    }
                    cur.segment = s;
                    cur.looped = true;
                    cur.value_index = Some(s);
                    if cur.time_in_segment == 0 {
                        proof { lemma_resolve_at(w, dts@, loop_range, sustain, n + 1); }
                        return cur;
                    }
                    proof {
                        n = n + 1;
                        free = false;
                    }
                    continue;
                }
            }
            if next_idx + 1 >= dts.len() {
                cur.finished = true;
                proof { lemma_resolve_at(w, dts@, loop_range, sustain, n + 1); }
                return cur;
            }
            if cur.time_in_segment > 0 {
                proof {
                    n = n + 1;
                    if dt > 0 {
                        free = true;
                    }
                }
                continue;
            }
            proof { lemma_resolve_at(w, dts@, loop_range, sustain, n + 1); }
            return cur;
        } else {
            cur.value_index = None;
            proof { lemma_resolve_at(w, dts@, loop_range, sustain, n + 1); }
            return cur;
        }
    }
}

/// The walk after `delta` more time: a finished or held envelope, or one
/// of fewer than two breakpoints, does not move; otherwise the time is
/// added and the walk resolved. The loop flag tells of this advance only.
pub open spec fn advance_spec(w: EnvelopeWalk, dts: Seq<u32>, loop_range: Option<(u16, u16)>, sustain: Option<u16>, delta: u32) -> EnvelopeWalk {
    let w0 = EnvelopeWalk { looped: false, ..w };
    if w.finished || w.gate_held || dts.len() < 2 {
        w0
    } else {
        resolve_spec(EnvelopeWalk { time_in_segment: (w.time_in_segment + delta) as u32, ..w0 }, dts, loop_range, sustain)
    }
}

/// Advance the walk by `delta` time units.
pub fn advance_walk(w: EnvelopeWalk, dts: &[u32], loop_range: Option<(u16, u16)>, sustain: Option<u16>, delta: u32) -> (r: EnvelopeWalk)
    requires
        dts@.len() <= 0xffff,
        w.segment < dts@.len() || dts@.len() < 2 || w.finished || w.gate_held,
        w.time_in_segment + delta <= u32::MAX || dts@.len() < 2 || w.finished || w.gate_held,
        loop_progresses(dts@, loop_range, sustain),
    ensures
        r == advance_spec(w, dts@, loop_range, sustain, delta),
{
    let mut cur = w;
    cur.looped = false;
    if cur.finished || cur.gate_held || dts.len() < 2 {
        return cur;
    }
    cur.time_in_segment = cur.time_in_segment + delta;
    resolve_walk(cur, dts, loop_range, sustain)
}

/// The walk at the start of an envelope: its first segment, outputting its
/// first breakpoint's value.
pub fn start_walk() -> (r: EnvelopeWalk)
    ensures
        r == (EnvelopeWalk { segment: 0, time_in_segment: 0, value_index: Some(0), finished: false, gate_held: false, looped: false }),
{
    EnvelopeWalk { segment: 0, time_in_segment: 0, value_index: Some(0), finished: false, gate_held: false, looped: false }
}

/// An envelope held at its sustain point, or finished, does not move when
/// advanced; only its loop flag is cleared.
pub proof fn lemma_held_or_finished_walk_stays(w: EnvelopeWalk, dts: Seq<u32>, loop_range: Option<(u16, u16)>, sustain: Option<u16>, delta: u32)
    requires
        w.gate_held || w.finished,
    ensures
        advance_spec(w, dts, loop_range, sustain, delta) == (EnvelopeWalk { looped: false, ..w }),
{
}

/// A walk stopped by the sustain point holds there: it is at the sustain
/// breakpoint, outputs its value, and has no time left in the segment.
pub proof fn lemma_sustain_stop(w: EnvelopeWalk, dts: Seq<u32>, loop_range: Option<(u16, u16)>, sustain: Option<u16>)
    requires
        !w.gate_held,
    ensures
        ({
            let s = walk_step(w, dts, loop_range, sustain);
            s.0.gate_held ==> s.1 && sustain == Some(s.0.segment) && s.0.value_index == Some(s.0.segment) && s.0.time_in_segment == 0
        }),
{
}

/// A walk that jumps back at its loop's end lands on the loop's start and
/// outputs its value.
pub proof fn lemma_loop_jumps_to_start(w: EnvelopeWalk, dts: Seq<u32>, s: u16, e: u16, sustain: Option<u16>)
    requires
        !w.looped,
    ensures
        ({
            let r = walk_step(w, dts, Some((s, e)), sustain);
            r.0.looped ==> r.0.segment == s && r.0.value_index == Some(s) && w.segment + 1 >= e
        }),
{
}

} // verus!
