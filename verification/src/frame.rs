//! Integer stereo audio frames.
use vstd::prelude::*;

verus! {

/// `v` clamped into the range of `i16`.
pub open spec fn clamp_i16(v: int) -> i16 {
    if v < -32768 { -32768i16 } else if v > 32767 { 32767i16 } else { v as i16 }
}

fn clamp_to_i16(v: i32) -> (r: i16)
    ensures
        r == clamp_i16(v as int),
{
    if v < -32768 {
        -32768
    } else if v > 32767 {
        32767
    } else {
        v as i16
    }
}

/// A stereo audio frame (16-bit integer).
#[derive(Clone, Copy, Debug, Default, PartialEq, Eq, Structural)]
pub struct Frame {
    pub left: i16,
    pub right: i16,
}

impl Frame {
    /// Create a silent frame.
    pub fn silence() -> (r: Self)
        ensures
            r.left == 0 && r.right == 0,
    {
        Self { left: 0, right: 0 }
    }

    /// Mix another frame into this one, saturating at the `i16` range.
    pub fn mix(&mut self, other: Frame)
        ensures
            final(self).left == clamp_i16(old(self).left + other.left),
            final(self).right == clamp_i16(old(self).right + other.right),
    {
        let left = clamp_to_i16(self.left as i32 + other.left as i32);
        let right = clamp_to_i16(self.right as i32 + other.right as i32);
        self.left = left;
        self.right = right;
    }
}

/// A wide (i32) stereo frame for accumulating several `i16` inputs without
/// premature clamping.
#[derive(Clone, Copy, Debug, Default, PartialEq, Eq, Structural)]
pub struct WideFrame {
    pub left: i32,
    pub right: i32,
}

/// The contribution of one sample value through a wire gain stored as
/// `ratio * 100 - 100` (0 = unity): `value * (gain + 100) / 100`, truncated
/// toward zero.
pub open spec fn gained(value: int, gain: int) -> int {
    if gain == 0 {
        value
    } else {
        let p = value * (gain + 100);
        if p >= 0 { p / 100 } else { -((-p) / 100) }
    }
}

impl WideFrame {
    /// Create a silent wide frame.
    pub fn silence() -> (r: Self)
        ensures
            r.left == 0 && r.right == 0,
    {
        Self { left: 0, right: 0 }
    }

    /// Accumulate a narrow frame without clamping.
    pub fn accumulate(&mut self, frame: Frame)
        requires
            i32::MIN <= old(self).left + frame.left <= i32::MAX,
            i32::MIN <= old(self).right + frame.right <= i32::MAX,
        ensures
            final(self).left == old(self).left + frame.left,
            final(self).right == old(self).right + frame.right,
    {
        self.left = self.left + frame.left as i32;
        self.right = self.right + frame.right as i32;
    }

    /// Accumulate a narrow frame with a wire gain applied.
    pub fn accumulate_with_gain(&mut self, frame: Frame, gain: i16)
        requires
            i32::MIN <= old(self).left + gained(frame.left as int, gain as int) <= i32::MAX,
            i32::MIN <= old(self).right + gained(frame.right as int, gain as int) <= i32::MAX,
        ensures
            final(self).left == old(self).left + gained(frame.left as int, gain as int),
            final(self).right == old(self).right + gained(frame.right as int, gain as int),
    {
        if gain == 0 {
            self.accumulate(frame);
        } else {
            let scale = (gain as i32) + 100;
            let l = frame.left as i32;
            let r = frame.right as i32;
            assert(-1_100_000_000 <= l * scale <= 1_100_000_000) by (nonlinear_arith)
                requires -32768 <= l <= 32767, -32668 <= scale <= 32867;
            assert(-1_100_000_000 <= r * scale <= 1_100_000_000) by (nonlinear_arith)
                requires -32768 <= r <= 32767, -32668 <= scale <= 32867;
            let dl = (l * scale) / 100;
            let dr = (r * scale) / 100;
            self.left = self.left + dl;
            self.right = self.right + dr;
        }
    }

    /// Attenuate by an arithmetic right shift and clamp to an `i16` frame.
    pub fn to_frame(self, shift: u32) -> (r: Frame)
        requires
            shift < 32,
        ensures
            r.left == clamp_i16((self.left >> shift) as int),
            r.right == clamp_i16((self.right >> shift) as int),
    {
        Frame { left: clamp_to_i16(self.left >> shift), right: clamp_to_i16(self.right >> shift) }
    }
}

} // verus!
