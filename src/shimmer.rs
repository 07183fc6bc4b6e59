use vstd::prelude::*;

verus! {

/// Frames in one cycle of the shimmer that each point's size and offset follow.
pub const CYCLE_FRAMES: u32 = 256;

/// The constant whose remainders give each point its own shimmer offset.
pub const SEED: u64 = 123454321;

/// Where frame `time` falls in the shimmer cycle.
pub fn cycle_slot(time: u32) -> (r: u32)
    ensures
        r == time % CYCLE_FRAMES,
        r < CYCLE_FRAMES,
{
    assert(time & 255 == time % 256) by (bit_vector);
    time & 255
}

/// The whole-radian shimmer offset of point `i` of a shape: `SEED` modulo
/// `i * i + 1`.
pub fn point_offset(i: usize) -> (r: u64)
    requires
        i < 0x1_0000_0000,
    ensures
        r == SEED % ((i * i + 1) as u64),
        r <= i * i,
{
    let w = i as u64;
    assert(w * w <= 0xFFFF_FFFE_0000_0001) by (nonlinear_arith)
        requires
            w <= 0xFFFF_FFFF,
    ;
    SEED % (w * w + 1)
}

} // verus!
