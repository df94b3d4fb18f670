//! Reading whole interleaved frames out of the shared audio ring buffer: how
//! many samples can be taken, how the copy splits at the wrap-around, and
//! where the read index ends up. The copy itself is done by the caller.

use vstd::prelude::*;

verus! {

/// What one drain of the ring takes.
pub struct DrainPlan {
    /// Interleaved channels per frame (at least 1).
    pub channels: u32,
    /// Samples to take: the whole frames available (0 means the ring ran dry).
    pub samples: usize,
    /// How many of them lie before the end of the ring; the rest wrap to its
    /// start.
    pub first: usize,
    /// The read index after taking them.
    pub new_read: i32,
}

/// The samples available between the read and the write index of a ring of
/// `capacity` samples.
pub open spec fn available(write: int, read: int, capacity: int) -> int {
    if write - read < 0 { write - read + capacity } else { write - read }
}

/// The channel count in use: a count below 1 counts as 1.
pub open spec fn frame_width(channels: i32) -> int {
    if channels < 1 { 1 } else { channels as int }
}

/// The samples of the whole frames available.
pub open spec fn whole_frames(write: i32, read: i32, channels: i32, capacity: i32) -> int {
    available(write as int, read as int, capacity as int) / frame_width(channels) * frame_width(channels)
}

/// Plans taking every whole frame available from a ring of `capacity`
/// samples with the given write and read indices and channel count (a count
/// below 1 counts as 1): a frame is never split, so a partial trailing frame
/// stays for the next drain.
pub fn drain_plan(write: i32, read: i32, channels: i32, capacity: i32) -> (r: DrainPlan)
    requires
        0 < capacity,
        0 <= read < capacity,
        0 <= write < capacity,
        read + whole_frames(write, read, channels, capacity) <= i32::MAX,
    ensures
        r.channels == frame_width(channels),
        r.samples == whole_frames(write, read, channels, capacity),
        r.first == (if r.samples < capacity - read { r.samples as int } else { capacity - read }),
        r.new_read == (read + r.samples) % (capacity as int),
{
    let ch: i32 = if channels < 1 { 1 } else { channels };
    let mut avail: i32 = write - read;
    if avail < 0 {
        avail = avail + capacity;
    }
    let whole: i32 = avail / ch;
    assert(whole * ch <= avail) by (nonlinear_arith)
        requires
            whole == avail / ch,
            ch >= 1,
            avail >= 0,
    ;
    assert(whole * ch >= 0) by (nonlinear_arith)
        requires
            whole == avail / ch,
            ch >= 1,
            avail >= 0,
    ;
    let n: i32 = whole * ch;
    let first: i32 = if n < capacity - read { n } else { capacity - read };
    let new_read: i32 = (read + n) % capacity;
    DrainPlan { channels: ch as u32, samples: n as usize, first: first as usize, new_read }
}

/// The plan takes no more than is there, splits it correctly, and leaves
/// the read index in range: the samples are a whole number of frames, no
/// more than are available, and the part before the wrap plus the part
/// after it is all of them.
pub proof fn law_drain_within_ring(write: i32, read: i32, channels: i32, capacity: i32, r: DrainPlan)
    requires
        0 < capacity,
        0 <= read < capacity,
        0 <= write < capacity,
        r.channels == frame_width(channels),
        r.samples == whole_frames(write, read, channels, capacity),
        r.first == (if r.samples < capacity - read { r.samples as int } else { capacity - read }),
        r.new_read == (read + r.samples) % (capacity as int),
    ensures
        r.samples <= available(write as int, read as int, capacity as int) < capacity,
        (r.samples as int) % (r.channels as int) == 0,
        r.first <= r.samples,
        r.samples - r.first <= read,
        0 <= r.new_read < capacity,
{
    let a = available(write as int, read as int, capacity as int);
    let c = r.channels as int;
    assert(a / c * c <= a) by (nonlinear_arith)
        requires
            c >= 1,
            a >= 0,
    ;
    assert((a / c * c) % c == 0) by (nonlinear_arith)
        requires
            c >= 1,
    ;
}

} // verus!
