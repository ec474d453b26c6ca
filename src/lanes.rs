//! Brightness computed sixteen bytes at a time: the bytes are widened to signed
//! lanes, the broadcast delta is added lane by lane, and the lanes are narrowed
//! back to bytes with saturation. Bytes past the last full block take the
//! scalar path.
use vstd::prelude::*;
use crate::pixel::{is_alpha, saturate, whole_pixels, PixelError};
use crate::point::shifted;

verus! {

/// Bytes handled per block.
pub const BLOCK: usize = 16;

/// The delta added to lane `lane` of a block: the same for red, green and
/// blue, zero for alpha, since a block starts on a pixel boundary.
pub open spec fn lane_delta(lane: int, delta: int) -> int {
    if lane % 4 == 3 {
        0
    } else {
        delta
    }
}

/// A signed lane narrowed to a byte with saturation.
pub open spec fn narrow_saturating(v: int) -> int {
    if v < u8::MIN {
        u8::MIN as int
    } else if v > u8::MAX {
        u8::MAX as int
    } else {
        v
    }
}

/// Where the full blocks of a buffer of length `len` end.
pub open spec fn blocks_end(len: nat) -> int {
    len - len % 16
}

/// The buffer after `brightness_simd(s, delta)`: full blocks through the lane
/// pipeline, the rest through the scalar rule.
pub open spec fn lanes_brightened(s: Seq<u8>, delta: int) -> Seq<u8> {
    Seq::new(
        s.len(),
        |i: int|
            if i < blocks_end(s.len()) {
                narrow_saturating(s[i] + lane_delta(i % 16, delta)) as u8
            } else if is_alpha(i) {
                s[i]
            } else {
                shifted(s[i], delta)
            },
    )
}

/// The sixteen bytes from `start`, widened to signed lanes.
fn widen_block(pixels: &[u8], start: usize) -> (lanes: Vec<i32>)
    requires
        start + 16 <= pixels@.len(),
    ensures
        lanes@.len() == 16,
        forall|j: int| 0 <= j < 16 ==> lanes@[j] == pixels@[start + j] as i32,
{
    let n = pixels.len();
    let mut lanes: Vec<i32> = Vec::new();
    let mut j: usize = 0;
    while j < BLOCK
        invariant
            start + 16 <= pixels@.len(),
            n == pixels@.len(),
            j <= 16,
            lanes@.len() == j,
            forall|k: int| 0 <= k < j ==> lanes@[k] == pixels@[start + k] as i32,
        decreases 16 - j,
    {
        lanes.push(pixels[start + j] as i32);
        j = j + 1;
    }
    lanes
}

/// The delta `value` broadcast to sixteen lanes, alpha lanes left at zero.
fn broadcast_delta(value: i16) -> (lanes: Vec<i32>)
    ensures
        lanes@.len() == 16,
        forall|j: int| 0 <= j < 16 ==> lanes@[j] == lane_delta(j, value as int),
{
    let mut lanes: Vec<i32> = Vec::new();
    let mut j: usize = 0;
    while j < BLOCK
        invariant
            j <= 16,
            lanes@.len() == j,
            forall|k: int| 0 <= k < j ==> lanes@[k] == lane_delta(k, value as int),
        decreases 16 - j,
    {
        if j % 4 == 3 {
            lanes.push(0);
        } else {
            lanes.push(value as i32);
        }
        j = j + 1;
    }
    lanes
}

/// Lane-wise sum of widened bytes and a broadcast delta.
fn add_lanes(a: &mut Vec<i32>, b: &Vec<i32>)
    requires
        old(a)@.len() == 16,
        b@.len() == 16,
        forall|j: int| 0 <= j < 16 ==> 0 <= #[trigger] old(a)@[j] <= 255,
        forall|j: int| 0 <= j < 16 ==> i16::MIN <= #[trigger] b@[j] <= i16::MAX,
    ensures
        final(a)@.len() == 16,
        forall|j: int| 0 <= j < 16 ==> final(a)@[j] == old(a)@[j] + b@[j],
{
    let ghost a0 = a@;
    let mut j: usize = 0;
    while j < BLOCK
        invariant
            a@.len() == 16,
            b@.len() == 16,
            j <= 16,
            forall|k: int| 0 <= k < 16 ==> 0 <= #[trigger] a0[k] <= 255,
            forall|k: int| 0 <= k < 16 ==> i16::MIN <= #[trigger] b@[k] <= i16::MAX,
            forall|k: int| 0 <= k < j ==> a@[k] == a0[k] + b@[k],
            forall|k: int| j <= k < 16 ==> a@[k] == a0[k],
        decreases 16 - j,
    {
        assert(a@[j as int] == a0[j as int]);
        assert(0 <= a0[j as int] <= 255);
        assert(i16::MIN <= b@[j as int] <= i16::MAX);
        let sum = a[j] + b[j];
        a.set(j, sum);
        j = j + 1;
    }
}

/// The lanes narrowed with saturation and stored at `start`.
fn narrow_store(lanes: &Vec<i32>, pixels: &mut [u8], start: usize)
    requires
        lanes@.len() == 16,
        start + 16 <= old(pixels)@.len(),
    ensures
        final(pixels)@.len() == old(pixels)@.len(),
        forall|j: int|
            0 <= j < final(pixels)@.len() ==> #[trigger] final(pixels)@[j] == if start <= j < start + 16 {
                narrow_saturating(lanes@[j - start] as int) as u8
            } else {
                old(pixels)@[j]
            },
{
    let ghost p0 = pixels@;
    let n = pixels.len();
    let mut j: usize = 0;
    while j < BLOCK
        invariant
            lanes@.len() == 16,
            start + 16 <= p0.len(),
            n == p0.len(),
            pixels@.len() == p0.len(),
            j <= 16,
            forall|k: int|
                0 <= k < p0.len() ==> #[trigger] pixels@[k] == if start <= k < start + j {
                    narrow_saturating(lanes@[k - start] as int) as u8
                } else {
                    p0[k]
                },
        decreases 16 - j,
    {
        pixels[start + j] = saturate(lanes[j] as i64);
        j = j + 1;
    }
}

/// Brightness over whole blocks of lanes, with a scalar pass over the bytes
/// after the last full block. Its output matches `brightness` byte for byte,
/// alpha included; a buffer of partial pixels is refused whole.
pub fn brightness_simd(pixels: &mut [u8], value: i16) -> (r: Result<(), PixelError>)
    ensures
        match r {
            Ok(()) => whole_pixels(old(pixels)@.len()) && final(pixels)@ == lanes_brightened(
                old(pixels)@,
                value as int,
            ),
            Err(e) => !whole_pixels(old(pixels)@.len()) && e == PixelError::InvalidBufferLength
                && final(pixels)@ == old(pixels)@,
        },
{
    let len = pixels.len();
    if len % 4 != 0 {
        return Err(PixelError::InvalidBufferLength);
    }
    let ghost s = pixels@;
    let ghost target = lanes_brightened(s, value as int);
    let delta = broadcast_delta(value);
    let mut i: usize = 0;
    while len - i >= BLOCK
        invariant
            len == s.len(),
            pixels@.len() == len,
            target == lanes_brightened(s, value as int),
            delta@.len() == 16,
            forall|j: int| 0 <= j < 16 ==> delta@[j] == lane_delta(j, value as int),
            i % 16 == 0,
            i <= len,
            forall|j: int| 0 <= j < i ==> pixels@[j] == #[trigger] target[j],
            forall|j: int| i <= j < len ==> pixels@[j] == s[j],
        decreases len - i,
    {
        let mut wide = widen_block(pixels, i);
        assert forall|j: int| 0 <= j < 16 implies i16::MIN <= #[trigger] delta@[j] <= i16::MAX by {
            assert(delta@[j] == lane_delta(j, value as int));
        }
        assert forall|j: int| 0 <= j < 16 implies 0 <= #[trigger] wide@[j] <= 255 by {
            assert(wide@[j] == pixels@[i + j] as i32);
        }
        add_lanes(&mut wide, &delta);
        narrow_store(&wide, pixels, i);
        proof {
            assert forall|j: int| 0 <= j < i + 16 implies pixels@[j] == #[trigger] target[j] by {
                if j >= i {
                    assert((j - i) == j % 16);
                }
            }
        }
        i = i + BLOCK;
    }
    assert(i == blocks_end(len as nat));
    while i < len
        invariant
            len == s.len(),
            pixels@.len() == len,
            target == lanes_brightened(s, value as int),
            blocks_end(len as nat) <= i <= len,
            forall|j: int| 0 <= j < i ==> pixels@[j] == #[trigger] target[j],
            forall|j: int| i <= j < len ==> pixels@[j] == s[j],
        decreases len - i,
    {
        if i % 4 != 3 {
            let b = pixels[i];
            pixels[i] = saturate(b as i64 + value as i64);
        }
        i = i + 1;
    }
    proof {
        assert(pixels@ =~= target);
    }
    Ok(())
}

} // verus!
