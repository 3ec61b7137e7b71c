//! Sample data of an Impulse Tracker file: uncompressed PCM, and the IT 2.14 /
//! IT 2.15 compressed formats.
//!
//! Compressed samples are stored in blocks, each preceded by a 16-bit
//! little-endian count of the compressed bytes that follow. Inside a block the
//! bits are read least-significant first; each value has a current bit width
//! that escape codes change. 8-bit samples use blocks of 0x8000 samples,
//! 16-bit samples blocks of 0x4000. IT 2.14 outputs the running sum of the
//! deltas, IT 2.15 the running sum of that sum.

use crate::error::ItError;
use crate::reader::le16;
use vstd::prelude::*;

verus! {

/// Bit `p` of `buf`, counting from the least significant bit of byte 0.
pub open spec fn bit_at(buf: Seq<u8>, p: int) -> u32 {
    ((buf[p / 8] as u32) >> ((p % 8) as u32)) & 1
}

/// The `n` bits of `buf` starting at bit `p`, the first one least significant.
pub open spec fn bits_le(buf: Seq<u8>, p: int, n: nat) -> u32
    decreases n,
{
    if n == 0 {
        0
    } else {
        bits_le(buf, p, (n - 1) as nat) | (bit_at(buf, p + n - 1) << ((n - 1) as u32))
    }
}


/// Sign extension of the low `width` bits of `v` to a signed byte; from 8 bits on,
/// the low byte as it stands.
pub open spec fn sign_extend8(v: u32, width: u32) -> i8 {
    if width < 8 && v & (1u32 << ((width - 1) as u32)) != 0 {
        (v | (0xffu32 << width)) as i8
    } else {
        v as i8
    }
}

/// Values of a width-7 or width-8 field above this border, up to 8 more, are width changes.
pub open spec fn border8(width: u32) -> int {
    (0xffu32 >> ((9 - width) as u32)) - 4
}

/// The width that a width-change code `nb` selects while the current width is `width`.
pub open spec fn next_width(nb: int, width: u32) -> u32 {
    (if nb < width { nb } else { nb + 1 }) as u32
}

/// Decoding of one 8-bit block from bit `p` on, with the current `width`, the two
/// running sums `d1`, `d2`, and `left` samples still owed to the block.
/// The flag is set when the data reaches a width of zero, on which decoding cannot go on.
pub open spec fn block8(buf: Seq<u8>, p: int, width: u32, d1: i8, d2: i8, left: nat, it215: bool) -> (Seq<i16>, bool)
    decreases 8 * buf.len() - p,
{
    if left == 0 || width > 9 {
        (seq![], false)
    } else if width == 0 {
        (seq![], true)
    } else if p + width > 8 * buf.len() {
        (seq![], false)
    } else {
        let v = bits_le(buf, p, width as nat);
        let p1 = p + width;
        if width < 7 && v == (1u32 << ((width - 1) as u32)) {
            if p1 + 3 > 8 * buf.len() {
                (seq![], false)
            } else {
                let nb = bits_le(buf, p1, 3) + 1;
                block8(buf, p1 + 3, next_width(nb, width), d1, d2, left, it215)
            }
        } else if 7 <= width < 9 && border8(width) < v <= border8(width) + 8 {
            block8(buf, p1, next_width(v - border8(width), width), d1, d2, left, it215)
        } else if width == 9 && v & 0x100 != 0 {
            block8(buf, p1, ((v + 1) % 256) as u32, d1, d2, left, it215)
        } else {
            let e1 = d1.wrapping_add(sign_extend8(v, width));
            let e2 = d2.wrapping_add(e1);
            let s = if it215 { e2 } else { e1 };
            let rest = block8(buf, p1, width, e1, e2, (left - 1) as nat, it215);
            (seq![(s * 256) as i16] + rest.0, rest.1)
        }
    }
}

/// Decoding of an 8-bit channel of `left` samples whose next block header is at byte `bo`:
/// the samples, the byte offset after the last block read, and whether decoding reached a width of zero.
pub open spec fn channel8(buf: Seq<u8>, bo: int, left: nat, it215: bool) -> (Seq<i16>, int, bool)
    decreases left,
{
    if left == 0 || bo + 2 >= buf.len() {
        (seq![], bo, false)
    } else {
        let blk: nat = if left < 0x8000 { left } else { 0x8000 };
        let next = bo + le16(buf, bo) + 2;
        let b = block8(buf, (bo + 2) * 8, 9, 0, 0, blk, it215);
        if b.1 {
            (b.0, next, true)
        } else {
            let rest = channel8(buf, next, (left - blk) as nat, it215);
            (b.0 + rest.0, rest.1, rest.2)
        }
    }
}

proof fn lemma_bits_le_bound(buf: Seq<u8>, p: int, n: nat)
    requires
        n <= 31,
    ensures
        bits_le(buf, p, n) < (1u32 << (n as u32)),
    decreases n,
{
    if n > 0 {
        lemma_bits_le_bound(buf, p, (n - 1) as nat);
        let x = bits_le(buf, p, (n - 1) as nat);
        let b = bit_at(buf, p + n - 1);
        let m = (n - 1) as u32;
        let byte = buf[(p + n - 1) / 8] as u32;
        let sh = ((p + n - 1) % 8) as u32;
        assert(b <= 1) by (bit_vector)
            requires b == (byte >> sh) & 1;
        assert(x | (b << m) < (1u32 << ((m + 1) as u32))) by (bit_vector)
            requires x < (1u32 << m), b <= 1, m < 31;
        assert((m + 1) as u32 == n as u32);
    } else {
        assert(0u32 < (1u32 << 0u32)) by (bit_vector);
    }
}

proof fn lemma_block8_len(buf: Seq<u8>, p: int, width: u32, d1: i8, d2: i8, left: nat, it215: bool)
    ensures
        block8(buf, p, width, d1, d2, left, it215).0.len() <= left,
    decreases 8 * buf.len() - p,
{
    if left == 0 || width > 9 || width == 0 || p + width > 8 * buf.len() {
    } else {
        let v = bits_le(buf, p, width as nat);
        let p1 = p + width;
        if width < 7 && v == (1u32 << ((width - 1) as u32)) {
            if p1 + 3 <= 8 * buf.len() {
                let nb = bits_le(buf, p1, 3) + 1;
                lemma_block8_len(buf, p1 + 3, next_width(nb, width), d1, d2, left, it215);
            }
        } else if 7 <= width < 9 && border8(width) < v <= border8(width) + 8 {
            lemma_block8_len(buf, p1, next_width(v - border8(width), width), d1, d2, left, it215);
        } else if width == 9 && v & 0x100 != 0 {
            lemma_block8_len(buf, p1, ((v + 1) % 256) as u32, d1, d2, left, it215);
        } else {
            let e1 = d1.wrapping_add(sign_extend8(v, width));
            let e2 = d2.wrapping_add(e1);
            lemma_block8_len(buf, p1, width, e1, e2, (left - 1) as nat, it215);
        }
    }
}

proof fn lemma_channel8_len(buf: Seq<u8>, bo: int, left: nat, it215: bool)
    ensures
        channel8(buf, bo, left, it215).0.len() <= left,
    decreases left,
{
    if left == 0 || bo + 2 >= buf.len() {
    } else {
        let blk: nat = if left < 0x8000 { left } else { 0x8000 };
        let next = bo + le16(buf, bo) + 2;
        lemma_block8_len(buf, (bo + 2) * 8, 9, 0, 0, blk, it215);
        lemma_channel8_len(buf, next, (left - blk) as nat, it215);
    }
}

/// Sign extension of the low `width` bits of `v` to a signed 16-bit value; from 16 bits
/// on, the low 16 bits as they stand.
pub open spec fn sign_extend16(v: u32, width: u32) -> i16 {
    if width < 16 && v & (1u32 << ((width - 1) as u32)) != 0 {
        (v | (0xffffu32 << width)) as i16
    } else {
        v as i16
    }
}

/// Values of a width-7 to width-16 field above this border, up to 16 more, are width changes.
pub open spec fn border16(width: u32) -> int {
    (0xffffu32 >> ((17 - width) as u32)) - 8
}

/// Decoding of one 16-bit block; as `block8`, with widths up to 17 and 4-bit width codes.
pub open spec fn block16(buf: Seq<u8>, p: int, width: u32, d1: i16, d2: i16, left: nat, it215: bool) -> (Seq<i16>, bool)
    decreases 8 * buf.len() - p,
{
    if left == 0 || width > 17 {
        (seq![], false)
    } else if width == 0 {
        (seq![], true)
    } else if p + width > 8 * buf.len() {
        (seq![], false)
    } else {
        let v = bits_le(buf, p, width as nat);
        let p1 = p + width;
        if width < 7 && v == (1u32 << ((width - 1) as u32)) {
            if p1 + 4 > 8 * buf.len() {
                (seq![], false)
            } else {
                let nb = bits_le(buf, p1, 4) + 1;
                block16(buf, p1 + 4, next_width(nb, width), d1, d2, left, it215)
            }
        } else if 7 <= width < 17 && border16(width) < v <= border16(width) + 16 {
            block16(buf, p1, next_width(v - border16(width), width), d1, d2, left, it215)
        } else if width == 17 && v & 0x10000 != 0 {
            block16(buf, p1, ((v + 1) % 256) as u32, d1, d2, left, it215)
        } else {
            let e1 = d1.wrapping_add(sign_extend16(v, width));
            let e2 = d2.wrapping_add(e1);
            let rest = block16(buf, p1, width, e1, e2, (left - 1) as nat, it215);
            (seq![if it215 { e2 } else { e1 }] + rest.0, rest.1)
        }
    }
}

/// Decoding of a 16-bit channel; as `channel8`, with blocks of 0x4000 samples.
pub open spec fn channel16(buf: Seq<u8>, bo: int, left: nat, it215: bool) -> (Seq<i16>, int, bool)
    decreases left,
{
    if left == 0 || bo + 2 >= buf.len() {
        (seq![], bo, false)
    } else {
        let blk: nat = if left < 0x4000 { left } else { 0x4000 };
        let next = bo + le16(buf, bo) + 2;
        let b = block16(buf, (bo + 2) * 8, 17, 0, 0, blk, it215);
        if b.1 {
            (b.0, next, true)
        } else {
            let rest = channel16(buf, next, (left - blk) as nat, it215);
            (b.0 + rest.0, rest.1, rest.2)
        }
    }
}

proof fn lemma_block16_len(buf: Seq<u8>, p: int, width: u32, d1: i16, d2: i16, left: nat, it215: bool)
    ensures
        block16(buf, p, width, d1, d2, left, it215).0.len() <= left,
    decreases 8 * buf.len() - p,
{
    if left == 0 || width > 17 || width == 0 || p + width > 8 * buf.len() {
    } else {
        let v = bits_le(buf, p, width as nat);
        let p1 = p + width;
        if width < 7 && v == (1u32 << ((width - 1) as u32)) {
            if p1 + 4 <= 8 * buf.len() {
                let nb = bits_le(buf, p1, 4) + 1;
                lemma_block16_len(buf, p1 + 4, next_width(nb, width), d1, d2, left, it215);
            }
        } else if 7 <= width < 17 && border16(width) < v <= border16(width) + 16 {
            lemma_block16_len(buf, p1, next_width(v - border16(width), width), d1, d2, left, it215);
        } else if width == 17 && v & 0x10000 != 0 {
            lemma_block16_len(buf, p1, ((v + 1) % 256) as u32, d1, d2, left, it215);
        } else {
            let e1 = d1.wrapping_add(sign_extend16(v, width));
            let e2 = d2.wrapping_add(e1);
            lemma_block16_len(buf, p1, width, e1, e2, (left - 1) as nat, it215);
        }
    }
}

proof fn lemma_channel16_len(buf: Seq<u8>, bo: int, left: nat, it215: bool)
    ensures
        channel16(buf, bo, left, it215).0.len() <= left,
    decreases left,
{
    if left == 0 || bo + 2 >= buf.len() {
    } else {
        let blk: nat = if left < 0x4000 { left } else { 0x4000 };
        let next = bo + le16(buf, bo) + 2;
        lemma_block16_len(buf, (bo + 2) * 8, 17, 0, 0, blk, it215);
        lemma_channel16_len(buf, next, (left - blk) as nat, it215);
    }
}

/// At width 7 the values 60..=67, and at width 8 the values 124..=131, are width-change codes:
/// such a value `v` outputs no sample and switches to width `nb`, or `nb + 1` from the current
/// width on, with `nb` = `v` − 59 (width 7) or `v` − 123 (width 8). Any other value is one
/// sample: its delta is added to the running sums and the width stays.
pub proof fn lemma_block8_width_codes(buf: Seq<u8>, p: int, width: u32, d1: i8, d2: i8, left: nat, it215: bool)
    requires
        width == 7 || width == 8,
        left > 0,
        p + width <= 8 * buf.len(),
    ensures
        ({
            let v = bits_le(buf, p, width as nat) as int;
            let lo: int = if width == 7 { 60 } else { 124 };
            let nb = v - lo + 1;
            &&& lo <= v <= lo + 7 ==> block8(buf, p, width, d1, d2, left, it215) == block8(
                buf,
                p + width,
                (if nb < width { nb } else { nb + 1 }) as u32,
                d1,
                d2,
                left,
                it215,
            )
            &&& !(lo <= v <= lo + 7) ==> {
                let e1 = d1.wrapping_add(sign_extend8(v as u32, width));
                let e2 = d2.wrapping_add(e1);
                let rest = block8(buf, p + width, width, e1, e2, (left - 1) as nat, it215);
                block8(buf, p, width, d1, d2, left, it215) == (
                    seq![((if it215 { e2 } else { e1 }) * 256) as i16] + rest.0,
                    rest.1,
                )
            }
        }),
{
    assert((0xffu32 >> 2u32) == 63u32) by (bit_vector);
    assert((0xffu32 >> 1u32) == 127u32) by (bit_vector);
    let v = bits_le(buf, p, width as nat);
    if width == 7 {
        assert(border8(width) == 59);
        assert((1u32 << 6u32) == 64u32) by (bit_vector);
    } else {
        assert(border8(width) == 123);
        assert((1u32 << 7u32) == 128u32) by (bit_vector);
    }
}

/// At a width `w` of 7 to 16, the 16 values from 2^(w−1) − 8 to 2^(w−1) + 7 are width-change
/// codes: such a value `v` outputs no sample and switches to width `nb`, or `nb + 1` from the
/// current width on, with `nb` = `v` − (2^(w−1) − 9).
pub proof fn lemma_block16_width_codes(buf: Seq<u8>, p: int, width: u32, d1: i16, d2: i16, left: nat, it215: bool)
    requires
        7 <= width <= 16,
        left > 0,
        p + width <= 8 * buf.len(),
    ensures
        ({
            let v = bits_le(buf, p, width as nat) as int;
            let half = (1u32 << ((width - 1) as u32)) as int;
            let nb = v - (half - 9);
            half - 8 <= v <= half + 7 ==> block16(buf, p, width, d1, d2, left, it215) == block16(
                buf,
                p + width,
                (if nb < width { nb } else { nb + 1 }) as u32,
                d1,
                d2,
                left,
                it215,
            )
        }),
{
    let w1 = (width - 1) as u32;
    let sh = (17 - width) as u32;
    assert((0xffffu32 >> sh) == (1u32 << w1) - 1 && (1u32 << w1) >= 64) by (bit_vector)
        requires
            7 <= width <= 16,
            w1 == width - 1,
            sh == 17 - width,
    ;
}

/// Below width 7, the single value 2^(w−1) is a width-change code: the next 3 bits (8-bit
/// samples) plus 1 give `nb`, and the width becomes `nb`, or `nb + 1` from the current width on.
/// At width 9, a value with bit 8 set switches to the width given by its low 8 bits plus 1.
/// Neither outputs a sample.
pub proof fn lemma_block8_escape_codes(buf: Seq<u8>, p: int, width: u32, d1: i8, d2: i8, left: nat, it215: bool)
    requires
        1 <= width <= 9,
        left > 0,
        p + width <= 8 * buf.len(),
    ensures
        ({
            let v = bits_le(buf, p, width as nat);
            &&& width < 7 && v == (1u32 << ((width - 1) as u32)) && p + width + 3 <= 8 * buf.len()
                ==> {
                let nb = bits_le(buf, p + width, 3) + 1;
                block8(buf, p, width, d1, d2, left, it215) == block8(
                    buf,
                    p + width + 3,
                    (if nb < width { nb } else { nb + 1 }) as u32,
                    d1,
                    d2,
                    left,
                    it215,
                )
            }
            &&& width == 9 && v >= 256 ==> block8(buf, p, width, d1, d2, left, it215) == block8(
                buf,
                p + 9,
                ((v + 1) % 256) as u32,
                d1,
                d2,
                left,
                it215,
            )
        }),
{
    let v = bits_le(buf, p, width as nat);
    if width == 9 {
        lemma_bits_le_bound(buf, p, 9);
        assert((1u32 << 9u32) == 512u32) by (bit_vector);
        assert(v < 512 ==> (v >= 256 <==> v & 0x100 != 0)) by (bit_vector);
    }
}

/// Below width 7, the single value 2^(w−1) is a width-change code: the next 4 bits plus 1
/// give `nb`. At width 17, a value with bit 16 set switches to the width given by its low
/// 8 bits plus 1. Neither outputs a sample.
pub proof fn lemma_block16_escape_codes(buf: Seq<u8>, p: int, width: u32, d1: i16, d2: i16, left: nat, it215: bool)
    requires
        1 <= width <= 17,
        left > 0,
        p + width <= 8 * buf.len(),
    ensures
        ({
            let v = bits_le(buf, p, width as nat);
            &&& width < 7 && v == (1u32 << ((width - 1) as u32)) && p + width + 4 <= 8 * buf.len()
                ==> {
                let nb = bits_le(buf, p + width, 4) + 1;
                block16(buf, p, width, d1, d2, left, it215) == block16(
                    buf,
                    p + width + 4,
                    (if nb < width { nb } else { nb + 1 }) as u32,
                    d1,
                    d2,
                    left,
                    it215,
                )
            }
            &&& width == 17 && v >= 0x10000 ==> block16(buf, p, width, d1, d2, left, it215) == block16(
                buf,
                p + 17,
                ((v + 1) % 256) as u32,
                d1,
                d2,
                left,
                it215,
            )
        }),
{
    let v = bits_le(buf, p, width as nat);
    if width == 17 {
        lemma_bits_le_bound(buf, p, 17);
        assert((1u32 << 17u32) == 0x20000u32) by (bit_vector);
        assert(v < 0x20000 ==> (v >= 0x10000 <==> v & 0x10000 != 0)) by (bit_vector);
    }
}

/// A compressed 16-bit channel is read block by block, each block holding at most 0x4000
/// samples: the channel's first `min(left, 0x4000)` samples at most are decoded from the
/// first block, which starts at width 17 with both running sums 0 right after its 2-byte
/// size; unless that block reaches a width of zero, the rest of the channel is decoded
/// afresh from the next size header, the first one's size past it.
pub proof fn lemma_channel16_blocks(buf: Seq<u8>, bo: int, left: nat, it215: bool)
    requires
        left > 0,
        bo + 2 < buf.len(),
    ensures
        ({
            let n: nat = if left < 0x4000 { left } else { 0x4000 };
            let first = block16(buf, (bo + 2) * 8, 17, 0, 0, n, it215);
            let rest = channel16(buf, bo + (buf[bo] + 256 * buf[bo + 1]) + 2, (left - n) as nat, it215);
            let ch = channel16(buf, bo, left, it215);
            &&& first.0.len() <= 0x4000
            &&& first.0.len() <= left
            &&& first.1 ==> ch.0 == first.0 && ch.2
            &&& !first.1 ==> ch.0 == first.0 + rest.0 && ch.2 == rest.2
        }),
{
    let n: nat = if left < 0x4000 { left } else { 0x4000 };
    lemma_block16_len(buf, (bo + 2) * 8, 17, 0, 0, n, it215);
}

/// A compressed 8-bit channel is read block by block, each block holding at most 0x8000
/// samples; as `lemma_channel16_blocks`, with blocks starting at width 9.
pub proof fn lemma_channel8_blocks(buf: Seq<u8>, bo: int, left: nat, it215: bool)
    requires
        left > 0,
        bo + 2 < buf.len(),
    ensures
        ({
            let n: nat = if left < 0x8000 { left } else { 0x8000 };
            let first = block8(buf, (bo + 2) * 8, 9, 0, 0, n, it215);
            let rest = channel8(buf, bo + (buf[bo] + 256 * buf[bo + 1]) + 2, (left - n) as nat, it215);
            let ch = channel8(buf, bo, left, it215);
            &&& first.0.len() <= 0x8000
            &&& first.0.len() <= left
            &&& first.1 ==> ch.0 == first.0 && ch.2
            &&& !first.1 ==> ch.0 == first.0 + rest.0 && ch.2 == rest.2
        }),
{
    let n: nat = if left < 0x8000 { left } else { 0x8000 };
    lemma_block8_len(buf, (bo + 2) * 8, 9, 0, 0, n, it215);
}

/// Two channels of equal length interleaved: left 0, right 0, left 1, right 1, ...
pub open spec fn interleave(l: Seq<i16>, r: Seq<i16>) -> Seq<i16> {
    Seq::new(2 * l.len(), |i: int| if i % 2 == 0 { l[i / 2] } else { r[i / 2] })
}

/// A compressed 8-bit sample of `length` frames whose data starts at byte `ptr`; a stereo
/// sample stores its right channel right after the blocks of the left one. `None` where
/// the data cannot be decoded to the end: it starts past the file, reaches a width of zero,
/// puts the right channel past the file, or leaves a stereo channel short.
pub open spec fn compressed8(data: Seq<u8>, ptr: int, length: nat, stereo: bool, it215: bool) -> Option<Seq<i16>> {
    if ptr > data.len() {
        None
    } else {
        let buf = data.subrange(ptr, data.len() as int);
        let l = channel8(buf, 0, length, it215);
        if l.2 {
            None
        } else if !stereo {
            Some(l.0)
        } else if l.1 > buf.len() {
            None
        } else {
            let r = channel8(buf.subrange(l.1, buf.len() as int), 0, length, it215);
            if r.2 || l.0.len() < length || r.0.len() < length {
                None
            } else {
                Some(interleave(l.0, r.0))
            }
        }
    }
}

/// A compressed 16-bit sample; as `compressed8`.
pub open spec fn compressed16(data: Seq<u8>, ptr: int, length: nat, stereo: bool, it215: bool) -> Option<Seq<i16>> {
    if ptr > data.len() {
        None
    } else {
        let buf = data.subrange(ptr, data.len() as int);
        let l = channel16(buf, 0, length, it215);
        if l.2 {
            None
        } else if !stereo {
            Some(l.0)
        } else if l.1 > buf.len() {
            None
        } else {
            let r = channel16(buf.subrange(l.1, buf.len() as int), 0, length, it215);
            if r.2 || l.0.len() < length || r.0.len() < length {
                None
            } else {
                Some(interleave(l.0, r.0))
            }
        }
    }
}

/// Every sample is a multiple of 256: an 8-bit value scaled to 16 bits.
pub open spec fn scaled_from_8bit(v: Seq<i16>) -> bool {
    forall|i: int| 0 <= i < v.len() ==> #[trigger] v[i] % 256 == 0
}

proof fn lemma_block8_scaled(buf: Seq<u8>, p: int, width: u32, d1: i8, d2: i8, left: nat, it215: bool)
    ensures
        scaled_from_8bit(block8(buf, p, width, d1, d2, left, it215).0),
    decreases 8 * buf.len() - p,
{
    if left == 0 || width > 9 || width == 0 || p + width > 8 * buf.len() {
    } else {
        let v = bits_le(buf, p, width as nat);
        let p1 = p + width;
        if width < 7 && v == (1u32 << ((width - 1) as u32)) {
            if p1 + 3 <= 8 * buf.len() {
                let nb = bits_le(buf, p1, 3) + 1;
                lemma_block8_scaled(buf, p1 + 3, next_width(nb, width), d1, d2, left, it215);
            }
        } else if 7 <= width < 9 && border8(width) < v <= border8(width) + 8 {
            lemma_block8_scaled(buf, p1, next_width(v - border8(width), width), d1, d2, left, it215);
        } else if width == 9 && v & 0x100 != 0 {
            lemma_block8_scaled(buf, p1, ((v + 1) % 256) as u32, d1, d2, left, it215);
        } else {
            let e1 = d1.wrapping_add(sign_extend8(v, width));
            let e2 = d2.wrapping_add(e1);
            let s = if it215 { e2 } else { e1 };
            lemma_block8_scaled(buf, p1, width, e1, e2, (left - 1) as nat, it215);
            let rest = block8(buf, p1, width, e1, e2, (left - 1) as nat, it215);
            let x = (s * 256) as i16;
            assert(x == s * 256);
            assert(x % 256 == 0);
            let out = seq![x] + rest.0;
            assert forall|i: int| 0 <= i < out.len() implies #[trigger] out[i] % 256 == 0 by {
                if i > 0 {
                    assert(out[i] == rest.0[i - 1]);
                }
            }
        }
    }
}

proof fn lemma_channel8_scaled(buf: Seq<u8>, bo: int, left: nat, it215: bool)
    ensures
        scaled_from_8bit(channel8(buf, bo, left, it215).0),
    decreases left,
{
    if left == 0 || bo + 2 >= buf.len() {
    } else {
        let blk: nat = if left < 0x8000 { left } else { 0x8000 };
        let next = bo + le16(buf, bo) + 2;
        lemma_block8_scaled(buf, (bo + 2) * 8, 9, 0, 0, blk, it215);
        lemma_channel8_scaled(buf, next, (left - blk) as nat, it215);
        let b = block8(buf, (bo + 2) * 8, 9, 0, 0, blk, it215);
        let rest = channel8(buf, next, (left - blk) as nat, it215);
        let out = b.0 + rest.0;
        assert forall|i: int| 0 <= i < out.len() implies #[trigger] out[i] % 256 == 0 by {
            if i < b.0.len() {
                assert(out[i] == b.0[i]);
            } else {
                assert(out[i] == rest.0[i - b.0.len()]);
            }
        }
    }
}

/// Every sample that a compressed 8-bit sample decodes to is a multiple of 256.
pub proof fn lemma_compressed8_scaled(data: Seq<u8>, ptr: int, length: nat, stereo: bool, it215: bool)
    ensures
        compressed8(data, ptr, length, stereo, it215) matches Some(v) ==> scaled_from_8bit(v),
{
    if ptr <= data.len() {
        let buf = data.subrange(ptr, data.len() as int);
        let l = channel8(buf, 0, length, it215);
        lemma_channel8_scaled(buf, 0, length, it215);
        if stereo && l.1 <= buf.len() {
            let r = channel8(buf.subrange(l.1, buf.len() as int), 0, length, it215);
            lemma_channel8_scaled(buf.subrange(l.1, buf.len() as int), 0, length, it215);
            if l.0.len() >= length && r.0.len() >= length {
                lemma_channel8_len(buf, 0, length, it215);
                let v = interleave(l.0, r.0);
                assert(v.len() == 2 * l.0.len());
                assert forall|i: int| 0 <= i < v.len() implies #[trigger] v[i] % 256 == 0 by {
                    if i % 2 == 0 {
                        assert(v[i] == l.0[i / 2]);
                    } else {
                        assert(v[i] == r.0[i / 2]);
                    }
                }
            }
        }
    }
}

/// A compressed sample of `length` frames decodes to at most `length` samples in mono, and
/// to exactly `2 * length` interleaved samples in stereo.
pub proof fn lemma_compressed_len(data: Seq<u8>, ptr: int, length: nat, stereo: bool, it215: bool)
    ensures
        compressed8(data, ptr, length, stereo, it215) matches Some(v) ==> if stereo {
            v.len() == 2 * length
        } else {
            v.len() <= length
        },
        compressed16(data, ptr, length, stereo, it215) matches Some(v) ==> if stereo {
            v.len() == 2 * length
        } else {
            v.len() <= length
        },
{
    if ptr <= data.len() {
        let buf = data.subrange(ptr, data.len() as int);
        lemma_channel8_len(buf, 0, length, it215);
        lemma_channel16_len(buf, 0, length, it215);
        let l8 = channel8(buf, 0, length, it215);
        let l16 = channel16(buf, 0, length, it215);
        if l8.1 <= buf.len() {
            lemma_channel8_len(buf.subrange(l8.1, buf.len() as int), 0, length, it215);
        }
        if l16.1 <= buf.len() {
            lemma_channel16_len(buf.subrange(l16.1, buf.len() as int), 0, length, it215);
        }
    }
}

/// An uncompressed sample of `length` frames at byte `ptr`: 16-bit samples are signed
/// little-endian, 8-bit samples unsigned and scaled to 16 bits; stereo frames are interleaved.
pub open spec fn raw_pcm(data: Seq<u8>, ptr: int, length: nat, bits16: bool, stereo: bool) -> Result<Seq<i16>, ItError> {
    let n: nat = if stereo { 2 * length } else { length };
    if bits16 {
        if ptr + 2 * n > data.len() {
            Err(ItError::Raw16OutOfRange)
        } else {
            Ok(Seq::new(n, |i: int| le16(data, ptr + 2 * i) as i16))
        }
    } else {
        if ptr + n > data.len() {
            Err(ItError::Raw8OutOfRange)
        } else {
            Ok(Seq::new(n, |i: int| ((data[ptr + i] - 128) * 256) as i16))
        }
    }
}

/// Uncompressed samples hold `length` frames of each channel one after the other: 8-bit
/// values are unsigned, so byte `b` is the 16-bit sample (`b` − 128) × 256; 16-bit values are
/// signed little-endian byte pairs.
pub proof fn lemma_raw_values(data: Seq<u8>, ptr: int, length: nat, bits16: bool, stereo: bool)
    ensures
        raw_pcm(data, ptr, length, bits16, stereo) matches Ok(v) ==> {
            &&& v.len() == length * (if stereo { 2int } else { 1int })
            &&& forall|i: int|
                0 <= i < v.len() ==> (#[trigger] v[i]) as int == if bits16 {
                    let u = data[ptr + 2 * i] + 256 * data[ptr + 2 * i + 1];
                    if u >= 0x8000 { u - 0x10000 } else { u }
                } else {
                    (data[ptr + i] - 128) * 256
                }
        },
{
    if let Ok(v) = raw_pcm(data, ptr, length, bits16, stereo) {
        assert forall|i: int| 0 <= i < v.len() implies (#[trigger] v[i]) as int == if bits16 {
            let u = data[ptr + 2 * i] + 256 * data[ptr + 2 * i + 1];
            if u >= 0x8000 { u - 0x10000 } else { u }
        } else {
            (data[ptr + i] - 128) * 256
        } by {
            if bits16 {
                let a = data[ptr + 2 * i];
                let b = data[ptr + 2 * i + 1];
                let u = a + 256 * b;
                assert(le16(data, ptr + 2 * i) == u);
                let w: u32 = u as u32;
                assert(w == u);
                assert((w as i16) as int == if w >= 0x8000 { w - 0x10000 } else { w as int }) by (bit_vector)
                    requires
                        w < 0x10000,
                ;
            } else {
                let b = data[ptr + i];
                assert(((b - 128) * 256) as i16 == (b - 128) * 256);
            }
        }
    }
}

/// Every sample of an uncompressed 8-bit sample is a multiple of 256.
pub proof fn lemma_raw8_scaled(data: Seq<u8>, ptr: int, length: nat, stereo: bool)
    ensures
        raw_pcm(data, ptr, length, false, stereo) matches Ok(v) ==> scaled_from_8bit(v),
{
    if let Ok(v) = raw_pcm(data, ptr, length, false, stereo) {
        assert forall|i: int| 0 <= i < v.len() implies #[trigger] v[i] % 256 == 0 by {
            let b = data[ptr + i];
            assert(((b - 128) * 256) as i16 == (b - 128) * 256);
        }
    }
}

/// LSB-first bit reader over the blocks of one compressed channel.
struct BitReader<'a> {
    buf: &'a [u8],
    blk_index: usize,
    bitbuf: u32,
    bitnum: u8,
    block_offset: usize,
}

impl<'a> BitReader<'a> {
    /// Position of the next bit to read, counted in bits from the start of `buf`.
    spec fn pos(&self) -> int {
        self.blk_index * 8 + 8 - self.bitnum
    }

    /// The reader stands inside a block: `bitbuf` holds the unread bits of the current byte.
    spec fn active(&self) -> bool {
        &&& self.blk_index < self.buf@.len()
        &&& self.bitnum <= 8
        &&& self.bitbuf == (self.buf@[self.blk_index as int] as u32) >> ((8 - self.bitnum) as u32)
    }

    spec fn bounded(&self) -> bool {
        &&& self.block_offset <= self.buf@.len() + 0x10001
        &&& self.buf@.len() + 0x10003 <= usize::MAX
    }

    fn new(buf: &'a [u8]) -> (r: Self)
        requires
            buf@.len() + 0x10003 <= usize::MAX,
        ensures
            r.buf@ == buf@,
            r.block_offset == 0,
            r.bounded(),
    {
        BitReader { buf, blk_index: 0, bitbuf: 0, bitnum: 0, block_offset: 0 }
    }

    /// Moves to the next block, reading its two-byte size header.
    fn read_next_block(&mut self) -> (ok: bool)
        requires
            old(self).bounded(),
        ensures
            final(self).buf@ == old(self).buf@,
            final(self).bounded(),
            ok == (old(self).block_offset + 2 < old(self).buf@.len()),
            ok ==> {
                &&& final(self).active()
                &&& final(self).pos() == (old(self).block_offset + 2) * 8
                &&& final(self).block_offset == old(self).block_offset + le16(
                    old(self).buf@,
                    old(self).block_offset as int,
                ) + 2
            },
            !ok ==> final(self).block_offset == old(self).block_offset,
    {
        if self.block_offset + 2 > self.buf.len() {
            return false;
        }
        let block_size = self.buf[self.block_offset] as usize + (self.buf[self.block_offset + 1] as usize) * 256;
        self.blk_index = self.block_offset + 2;
        if self.blk_index >= self.buf.len() {
            return false;
        }
        self.bitbuf = self.buf[self.blk_index] as u32;
        self.bitnum = 8;
        let b = self.buf[self.blk_index];
        assert((b as u32) >> 0u32 == b as u32) by (bit_vector);
        self.block_offset = self.block_offset + block_size + 2;
        true
    }

    fn offset(&self) -> (r: usize)
        ensures
            r == self.block_offset,
    {
        self.block_offset
    }

    /// Reads `n` bits, least significant first; `None` when the buffer ends first.
    fn read_bits(&mut self, n: u8) -> (res: Option<u32>)
        requires
            old(self).active(),
            old(self).bounded(),
            n <= 32,
        ensures
            final(self).buf@ == old(self).buf@,
            final(self).block_offset == old(self).block_offset,
            final(self).bounded(),
            n == 0 ==> res == Some(0u32) && *final(self) == *old(self),
            n > 0 ==> (res is Some <==> old(self).pos() + n <= 8 * old(self).buf@.len()),
            res matches Some(v) ==> {
                &&& v == bits_le(old(self).buf@, old(self).pos(), n as nat)
                &&& final(self).pos() == old(self).pos() + n
                &&& final(self).active()
            },
    {
        if n == 0 {
            return Some(0);
        }
        let ghost p0 = self.pos();
        let mut value: u32 = 0;
        let mut j: u8 = 0;
        while j < n
            invariant
                j <= n <= 32,
                self.buf@ == old(self).buf@,
                self.block_offset == old(self).block_offset,
                self.active(),
                self.bounded(),
                self.pos() == p0 + j,
                p0 == old(self).pos(),
                p0 + j <= 8 * self.buf@.len(),
                j == 0 ==> value == 0,
                j > 0 ==> value >> ((32 - j) as u32) == bits_le(self.buf@, p0, j as nat),
            decreases n - j,
        {
            if self.bitnum == 0 {
                self.blk_index = self.blk_index + 1;
                if self.blk_index >= self.buf.len() {
                    return None;
                }
                self.bitbuf = self.buf[self.blk_index] as u32;
                self.bitnum = 8;
                let b = self.buf[self.blk_index];
                assert((b as u32) >> 0u32 == b as u32) by (bit_vector);
            }
            let ghost p = self.pos();
            let ghost bi = self.blk_index as int;
            let ghost k = self.bitnum;
            let ghost byte = self.buf@[bi];
            proof {
                assert(p / 8 == bi && p % 8 == 8 - k);
                assert(bit_at(self.buf@, p) == ((byte as u32) >> ((8 - k) as u32)) & 1);
            }
            let old_value = value;
            let old_bitbuf = self.bitbuf;
            value = value >> 1;
            value = value | (self.bitbuf << 31);
            self.bitbuf = self.bitbuf >> 1;
            self.bitnum = self.bitnum - 1;
            proof {
                let b = bit_at(self.buf@, p);
                let jj = j as u32;
                assert(b == old_bitbuf & 1);
                assert(((old_value >> 1) | (old_bitbuf << 31)) >> ((31 - jj) as u32) == (old_value >> ((32 - jj) as u32)) | ((old_bitbuf & 1) << jj)) by (bit_vector)
                    requires jj < 32;
                if j == 0 {
                    assert(old_value >> 32u32 == 0u32) by (bit_vector);
                    assert(bits_le(self.buf@, p0, 0) == 0);
                }
                assert(bits_le(self.buf@, p0, (j + 1) as nat) == bits_le(self.buf@, p0, j as nat) | (bit_at(self.buf@, p0 + j) << jj));
                let kk = k as u32;
                assert((((byte as u32) >> ((8 - kk) as u32)) >> 1) == (byte as u32) >> ((8 - (kk - 1)) as u32)) by (bit_vector)
                    requires 1 <= kk <= 8;
            }
            j = j + 1;
        }
        Some(value >> (32 - n))
    }
}

proof fn lemma_sign_extend8(value: u16, w: u8)
    requires
        1 <= w <= 7,
        value < (1u16 << w),
    ensures
        ((value << ((8 - w) as u8)) as i8) >> ((8 - w) as u8) == sign_extend8(value as u32, w as u32),
{
    let v32 = value as u32;
    let w32 = w as u32;
    let se: i8 = if w32 < 8 && v32 & (1u32 << ((w32 - 1) as u32)) != 0 {
        (v32 | (0xffu32 << w32)) as i8
    } else {
        v32 as i8
    };
    assert(((value << ((8 - w) as u8)) as i8) >> ((8 - w) as u8) == se) by (bit_vector)
        requires
            1 <= w <= 7,
            value < (1u16 << w),
            v32 == value as u32,
            w32 == w as u32,
            se == if w32 < 8 && v32 & (1u32 << ((w32 - 1) as u32)) != 0 {
                (v32 | (0xffu32 << w32)) as i8
            } else {
                v32 as i8
            },
    ;
}

/// Decodes one 8-bit channel into `dest`; returns the offset after its last block,
/// or `None` where the data reaches a width of zero.
fn decompress_8bit_inner(buf: &[u8], len: u32, it215: bool, dest: &mut Vec<i16>) -> (res: Option<usize>)
    requires
        buf@.len() + 0x10003 <= usize::MAX,
    ensures
        res is None <==> channel8(buf@, 0, len as nat, it215).2,
        res matches Some(off) ==> {
            &&& off == channel8(buf@, 0, len as nat, it215).1
            &&& final(dest)@ == old(dest)@ + channel8(buf@, 0, len as nat, it215).0
        },
{
    let mut br = BitReader::new(buf);
    let mut remaining = len;
    let ghost total = channel8(buf@, 0, len as nat, it215);
    let ghost mut out: Seq<i16> = seq![];
    while remaining != 0
        invariant
            br.buf@ == buf@,
            br.bounded(),
            total == channel8(buf@, 0, len as nat, it215),
            dest@ == old(dest)@ + out,
            total.0 == out + channel8(buf@, br.block_offset as int, remaining as nat, it215).0,
            total.1 == channel8(buf@, br.block_offset as int, remaining as nat, it215).1,
            total.2 == channel8(buf@, br.block_offset as int, remaining as nat, it215).2,
        ensures
            dest@ == old(dest)@ + out,
            total.0 == out,
            total.1 == br.block_offset,
            !total.2,
        decreases remaining,
    {
        let ghost bo = br.block_offset as int;
        if !br.read_next_block() {
            assert(out + seq![] =~= out);
            break;
        }
        let blklen: u16 = if remaining < 0x8000 { remaining as u16 } else { 0x8000 };
        let mut blkpos: u16 = 0;
        let mut width: u8 = 9;
        let mut d1: i8 = 0;
        let mut d2: i8 = 0;
        let ghost next = br.block_offset as int;
        let ghost blk = block8(buf@, (bo + 2) * 8, 9, 0, 0, blklen as nat, it215);
        let ghost mut bout: Seq<i16> = seq![];
        assert(bout + blk.0 =~= blk.0);
        assert(blk.1 ==> total.2);
        while blkpos < blklen
            invariant_except_break
                br.active(),
                blk.0 == bout + block8(buf@, br.pos(), width as u32, d1, d2, (blklen - blkpos) as nat, it215).0,
                blk.1 == block8(buf@, br.pos(), width as u32, d1, d2, (blklen - blkpos) as nat, it215).1,
            invariant
                br.buf@ == buf@,
                br.bounded(),
                br.block_offset == next,
                blkpos <= blklen,
                dest@ == old(dest)@ + out + bout,
                blk.1 ==> total.2,
                total == channel8(buf@, 0, len as nat, it215),
            ensures
                blk.0 == bout,
                !blk.1,
            decreases 8 * buf@.len() - br.pos(),
        {
            if width > 9 {
                assert(bout + seq![] =~= bout);
                break;
            }
            let ghost p = br.pos();
            let r = br.read_bits(width);
            if r.is_none() {
                assert(bout + seq![] =~= bout);
                break;
            }
            let v32 = r.unwrap();
            proof {
                lemma_bits_le_bound(buf@, p, width as nat);
                let ww = width;
                assert(ww <= 9 ==> (1u32 << (ww as u32)) <= 512) by (bit_vector);
            }
            let value: u16 = v32 as u16;
            let ghost w = width as u32;
            if width < 7 {
                if width == 0 {
                    assert(block8(buf@, p, 0, d1, d2, (blklen - blkpos) as nat, it215).1);
                    assert(blk.1);
                    return None;
                }
                if v32 == 1u32 << (width - 1) {
                    let ghost p1 = br.pos();
                    let r3 = br.read_bits(3);
                    if r3.is_none() {
                        assert(bout + seq![] =~= bout);
                        break;
                    }
                    proof {
                        lemma_bits_le_bound(buf@, p1, 3);
                        assert((1u32 << 3u32) == 8u32) by (bit_vector);
                    }
                    let nb = r3.unwrap() as u8 + 1;
                    width = if nb < width { nb } else { nb + 1 };
                    continue;
                }
            } else if width < 9 {
                proof {
                    if width == 7 {
                        assert((0xffu16 >> 2u8) == 63u16) by (bit_vector);
                        assert((0xffu32 >> 2u32) == 63u32) by (bit_vector);
                    } else {
                        assert((0xffu16 >> 1u8) == 127u16) by (bit_vector);
                        assert((0xffu32 >> 1u32) == 127u32) by (bit_vector);
                    }
                }
                let border: u16 = (0xffu16 >> (9 - width)) - 4;
                if value > border && value <= border + 8 {
                    let nb = (value - border) as u8;
                    width = if nb < width { nb } else { nb + 1 };
                    continue;
                }
            } else {
                proof {
                    assert((1u32 << 9u32) == 512u32) by (bit_vector);
                    assert(v32 < 512 ==> ((v32 as u16) & 0x100 != 0) == (v32 & 0x100 != 0)) by (bit_vector);
                }
                if (value & 0x100) != 0 {
                    proof {
                        assert(v32 < 512 ==> (((((v32 as u16) + 1) as u16) & 0xffu16) as u8) as u32 == ((v32 + 1) % 256) as u32) by (bit_vector);
                    }
                    width = ((value + 1) & 0xff) as u8;
                    continue;
                }
            }
            let sample_value: i8 = if width < 8 {
                let shift = 8 - width;
                proof {
                    assert(v32 < (1u32 << (width as u32)) ==> value < (1u16 << width)) by (bit_vector)
                        requires value == v32 as u16, width <= 7;
                    lemma_sign_extend8(value, width);
                }
                ((value << shift) as i8) >> shift
            } else {
                proof {
                    assert((1u32 << 8u32) == 256u32 && (1u32 << 9u32) == 512u32) by (bit_vector);
                    assert(v32 < 512 && (width == 8 ==> v32 < 256) && (v32 & 0x100 == 0) ==> (v32 as u16) as i8 == v32 as i8) by (bit_vector);
                    if width == 8 {
                        assert(v32 < 256 ==> v32 & 0x100 == 0) by (bit_vector);
                    }
                }
                value as i8
            };
            d1 = d1.wrapping_add(sample_value);
            d2 = d2.wrapping_add(d1);
            let s = if it215 { d2 } else { d1 };
            dest.push((s as i16) * 256);
            proof {
                bout = bout.push(((s as int) * 256) as i16);
            }
            blkpos = blkpos + 1;
        }
        remaining = remaining - blklen as u32;
        proof {
            out = out + bout;
        }
    }
    Some(br.offset())
}

proof fn lemma_sign_extend16(value: u32, w: u8)
    requires
        1 <= w <= 15,
        value < (1u32 << (w as u32)),
    ensures
        ((value << ((16 - w) as u8)) as i16) >> ((16 - w) as u8) == sign_extend16(value, w as u32),
{
    let w32 = w as u32;
    let se: i16 = if w32 < 16 && value & (1u32 << ((w32 - 1) as u32)) != 0 {
        (value | (0xffffu32 << w32)) as i16
    } else {
        value as i16
    };
    assert(((value << ((16 - w) as u8)) as i16) >> ((16 - w) as u8) == se) by (bit_vector)
        requires
            1 <= w <= 15,
            value < (1u32 << (w as u32)),
            w32 == w as u32,
            se == if w32 < 16 && value & (1u32 << ((w32 - 1) as u32)) != 0 {
                (value | (0xffffu32 << w32)) as i16
            } else {
                value as i16
            },
    ;
}

/// Decodes one 16-bit channel into `dest`; returns the offset after its last block,
/// or `None` where the data reaches a width of zero.
fn decompress_16bit_inner(buf: &[u8], len: u32, it215: bool, dest: &mut Vec<i16>) -> (res: Option<usize>)
    requires
        buf@.len() + 0x10003 <= usize::MAX,
    ensures
        res is None <==> channel16(buf@, 0, len as nat, it215).2,
        res matches Some(off) ==> {
            &&& off == channel16(buf@, 0, len as nat, it215).1
            &&& final(dest)@ == old(dest)@ + channel16(buf@, 0, len as nat, it215).0
        },
{
    let mut br = BitReader::new(buf);
    let mut remaining = len;
    let ghost total = channel16(buf@, 0, len as nat, it215);
    let ghost mut out: Seq<i16> = seq![];
    while remaining != 0
        invariant
            br.buf@ == buf@,
            br.bounded(),
            total == channel16(buf@, 0, len as nat, it215),
            dest@ == old(dest)@ + out,
            total.0 == out + channel16(buf@, br.block_offset as int, remaining as nat, it215).0,
            total.1 == channel16(buf@, br.block_offset as int, remaining as nat, it215).1,
            total.2 == channel16(buf@, br.block_offset as int, remaining as nat, it215).2,
        ensures
            dest@ == old(dest)@ + out,
            total.0 == out,
            total.1 == br.block_offset,
            !total.2,
        decreases remaining,
    {
        let ghost bo = br.block_offset as int;
        if !br.read_next_block() {
            assert(out + seq![] =~= out);
            break;
        }
        let blklen: u16 = if remaining < 0x4000 { remaining as u16 } else { 0x4000 };
        let mut blkpos: u16 = 0;
        let mut width: u8 = 17;
        let mut d1: i16 = 0;
        let mut d2: i16 = 0;
        let ghost next = br.block_offset as int;
        let ghost blk = block16(buf@, (bo + 2) * 8, 17, 0, 0, blklen as nat, it215);
        let ghost mut bout: Seq<i16> = seq![];
        assert(bout + blk.0 =~= blk.0);
        assert(blk.1 ==> total.2);
        while blkpos < blklen
            invariant_except_break
                br.active(),
                blk.0 == bout + block16(buf@, br.pos(), width as u32, d1, d2, (blklen - blkpos) as nat, it215).0,
                blk.1 == block16(buf@, br.pos(), width as u32, d1, d2, (blklen - blkpos) as nat, it215).1,
            invariant
                br.buf@ == buf@,
                br.bounded(),
                br.block_offset == next,
                blkpos <= blklen,
                dest@ == old(dest)@ + out + bout,
                blk.1 ==> total.2,
                total == channel16(buf@, 0, len as nat, it215),
            ensures
                blk.0 == bout,
                !blk.1,
            decreases 8 * buf@.len() - br.pos(),
        {
            if width > 17 {
                assert(bout + seq![] =~= bout);
                break;
            }
            let ghost p = br.pos();
            let r = br.read_bits(width);
            if r.is_none() {
                assert(bout + seq![] =~= bout);
                break;
            }
            let value = r.unwrap();
            proof {
                lemma_bits_le_bound(buf@, p, width as nat);
                let ww = width;
                assert(ww <= 17 ==> (1u32 << (ww as u32)) <= 0x20000) by (bit_vector);
            }
            if width < 7 {
                if width == 0 {
                    assert(block16(buf@, p, 0, d1, d2, (blklen - blkpos) as nat, it215).1);
                    assert(blk.1);
                    return None;
                }
                if value == 1u32 << (width - 1) {
                    let ghost p1 = br.pos();
                    let r4 = br.read_bits(4);
                    if r4.is_none() {
                        assert(bout + seq![] =~= bout);
                        break;
                    }
                    proof {
                        lemma_bits_le_bound(buf@, p1, 4);
                        assert((1u32 << 4u32) == 16u32) by (bit_vector);
                    }
                    let nb = r4.unwrap() as u8 + 1;
                    width = if nb < width { nb } else { nb + 1 };
                    continue;
                }
            } else if width < 17 {
                proof {
                    let ww = width as u32;
                    assert(7 <= ww <= 16 ==> (0xffffu32 >> ((17 - ww) as u32)) >= 63) by (bit_vector);
                }
                let border: u32 = (0xffffu32 >> (17 - width)) - 8;
                if value > border && value <= border + 16 {
                    let nb = (value - border) as u8;
                    width = if nb < width { nb } else { nb + 1 };
                    continue;
                }
            } else {
                if (value & 0x10000) != 0 {
                    proof {
                        assert(value < 0x20000 ==> (((((value + 1) as u32) & 0xffu32) as u8) as u32 == ((value + 1) % 256) as u32)) by (bit_vector);
                    }
                    width = ((value + 1) & 0xff) as u8;
                    continue;
                }
            }
            let sample_value: i16 = if width < 16 {
                let shift = 16 - width;
                proof {
                    lemma_sign_extend16(value, width);
                }
                ((value << shift) as i16) >> shift
            } else {
                value as i16
            };
            d1 = d1.wrapping_add(sample_value);
            d2 = d2.wrapping_add(d1);
            let s = if it215 { d2 } else { d1 };
            dest.push(s);
            proof {
                bout = bout.push(s);
            }
            blkpos = blkpos + 1;
        }
        remaining = remaining - blklen as u32;
        proof {
            out = out + bout;
        }
    }
    Some(br.offset())
}

/// Decodes a compressed 8-bit sample; `None` where `compressed8` has no value.
pub(crate) fn decompress_compressed_8bit(data: &[u8], ptr: usize, length: usize, stereo: bool, is_it215: bool) -> (res: Option<Vec<i16>>)
    requires
        length <= u32::MAX,
        data@.len() + 0x10003 <= usize::MAX,
    ensures
        match res {
            Some(v) => compressed8(data@, ptr as int, length as nat, stereo, is_it215) == Some(v@),
            None => compressed8(data@, ptr as int, length as nat, stereo, is_it215) is None,
        },
{
    if ptr > data.len() {
        return None;
    }
    let buf = &data[ptr..data.len()];
    let mut out: Vec<i16> = Vec::new();
    let offset = match decompress_8bit_inner(buf, length as u32, is_it215, &mut out) {
        Some(o) => o,
        None => {
            return None;
        },
    };
    let ghost l = channel8(buf@, 0, length as nat, is_it215);
    assert(out@ =~= l.0);
    if stereo {
        if offset > buf.len() {
            return None;
        }
        let rbuf = &buf[offset..buf.len()];
        match decompress_8bit_inner(rbuf, length as u32, is_it215, &mut out) {
            Some(_) => {},
            None => {
                return None;
            },
        }
        let ghost r = channel8(rbuf@, 0, length as nat, is_it215);
        proof {
            lemma_channel8_len(buf@, 0, length as nat, is_it215);
            lemma_channel8_len(rbuf@, 0, length as nat, is_it215);
        }
        if out.len() < length || out.len() - length < length {
            return None;
        }
        let out_len = out.len();
        assert(2 * length <= out_len);
        let mut interleaved: Vec<i16> = Vec::new();
        let mut i: usize = 0;
        while i < length
            invariant
                i <= length,
                out@ == l.0 + r.0,
                out@.len() == 2 * length,
                2 * length <= usize::MAX,
                l.0.len() == length,
                r.0.len() == length,
                interleaved@.len() == 2 * i,
                forall|j: int| 0 <= j < 2 * i ==> interleaved@[j] == (if j % 2 == 0 { l.0[j / 2] } else { r.0[j / 2] }),
            decreases length - i,
        {
            interleaved.push(out[i]);
            interleaved.push(out[length + i]);
            i = i + 1;
        }
        assert(interleaved@ =~= interleave(l.0, r.0));
        return Some(interleaved);
    }
    Some(out)
}

/// Decodes a compressed 16-bit sample; `None` where `compressed16` has no value.
pub(crate) fn decompress_compressed_16bit(data: &[u8], ptr: usize, length: usize, stereo: bool, is_it215: bool) -> (res: Option<Vec<i16>>)
    requires
        length <= u32::MAX,
        data@.len() + 0x10003 <= usize::MAX,
    ensures
        match res {
            Some(v) => compressed16(data@, ptr as int, length as nat, stereo, is_it215) == Some(v@),
            None => compressed16(data@, ptr as int, length as nat, stereo, is_it215) is None,
        },
{
    if ptr > data.len() {
        return None;
    }
    let buf = &data[ptr..data.len()];
    let mut out: Vec<i16> = Vec::new();
    let offset = match decompress_16bit_inner(buf, length as u32, is_it215, &mut out) {
        Some(o) => o,
        None => {
            return None;
        },
    };
    let ghost l = channel16(buf@, 0, length as nat, is_it215);
    assert(out@ =~= l.0);
    if stereo {
        if offset > buf.len() {
            return None;
        }
        let rbuf = &buf[offset..buf.len()];
        match decompress_16bit_inner(rbuf, length as u32, is_it215, &mut out) {
            Some(_) => {},
            None => {
                return None;
            },
        }
        let ghost r = channel16(rbuf@, 0, length as nat, is_it215);
        proof {
            lemma_channel16_len(buf@, 0, length as nat, is_it215);
            lemma_channel16_len(rbuf@, 0, length as nat, is_it215);
        }
        if out.len() < length || out.len() - length < length {
            return None;
        }
        let out_len = out.len();
        assert(2 * length <= out_len);
        let mut interleaved: Vec<i16> = Vec::new();
        let mut i: usize = 0;
        while i < length
            invariant
                i <= length,
                out@ == l.0 + r.0,
                out@.len() == 2 * length,
                2 * length <= usize::MAX,
                l.0.len() == length,
                r.0.len() == length,
                interleaved@.len() == 2 * i,
                forall|j: int| 0 <= j < 2 * i ==> interleaved@[j] == (if j % 2 == 0 { l.0[j / 2] } else { r.0[j / 2] }),
            decreases length - i,
        {
            interleaved.push(out[i]);
            interleaved.push(out[length + i]);
            i = i + 1;
        }
        assert(interleaved@ =~= interleave(l.0, r.0));
        return Some(interleaved);
    }
    Some(out)
}

/// Reads an uncompressed sample.
pub(crate) fn extract_raw_pcm(data: &[u8], ptr: usize, length: usize, bits16: bool, stereo: bool) -> (res: Result<Vec<i16>, ItError>)
    requires
        length <= u32::MAX,
        ptr <= u32::MAX,
    ensures
        match res {
            Ok(v) => raw_pcm(data@, ptr as int, length as nat, bits16, stereo) == Ok::<Seq<i16>, ItError>(v@),
            Err(e) => raw_pcm(data@, ptr as int, length as nat, bits16, stereo) == Err::<Seq<i16>, ItError>(e),
        },
{
    let data_len = data.len();
    let channels: u64 = if stereo { 2 } else { 1 };
    let total: u64 = length as u64 * channels;
    if bits16 {
        let byte_len: u64 = total * 2;
        if ptr as u64 + byte_len > data.len() as u64 {
            return Err(ItError::Raw16OutOfRange);
        }
        let total = total as usize;
        let mut out: Vec<i16> = Vec::new();
        let mut i: usize = 0;
        while i < total
            invariant
                i <= total,
                ptr + 2 * total <= data@.len(),
                data@.len() == data_len,
                out@.len() == i,
                forall|j: int| 0 <= j < i ==> out@[j] == le16(data@, ptr + 2 * j) as i16,
            decreases total - i,
        {
            let b0 = data[ptr + i * 2];
            let b1 = data[ptr + i * 2 + 1];
            out.push((b0 as u16 + (b1 as u16) * 256) as i16);
            i = i + 1;
        }
        assert(out@ =~= Seq::new(total as nat, |j: int| le16(data@, ptr + 2 * j) as i16));
        Ok(out)
    } else {
        if ptr as u64 + total > data.len() as u64 {
            return Err(ItError::Raw8OutOfRange);
        }
        let total = total as usize;
        let mut out: Vec<i16> = Vec::new();
        let mut i: usize = 0;
        while i < total
            invariant
                i <= total,
                ptr + total <= data@.len(),
                data@.len() == data_len,
                out@.len() == i,
                forall|j: int| 0 <= j < i ==> out@[j] == ((data@[ptr + j] - 128) * 256) as i16,
            decreases total - i,
        {
            let byte = data[ptr + i];
            let signed = (byte as i16) - 128;
            out.push(signed * 256);
            i = i + 1;
        }
        assert(out@ =~= Seq::new(total as nat, |j: int| ((data@[ptr + j] - 128) * 256) as i16));
        Ok(out)
    }
}

} // verus!
