//! The binary image codec: an 18-byte header, the pixel payload (verbatim
//! or run-length encoded in packets of at most 128 pixels), and a fixed
//! 26-byte trailer.
//!
//! The run-length encoding is packet-based: a run-length packet carries two
//! or more consecutive identical pixels (header byte `127 + count`, one
//! pixel's bytes as payload); a raw packet carries pixels with no run of two
//! identical neighbours inside it (header byte `count - 1`, the pixels'
//! bytes verbatim). A raw packet stops just before the first of a pair of
//! identical adjacent pixels, so the following run-length packet starts
//! exactly there: no pixel is double-counted or dropped.

use vstd::prelude::*;
use crate::tga::{ColorSpace, Image, flat_range, lemma_flat_range_split, lemma_flat_range_len};

verus! {

/// Number of pixels in the run-length packet that starts at pixel `i`, for
/// a packet capacity of `cap`: how far the chain of pixels equal to their
/// predecessor extends, the capacity included.
pub open spec fn run_span(p: Seq<Seq<u8>>, i: int, cap: int) -> int
    decreases cap,
{
    if cap <= 1 {
        1
    } else if i + 1 >= p.len() {
        1
    } else if p[i + 1] != p[i] {
        1
    } else {
        1 + run_span(p, i + 1, cap - 1)
    }
}

/// Number of pixels in the raw packet that starts at pixel `i`, for a
/// packet capacity of `cap`: pixels are taken while each next pixel differs
/// from the one before it, so the packet ends just before the first pair of
/// identical adjacent pixels (the pair's first pixel contributes `0`).
pub open spec fn raw_span(p: Seq<Seq<u8>>, i: int, cap: int) -> int
    decreases cap,
{
    if cap <= 1 {
        1
    } else if i + 1 >= p.len() {
        1
    } else if p[i + 1] == p[i] {
        0
    } else {
        1 + raw_span(p, i + 1, cap - 1)
    }
}

pub proof fn lemma_run_span_bounds(p: Seq<Seq<u8>>, i: int, cap: int)
    requires
        cap >= 1,
        0 <= i < p.len(),
    ensures
        1 <= run_span(p, i, cap) <= cap,
        i + run_span(p, i, cap) <= p.len(),
    decreases cap,
{
    if cap > 1 && i + 1 < p.len() && p[i + 1] == p[i] {
        lemma_run_span_bounds(p, i + 1, cap - 1);
    }
}

pub proof fn lemma_raw_span_bounds(p: Seq<Seq<u8>>, i: int, cap: int)
    requires
        cap >= 1,
        0 <= i < p.len(),
    ensures
        0 <= raw_span(p, i, cap) <= cap,
        i + raw_span(p, i, cap) <= p.len(),
        i + 1 >= p.len() || p[i + 1] != p[i] ==> 1 <= raw_span(p, i, cap),
    decreases cap,
{
    if cap > 1 && i + 1 < p.len() && p[i + 1] != p[i] {
        lemma_raw_span_bounds(p, i + 1, cap - 1);
    }
}

/// Every pixel of a run-length packet equals the packet's first pixel.
pub proof fn lemma_run_span_equal(p: Seq<Seq<u8>>, i: int, cap: int)
    requires
        cap >= 1,
        0 <= i < p.len(),
    ensures
        forall|k: int| i <= k < i + run_span(p, i, cap) ==> p[k] == p[i],
    decreases cap,
{
    if cap > 1 && i + 1 < p.len() && p[i + 1] == p[i] {
        lemma_run_span_equal(p, i + 1, cap - 1);
    }
}

/// The run-length encoded bytes of the pixels of `p` from position `i` on.
pub open spec fn rle_from(p: Seq<Seq<u8>>, i: int) -> Seq<u8>
    decreases p.len() - i when 0 <= i <= p.len() via rle_from_decreases
{
    if i >= p.len() {
        Seq::empty()
    } else if i + 1 < p.len() && p[i + 1] == p[i] {
        let r = run_span(p, i, 128);
        seq![(127 + r) as u8] + p[i] + rle_from(p, i + r)
    } else {
        let r = raw_span(p, i, 128);
        seq![(r - 1) as u8] + flat_range(p, i, i + r) + rle_from(p, i + r)
    }
}

#[via_fn]
proof fn rle_from_decreases(p: Seq<Seq<u8>>, i: int) {
    if i < p.len() {
        if i + 1 < p.len() && p[i + 1] == p[i] {
            lemma_run_span_bounds(p, i, 128);
        } else {
            lemma_raw_span_bounds(p, i, 128);
        }
    }
}

/// The image type code of the header: grayscale or color, each either
/// uncompressed or run-length encoded.
pub open spec fn spec_image_type(bpp: int, rle: bool) -> u8 {
    if bpp == 1 {
        if rle {
            11u8
        } else {
            3u8
        }
    } else {
        if rle {
            10u8
        } else {
            2u8
        }
    }
}

/// The 18 header bytes, in field order: id length, color-map type, image
/// type, color-map start, length and depth (no color map is used), x and y
/// origin, width, height (each little-endian), pixel depth in bits, and the
/// image descriptor (bit 5 set means top-left origin, that is no vertical
/// flip).
pub open spec fn header_bytes(w: int, h: int, bpp: int, vflip: bool, rle: bool) -> Seq<u8> {
    seq![
        0u8,
        0u8,
        spec_image_type(bpp, rle),
        0u8,
        0u8,
        0u8,
        0u8,
        0u8,
        0u8,
        0u8,
        0u8,
        0u8,
        (w % 256) as u8,
        (w / 256) as u8,
        (h % 256) as u8,
        (h / 256) as u8,
        (8 * bpp) as u8,
        if vflip {
            0u8
        } else {
            0x20u8
        },
    ]
}

/// The 26 trailer bytes: the 4-byte developer-area reference, the 4-byte
/// extension-area reference, and the ASCII signature `TRUEVISION-XFILE.`
/// with a trailing NUL.
pub open spec fn trailer_bytes() -> Seq<u8> {
    seq![
        0u8,
        0u8,
        0u8,
        0u8,
        0u8,
        0u8,
        0u8,
        0u8,
        84u8,
        82u8,
        85u8,
        69u8,
        86u8,
        73u8,
        83u8,
        73u8,
        79u8,
        78u8,
        45u8,
        88u8,
        70u8,
        73u8,
        76u8,
        69u8,
        46u8,
        0u8,
    ]
}

/// The whole encoded stream: header, pixel payload (verbatim or run-length
/// encoded), trailer.
pub open spec fn encode_bytes(
    p: Seq<Seq<u8>>,
    w: int,
    h: int,
    bpp: int,
    vflip: bool,
    rle: bool,
) -> Seq<u8> {
    header_bytes(w, h, bpp, vflip, rle) + (if rle {
        rle_from(p, 0)
    } else {
        flat_range(p, 0, p.len() as int)
    }) + trailer_bytes()
}

/// `s` repeated `n` times.
pub open spec fn repeat_seq(s: Seq<u8>, n: int) -> Seq<u8>
    decreases n,
{
    if n <= 0 {
        Seq::empty()
    } else {
        s + repeat_seq(s, n - 1)
    }
}

pub proof fn lemma_repeat_seq_snoc(s: Seq<u8>, n: int)
    requires
        n >= 0,
    ensures
        repeat_seq(s, n + 1) == repeat_seq(s, n) + s,
    decreases n,
{
    if n == 0 {
        assert(repeat_seq(s, 1) =~= repeat_seq(s, 0) + s);
    } else {
        lemma_repeat_seq_snoc(s, n - 1);
        assert(repeat_seq(s, n + 1) =~= repeat_seq(s, n) + s);
    }
}

/// A range of identical pixels flattens to its first pixel repeated.
proof fn lemma_flat_range_repeat(p: Seq<Seq<u8>>, i: int, r: int)
    requires
        0 <= i,
        i + r <= p.len(),
        forall|k: int| i <= k < i + r ==> p[k] == p[i],
    ensures
        flat_range(p, i, i + r) == repeat_seq(p[i], r),
    decreases r,
{
    if r <= 0 {
    } else if r == 1 {
        assert(flat_range(p, i + 1, i + 1) =~= Seq::<u8>::empty());
        assert(flat_range(p, i, i + 1) =~= p[i]);
        assert(repeat_seq(p[i], 0) =~= Seq::<u8>::empty());
        assert(repeat_seq(p[i], 1) =~= p[i]);
    } else {
        assert(p[i + 1] == p[i]);
        assert(forall|k: int| i + 1 <= k < i + r ==> #[trigger] p[k] == p[i + 1]);
        lemma_flat_range_repeat(p, i + 1, r - 1);
        assert(flat_range(p, i, i + r) == p[i] + flat_range(p, i + 1, i + r));
        assert(repeat_seq(p[i], r) == p[i] + repeat_seq(p[i], r - 1));
    }
}

/// The reference decoder of the run-length encoding: read a packet header,
/// expand its payload (`bpp` bytes per pixel), and go on behind the packet.
/// A stream whose final packet is cut short decodes as if the cut packet
/// and everything after it were absent.
pub open spec fn rle_decode(b: Seq<u8>, bpp: int) -> Seq<u8>
    decreases b.len() when bpp >= 1 via rle_decode_decreases
{
    if b.len() == 0 {
        Seq::empty()
    } else {
        let h = b[0] as int;
        if h >= 128 {
            let cnt = h - 127;
            if b.len() >= 1 + bpp {
                repeat_seq(b.subrange(1, 1 + bpp), cnt) + rle_decode(b.skip(1 + bpp), bpp)
            } else {
                Seq::empty()
            }
        } else {
            let cnt = h + 1;
            if b.len() >= 1 + cnt * bpp {
                b.subrange(1, 1 + cnt * bpp) + rle_decode(b.skip(1 + cnt * bpp), bpp)
            } else {
                Seq::empty()
            }
        }
    }
}

#[via_fn]
proof fn rle_decode_decreases(b: Seq<u8>, bpp: int) {
    if b.len() > 0 {
        let h = b[0] as int;
        if h < 128 {
            assert((h + 1) * bpp >= 1) by (nonlinear_arith)
                requires
                    h >= 0,
                    bpp >= 1,
            ;
        }
    }
}

/// Round trip: decoding the run-length encoding of any pixel sequence,
/// taken from any packet boundary, gives back those pixels' bytes exactly.
pub proof fn lemma_rle_round_trip_from(p: Seq<Seq<u8>>, i: int, bpp: int)
    requires
        bpp >= 1,
        0 <= i <= p.len(),
        forall|k: int| 0 <= k < p.len() ==> (#[trigger] p[k]).len() == bpp,
    ensures
        rle_decode(rle_from(p, i), bpp) == flat_range(p, i, p.len() as int),
    decreases p.len() - i,
{
    if i >= p.len() {
        assert(rle_decode(rle_from(p, i), bpp) =~= flat_range(p, i, p.len() as int));
    } else if i + 1 < p.len() && p[i + 1] == p[i] {
        let r = run_span(p, i, 128);
        lemma_run_span_bounds(p, i, 128);
        let b = rle_from(p, i);
        assert(b == seq![(127 + r) as u8] + p[i] + rle_from(p, i + r));
        assert(p[i].len() == bpp);
        assert(b[0] == (127 + r) as u8);
        assert(b[0] as int == 127 + r);
        assert(b.len() >= 1 + bpp);
        assert(b.subrange(1, 1 + bpp) =~= p[i]);
        assert(b.skip(1 + bpp) =~= rle_from(p, i + r));
        lemma_run_span_equal(p, i, 128);
        lemma_flat_range_repeat(p, i, r);
        lemma_rle_round_trip_from(p, i + r, bpp);
        lemma_flat_range_split(p, i, i + r, p.len() as int);
        assert(rle_decode(b, bpp) == repeat_seq(p[i], r) + rle_decode(rle_from(p, i + r), bpp));
        assert(rle_decode(rle_from(p, i), bpp) =~= flat_range(p, i, p.len() as int));
    } else {
        let r = raw_span(p, i, 128);
        lemma_raw_span_bounds(p, i, 128);
        let b = rle_from(p, i);
        assert(b == seq![(r - 1) as u8] + flat_range(p, i, i + r) + rle_from(p, i + r));
        lemma_flat_range_len(p, i, i + r, bpp);
        assert(flat_range(p, i, i + r).len() == r * bpp);
        assert(b[0] == (r - 1) as u8);
        assert(b[0] as int == r - 1);
        assert((b[0] as int) < 128);
        assert(b.len() >= 1 + r * bpp);
        assert(b.subrange(1, 1 + r * bpp) =~= flat_range(p, i, i + r));
        assert(b.skip(1 + r * bpp) =~= rle_from(p, i + r));
        lemma_rle_round_trip_from(p, i + r, bpp);
        lemma_flat_range_split(p, i, i + r, p.len() as int);
        assert(rle_decode(b, bpp) == flat_range(p, i, i + r) + rle_decode(
            rle_from(p, i + r),
            bpp,
        ));
        assert(rle_decode(rle_from(p, i), bpp) =~= flat_range(p, i, p.len() as int));
    }
}

/// Round trip: decoding the run-length encoding of any pixel sequence
/// gives back the pixels' raw bytes exactly.
pub proof fn lemma_rle_round_trip(p: Seq<Seq<u8>>, bpp: int)
    requires
        bpp >= 1,
        forall|k: int| 0 <= k < p.len() ==> (#[trigger] p[k]).len() == bpp,
    ensures
        rle_decode(rle_from(p, 0), bpp) == flat_range(p, 0, p.len() as int),
{
    lemma_rle_round_trip_from(p, 0, bpp);
}

/// Decode a run-length encoded pixel payload, `bpp` bytes per pixel.
#[verifier::rlimit(100)]
pub fn decode_rle(bytes: &Vec<u8>, bpp: usize) -> (out: Vec<u8>)
    requires
        1 <= bpp <= 4,
    ensures
        out@ == rle_decode(bytes@, bpp as int),
{
    let n = bytes.len();
    let mut out: Vec<u8> = Vec::new();
    let mut pos: usize = 0;
    proof {
        assert(bytes@.skip(0) =~= bytes@);
    }
    while pos < n
        invariant
            pos <= n,
            n == bytes@.len(),
            1 <= bpp <= 4,
            rle_decode(bytes@, bpp as int) == out@ + rle_decode(
                bytes@.skip(pos as int),
                bpp as int,
            ),
        decreases n - pos,
    {
        let ghost rest = bytes@.skip(pos as int);
        let h = bytes[pos];
        proof {
            assert(rest[0] == bytes@[pos as int]);
        }
        if h >= 128 {
            let cnt = (h - 127) as usize;
            if n - pos < 1 + bpp {
                proof {
                    assert(rle_decode(rest, bpp as int) =~= Seq::<u8>::empty());
                    assert(out@ =~= rle_decode(bytes@, bpp as int));
                }
                return out;
            }
            proof {
                assert(rest.subrange(1, 1 + bpp) =~= bytes@.subrange(
                    pos + 1,
                    pos + 1 + bpp,
                ));
                assert(rest.skip(1 + bpp) =~= bytes@.skip(pos + 1 + bpp));
            }
            let ghost pix = bytes@.subrange(pos as int + 1, pos as int + 1 + bpp);
            let ghost mid = out@;
            let mut t: usize = 0;
            while t < cnt
                invariant
                    t <= cnt,
                    1 <= bpp <= 4,
                    pos + 1 + bpp <= n,
                    n == bytes@.len(),
                    pix == bytes@.subrange(pos as int + 1, pos as int + 1 + bpp),
                    out@ == mid + repeat_seq(pix, t as int),
                decreases cnt - t,
            {
                let ghost before = out@;
                let mut j: usize = 0;
                while j < bpp
                    invariant
                        j <= bpp,
                        pos + 1 + bpp <= n,
                        n == bytes@.len(),
                        pix == bytes@.subrange(pos as int + 1, pos as int + 1 + bpp),
                        out@ == before + pix.take(j as int),
                    decreases bpp - j,
                {
                    out.push(bytes[pos + 1 + j]);
                    j = j + 1;
                    proof {
                        assert(out@ =~= before + pix.take(j as int));
                    }
                }
                proof {
                    assert(pix.take(bpp as int) =~= pix);
                    lemma_repeat_seq_snoc(pix, t as int);
                    assert(out@ =~= mid + repeat_seq(pix, t + 1));
                }
                t = t + 1;
            }
            pos = pos + 1 + bpp;
            proof {
                assert(rle_decode(rest, bpp as int) == repeat_seq(pix, cnt as int) + rle_decode(
                    bytes@.skip(pos as int),
                    bpp as int,
                ));
                assert(rle_decode(bytes@, bpp as int) =~= out@ + rle_decode(
                    bytes@.skip(pos as int),
                    bpp as int,
                ));
            }
        } else {
            let cnt = (h as usize) + 1;
            proof {
                assert(cnt * bpp <= 512) by (nonlinear_arith)
                    requires
                        cnt <= 128,
                        bpp <= 4,
                ;
            }
            let len = cnt * bpp;
            if n - pos < 1 + len {
                proof {
                    assert(rle_decode(rest, bpp as int) =~= Seq::<u8>::empty());
                    assert(out@ =~= rle_decode(bytes@, bpp as int));
                }
                return out;
            }
            proof {
                assert(rest.subrange(1, 1 + len as int) =~= bytes@.subrange(
                    pos + 1,
                    pos + 1 + len,
                ));
                assert(rest.skip(1 + len as int) =~= bytes@.skip(pos + 1 + len));
            }
            let ghost chunk = bytes@.subrange(pos as int + 1, pos as int + 1 + len);
            let ghost mid = out@;
            let mut j: usize = 0;
            while j < len
                invariant
                    j <= len,
                    pos + 1 + len <= n,
                    n == bytes@.len(),
                    chunk == bytes@.subrange(pos as int + 1, pos as int + 1 + len),
                    out@ == mid + chunk.take(j as int),
                decreases len - j,
            {
                out.push(bytes[pos + 1 + j]);
                j = j + 1;
                proof {
                    assert(out@ =~= mid + chunk.take(j as int));
                }
            }
            pos = pos + 1 + len;
            proof {
                assert(chunk.take(len as int) =~= chunk);
                assert(rle_decode(rest, bpp as int) == chunk + rle_decode(
                    bytes@.skip(pos as int),
                    bpp as int,
                ));
                assert(rle_decode(bytes@, bpp as int) =~= out@ + rle_decode(
                    bytes@.skip(pos as int),
                    bpp as int,
                ));
            }
        }
    }
    proof {
        assert(bytes@.skip(n as int) =~= Seq::<u8>::empty());
        assert(out@ =~= rle_decode(bytes@, bpp as int));
    }
    out
}

impl<T: ColorSpace> Image<T> {
    /// Serialize the buffer to the binary image format.
    pub fn encode(&self, vertical_flip: bool, run_length_encode: bool) -> (out: Vec<u8>)
        requires
            self.wf(),
            self.spec_width() <= u16::MAX,
            self.spec_height() <= u16::MAX,
        ensures
            out@ == encode_bytes(
                self.pixel_bytes(),
                self.spec_width(),
                self.spec_height(),
                T::byte_width() as int,
                vertical_flip,
                run_length_encode,
            ),
    {
        let bpp = T::byte_per_pixel();
        let mut out: Vec<u8> = Vec::new();
        // Header.
        out.push(0);
        out.push(0);
        if bpp == 1 {
            if run_length_encode {
                out.push(11);
            } else {
                out.push(3);
            }
        } else {
            if run_length_encode {
                out.push(10);
            } else {
                out.push(2);
            }
        }
        out.push(0);
        out.push(0);
        out.push(0);
        out.push(0);
        out.push(0);
        out.push(0);
        out.push(0);
        out.push(0);
        out.push(0);
        out.push((self.width() % 256) as u8);
        out.push((self.width() / 256) as u8);
        out.push((self.height() % 256) as u8);
        out.push((self.height() / 256) as u8);
        out.push(8 * bpp);
        if vertical_flip {
            out.push(0x00);
        } else {
            out.push(0x20);
        }
        proof {
            assert(out@ =~= header_bytes(
                self.spec_width(),
                self.spec_height(),
                T::byte_width() as int,
                vertical_flip,
                run_length_encode,
            ));
        }
        // Pixel payload.
        if run_length_encode {
            self.rle_data(&mut out);
        } else {
            let mut raw = self.raw_bytes();
            out.append(&mut raw);
        }
        // Trailer.
        let ghost before_trailer = out@;
        let mut k: usize = 0;
        while k < 8
            invariant
                k <= 8,
                out@ == before_trailer + trailer_bytes().take(k as int),
            decreases 8 - k,
        {
            out.push(0);
            k = k + 1;
            proof {
                assert(out@ =~= before_trailer + trailer_bytes().take(k as int));
            }
        }
        out.push(84);
        out.push(82);
        out.push(85);
        out.push(69);
        out.push(86);
        out.push(73);
        out.push(83);
        out.push(73);
        out.push(79);
        out.push(78);
        out.push(45);
        out.push(88);
        out.push(70);
        out.push(73);
        out.push(76);
        out.push(69);
        out.push(46);
        out.push(0);
        proof {
            assert(out@ =~= before_trailer + trailer_bytes());
            assert(out@ =~= encode_bytes(
                self.pixel_bytes(),
                self.spec_width(),
                self.spec_height(),
                T::byte_width() as int,
                vertical_flip,
                run_length_encode,
            ));
        }
        out
    }

    /// Append the run-length encoded pixel payload to `out`.
    fn rle_data(&self, out: &mut Vec<u8>)
        requires
            self.wf(),
        ensures
            final(out)@ == old(out)@ + rle_from(self.pixel_bytes(), 0),
    {
        let ghost p = self.pixel_bytes();
        let n = self.data.len();
        let mut cur: usize = 0;
        while cur < n
            invariant
                cur <= n,
                n == self.data@.len(),
                self.wf(),
                p == self.pixel_bytes(),
                out@ + rle_from(p, cur as int) == old(out)@ + rle_from(p, 0),
            decreases n - cur,
        {
            let is_run = cur + 1 < n && self.data[cur + 1].eq_pixel(&self.data[cur]);
            if is_run {
                // Count the run of identical pixels, the capacity included.
                let mut r: usize = 1;
                while r < 128 && cur + r < n && self.data[cur + r].eq_pixel(&self.data[cur + r - 1])
                    invariant
                        1 <= r <= 128,
                        cur + r <= n,
                        n == self.data@.len(),
                        p == self.pixel_bytes(),
                        run_span(p, cur as int, 128) == (r - 1) + run_span(
                            p,
                            cur + r - 1,
                            129 - r,
                        ),
                    decreases 128 - r,
                {
                    proof {
                        assert(run_span(p, cur + r - 1, 129 - r) == 1 + run_span(
                            p,
                            cur + r,
                            128 - r,
                        ));
                    }
                    r = r + 1;
                }
                proof {
                    assert(run_span(p, cur + r - 1, 129 - r) == 1);
                    assert(run_span(p, cur as int, 128) == r);
                    lemma_run_span_bounds(p, cur as int, 128);
                }
                out.push((127 + r) as u8);
                self.data[cur].push_bytes(out);
                proof {
                    assert(rle_from(p, cur as int) == seq![(127 + r as int) as u8] + p[cur as int]
                        + rle_from(p, cur + r));
                    assert(out@ + rle_from(p, (cur + r) as int) =~= old(out)@ + rle_from(p, 0));
                }
                cur = cur + r;
            } else {
                // Count the raw stretch: stop just before a pair of
                // identical adjacent pixels.
                let mut r: usize = 1;
                let mut dup = false;
                while r < 128 && cur + r < n && !dup
                    invariant
                        1 <= r <= 128,
                        cur + r <= n,
                        cur < n,
                        n == self.data@.len(),
                        p == self.pixel_bytes(),
                        cur + 1 < n ==> p[cur + 1] != p[cur as int],
                        !dup ==> raw_span(p, cur as int, 128) == (r - 1) + raw_span(
                            p,
                            cur + r - 1,
                            129 - r,
                        ),
                        dup ==> raw_span(p, cur as int, 128) == r - 1 && r >= 2,
                    decreases n - cur - r + (if dup { 0int } else { 1int }),
                {
                    if self.data[cur + r].eq_pixel(&self.data[cur + r - 1]) {
                        proof {
                            assert(raw_span(p, cur + r - 1, 129 - r) == 0);
                            if r == 1 {
                                // The packet opened on a pixel that differs
                                // from its successor, so the first pair
                                // cannot be identical.
                                assert(!(cur + 1 < n && p[cur + 1] == p[cur as int]));
                                assert(false);
                            }
                        }
                        dup = true;
                    } else {
                        proof {
                            assert(raw_span(p, cur + r - 1, 129 - r) == 1 + raw_span(
                                p,
                                cur + r,
                                128 - r,
                            ));
                        }
                        r = r + 1;
                    }
                }
                if dup {
                    r = r - 1;
                } else {
                    proof {
                        assert(raw_span(p, cur + r - 1, 129 - r) == 1);
                    }
                }
                proof {
                    assert(raw_span(p, cur as int, 128) == r);
                }
                out.push((r - 1) as u8);
                let ghost mid = out@;
                let mut j: usize = 0;
                while j < r
                    invariant
                        j <= r,
                        cur + r <= n,
                        n == self.data@.len(),
                        p == self.pixel_bytes(),
                        out@ == mid + flat_range(p, cur as int, cur + j),
                    decreases r - j,
                {
                    proof {
                        lemma_flat_range_split(p, cur as int, cur + j, cur + j + 1);
                        assert(flat_range(p, cur + j + 1, cur + j + 1) =~= Seq::<u8>::empty());
                        assert(flat_range(p, cur + j, cur + j + 1) =~= p[cur + j]);
                    }
                    self.data[cur + j].push_bytes(out);
                    j = j + 1;
                    proof {
                        assert(out@ =~= mid + flat_range(p, cur as int, cur + j));
                    }
                }
                proof {
                    assert(rle_from(p, cur as int) == seq![(r as int - 1) as u8] + flat_range(
                        p,
                        cur as int,
                        cur + r,
                    ) + rle_from(p, cur + r));
                    assert(out@ + rle_from(p, (cur + r) as int) =~= old(out)@ + rle_from(p, 0));
                }
                cur = cur + r;
            }
        }
        proof {
            assert(rle_from(p, n as int) =~= Seq::<u8>::empty());
            assert(final(out)@ =~= old(out)@ + rle_from(p, 0));
        }
    }
}

} // verus!
