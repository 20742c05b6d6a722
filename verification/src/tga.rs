//! Pixel formats and the pixel buffer of the TGA image codec.
//!
//! A buffer is a row-major array of `width * height` pixels of a single
//! format; each format serializes a pixel into a fixed number of bytes in
//! the format's storage order (blue-green-red for the color formats).

use vstd::prelude::*;
use rand::Rng;

verus! {

/// A pixel format: a fixed byte width, a zero value, and a serialization of
/// each pixel into exactly that many bytes, in the format's storage order.
pub trait ColorSpace: Copy + Sized {
    /// The bytes that stand for this pixel in the binary image format.
    spec fn spec_bytes(self) -> Seq<u8>;

    /// Number of bytes per pixel.
    spec fn byte_width() -> nat;

    /// The format's zero value.
    spec fn spec_zero() -> Self;

    proof fn lemma_spec_bytes_len(self)
        ensures
            self.spec_bytes().len() == Self::byte_width(),
    ;

    /// The zero value of the format.
    fn new() -> (c: Self)
        ensures
            c == Self::spec_zero(),
    ;

    /// Byte width of the format, as a value.
    fn byte_per_pixel() -> (w: u8)
        ensures
            w as nat == Self::byte_width(),
            1 <= w <= 4,
    ;

    /// Append this pixel's bytes to `out`.
    fn push_bytes(&self, out: &mut Vec<u8>)
        ensures
            final(out)@ == old(out)@ + self.spec_bytes(),
    ;

    /// Two pixels serialize to the same bytes exactly when this returns true.
    fn eq_pixel(&self, other: &Self) -> (r: bool)
        ensures
            r == (self.spec_bytes() == other.spec_bytes()),
    ;
}

/// One-byte intensity.
#[derive(Copy, Clone, PartialEq, Eq, Debug)]
pub struct Grayscale {
    pub i: u8,
}

/// Three bytes, stored in blue-green-red order.
#[derive(Copy, Clone, PartialEq, Eq, Debug)]
pub struct RGB {
    pub b: u8,
    pub g: u8,
    pub r: u8,
}

/// Four bytes, stored in blue-green-red-alpha order.
#[derive(Copy, Clone, PartialEq, Eq, Debug)]
pub struct RGBA {
    pub b: u8,
    pub g: u8,
    pub r: u8,
    pub a: u8,
}

impl ColorSpace for Grayscale {
    open spec fn spec_bytes(self) -> Seq<u8> {
        seq![self.i]
    }

    open spec fn byte_width() -> nat {
        1
    }

    open spec fn spec_zero() -> Self {
        Grayscale { i: 0 }
    }

    proof fn lemma_spec_bytes_len(self) {
    }

    fn new() -> (c: Self) {
        Grayscale { i: 0 }
    }

    fn byte_per_pixel() -> (w: u8) {
        1
    }

    fn push_bytes(&self, out: &mut Vec<u8>) {
        out.push(self.i);
        proof {
            assert(final(out)@ =~= old(out)@ + self.spec_bytes());
        }
    }

    fn eq_pixel(&self, other: &Self) -> (r: bool) {
        proof {
            if self.i == other.i {
                assert(self.spec_bytes() =~= other.spec_bytes());
            }
            if self.spec_bytes() == other.spec_bytes() {
                assert(self.spec_bytes()[0] == other.spec_bytes()[0]);
            }
        }
        self.i == other.i
    }
}

impl ColorSpace for RGB {
    open spec fn spec_bytes(self) -> Seq<u8> {
        seq![self.b, self.g, self.r]
    }

    open spec fn byte_width() -> nat {
        3
    }

    open spec fn spec_zero() -> Self {
        RGB { b: 0, g: 0, r: 0 }
    }

    proof fn lemma_spec_bytes_len(self) {
    }

    fn new() -> (c: Self) {
        RGB { r: 0, g: 0, b: 0 }
    }

    fn byte_per_pixel() -> (w: u8) {
        3
    }

    fn push_bytes(&self, out: &mut Vec<u8>) {
        out.push(self.b);
        out.push(self.g);
        out.push(self.r);
        proof {
            assert(final(out)@ =~= old(out)@ + self.spec_bytes());
        }
    }

    fn eq_pixel(&self, other: &Self) -> (r: bool) {
        proof {
            if self.b == other.b && self.g == other.g && self.r == other.r {
                assert(self.spec_bytes() =~= other.spec_bytes());
            }
            if self.spec_bytes() == other.spec_bytes() {
                assert(self.spec_bytes()[0] == other.spec_bytes()[0]);
                assert(self.spec_bytes()[1] == other.spec_bytes()[1]);
                assert(self.spec_bytes()[2] == other.spec_bytes()[2]);
            }
        }
        self.b == other.b && self.g == other.g && self.r == other.r
    }
}

impl ColorSpace for RGBA {
    open spec fn spec_bytes(self) -> Seq<u8> {
        seq![self.b, self.g, self.r, self.a]
    }

    open spec fn byte_width() -> nat {
        4
    }

    open spec fn spec_zero() -> Self {
        RGBA { b: 0, g: 0, r: 0, a: 0 }
    }

    proof fn lemma_spec_bytes_len(self) {
    }

    fn new() -> (c: Self) {
        RGBA { r: 0, g: 0, b: 0, a: 0 }
    }

    fn byte_per_pixel() -> (w: u8) {
        4
    }

    fn push_bytes(&self, out: &mut Vec<u8>) {
        out.push(self.b);
        out.push(self.g);
        out.push(self.r);
        out.push(self.a);
        proof {
            assert(final(out)@ =~= old(out)@ + self.spec_bytes());
        }
    }

    fn eq_pixel(&self, other: &Self) -> (r: bool) {
        proof {
            if self.b == other.b && self.g == other.g && self.r == other.r && self.a == other.a {
                assert(self.spec_bytes() =~= other.spec_bytes());
            }
            if self.spec_bytes() == other.spec_bytes() {
                assert(self.spec_bytes()[0] == other.spec_bytes()[0]);
                assert(self.spec_bytes()[1] == other.spec_bytes()[1]);
                assert(self.spec_bytes()[2] == other.spec_bytes()[2]);
                assert(self.spec_bytes()[3] == other.spec_bytes()[3]);
            }
        }
        self.b == other.b && self.g == other.g && self.r == other.r && self.a == other.a
    }
}

/// Opaque white, as a specification value.
pub open spec fn spec_white() -> RGBA {
    RGBA { r: 255, g: 255, b: 255, a: 255 }
}

/// Opaque black, as a specification value.
pub open spec fn spec_black() -> RGBA {
    RGBA { r: 0, g: 0, b: 0, a: 255 }
}

/// Opaque red, as a specification value.
pub open spec fn spec_red() -> RGBA {
    RGBA { r: 255, g: 0, b: 0, a: 255 }
}

/// Opaque green, as a specification value.
pub open spec fn spec_green() -> RGBA {
    RGBA { r: 0, g: 255, b: 0, a: 255 }
}

/// Opaque blue, as a specification value.
pub open spec fn spec_blue() -> RGBA {
    RGBA { r: 0, g: 0, b: 255, a: 255 }
}

/// Opaque white.
pub fn white() -> (c: RGBA)
    ensures
        c == spec_white(),
{
    RGBA { r: 255, g: 255, b: 255, a: 255 }
}

/// Opaque black.
pub fn black() -> (c: RGBA)
    ensures
        c == spec_black(),
{
    RGBA { r: 0, g: 0, b: 0, a: 255 }
}

/// Opaque red.
pub fn red() -> (c: RGBA)
    ensures
        c == spec_red(),
{
    RGBA { r: 255, g: 0, b: 0, a: 255 }
}

/// Opaque green.
pub fn green() -> (c: RGBA)
    ensures
        c == spec_green(),
{
    RGBA { r: 0, g: 255, b: 0, a: 255 }
}

/// Opaque blue.
pub fn blue() -> (c: RGBA)
    ensures
        c == spec_blue(),
{
    RGBA { r: 0, g: 0, b: 255, a: 255 }
}

/// The condition returned when a pixel write names a coordinate outside the
/// buffer.
#[derive(Copy, Clone, PartialEq, Eq, Structural, Debug)]
pub struct OutOfBounds;

/// A 2D pixel buffer: `width * height` pixels of one format, row-major,
/// index `x + y * width`, origin at the top-left.
pub struct Image<T: ColorSpace> {
    pub(crate) width: usize,
    pub(crate) height: usize,
    pub(crate) data: Vec<T>,
}

/// The bytes of the pixel range `[i, j)` of `p`, concatenated in order.
pub open spec fn flat_range(p: Seq<Seq<u8>>, i: int, j: int) -> Seq<u8>
    decreases j - i,
{
    if i >= j {
        Seq::empty()
    } else {
        p[i] + flat_range(p, i + 1, j)
    }
}

/// Splitting a byte-flattened pixel range at any point in the middle.
pub proof fn lemma_flat_range_split(p: Seq<Seq<u8>>, i: int, k: int, j: int)
    requires
        i <= k <= j,
    ensures
        flat_range(p, i, j) == flat_range(p, i, k) + flat_range(p, k, j),
    decreases k - i,
{
    if i >= k {
        assert(flat_range(p, i, k) == Seq::<u8>::empty());
        assert(flat_range(p, i, j) =~= flat_range(p, i, k) + flat_range(p, k, j));
    } else {
        lemma_flat_range_split(p, i + 1, k, j);
        assert(flat_range(p, i, j) =~= flat_range(p, i, k) + flat_range(p, k, j));
    }
}

/// The length of a byte-flattened pixel range whose pixels all have width `w`.
pub proof fn lemma_flat_range_len(p: Seq<Seq<u8>>, i: int, j: int, w: int)
    requires
        0 <= i <= j <= p.len(),
        forall|k: int| 0 <= k < p.len() ==> (#[trigger] p[k]).len() == w,
    ensures
        flat_range(p, i, j).len() == (j - i) * w,
    decreases j - i,
{
    if i >= j {
        assert(flat_range(p, i, j) == Seq::<u8>::empty());
        assert((j - i) * w == 0) by (nonlinear_arith)
            requires
                i == j,
        ;
    } else {
        lemma_flat_range_len(p, i + 1, j, w);
        assert(p[i].len() == w);
        assert(flat_range(p, i, j) == p[i] + flat_range(p, i + 1, j));
        assert(flat_range(p, i, j).len() == w + flat_range(p, i + 1, j).len());
        assert((j - i) * w == w + (j - i - 1) * w) by (nonlinear_arith);
    }
}

impl<T: ColorSpace> Image<T> {
    /// Width in pixels.
    pub open(crate) spec fn spec_width(&self) -> int {
        self.width as int
    }

    /// Height in pixels.
    pub open(crate) spec fn spec_height(&self) -> int {
        self.height as int
    }

    /// The stored pixels, row-major.
    pub open(crate) spec fn pixels(&self) -> Seq<T> {
        self.data@
    }

    /// Each pixel as its serialized bytes.
    pub open(crate) spec fn pixel_bytes(&self) -> Seq<Seq<u8>> {
        self.data@.map(|i: int, t: T| t.spec_bytes())
    }

    /// The buffer invariant: positive dimensions and exactly
    /// `width * height` stored pixels.
    pub open(crate) spec fn wf(&self) -> bool {
        &&& self.width >= 1
        &&& self.height >= 1
        &&& self.data@.len() == self.spec_width() * self.spec_height()
    }

    /// A buffer filled with the format's zero value.
    pub fn new(width: usize, height: usize) -> (img: Self)
        requires
            1 <= width,
            1 <= height,
            width * height <= usize::MAX,
        ensures
            img.wf(),
            img.spec_width() == width,
            img.spec_height() == height,
            img.pixels() == Seq::new((width * height) as nat, |i: int| T::spec_zero()),
    {
        let n = width * height;
        let mut data: Vec<T> = Vec::new();
        let mut i: usize = 0;
        while i < n
            invariant
                i <= n,
                data@ == Seq::new(i as nat, |j: int| T::spec_zero()),
            decreases n - i,
        {
            data.push(T::new());
            i = i + 1;
            proof {
                assert(data@ =~= Seq::new(i as nat, |j: int| T::spec_zero()));
            }
        }
        Image { width, height, data }
    }

    /// Width in pixels.
    pub fn width(&self) -> (w: usize)
        ensures
            w == self.spec_width(),
    {
        self.width
    }

    /// Height in pixels.
    pub fn height(&self) -> (h: usize)
        ensures
            h == self.spec_height(),
    {
        self.height
    }

    /// Overwrite the pixel at `(x, y)`; the coordinates must already be known
    /// to be inside the buffer.
    pub fn set_unchecked(&mut self, x: usize, y: usize, c: T)
        requires
            old(self).wf(),
            x < old(self).spec_width(),
            y < old(self).spec_height(),
        ensures
            final(self).wf(),
            final(self).spec_width() == old(self).spec_width(),
            final(self).spec_height() == old(self).spec_height(),
            final(self).pixels() == old(self).pixels().update(
                x + y * old(self).spec_width(),
                c,
            ),
    {
        proof {
            assert(x + y * self.spec_width() < self.spec_width() * self.spec_height())
                by (nonlinear_arith)
                requires
                    x < self.spec_width(),
                    y < self.spec_height(),
                    self.spec_width() >= 1,
                    self.spec_height() >= 1,
            ;
        }
        let n = self.data.len();
        let idx = x + y * self.width;
        self.data[idx] = c;
    }

    /// Overwrite the pixel at `(x, y)`, or return `OutOfBounds` (leaving the
    /// buffer unchanged) exactly when `x >= width` or `y >= height`.
    pub fn set(&mut self, x: usize, y: usize, c: T) -> (r: Result<(), OutOfBounds>)
        requires
            old(self).wf(),
        ensures
            final(self).wf(),
            final(self).spec_width() == old(self).spec_width(),
            final(self).spec_height() == old(self).spec_height(),
            x < old(self).spec_width() && y < old(self).spec_height() ==> r is Ok
                && final(self).pixels() == old(self).pixels().update(
                x + y * old(self).spec_width(),
                c,
            ),
            !(x < old(self).spec_width() && y < old(self).spec_height()) ==> r is Err
                && *final(self) == *old(self),
    {
        if x >= self.width {
            return Err(OutOfBounds);
        } else if y >= self.height {
            return Err(OutOfBounds);
        }
        self.set_unchecked(x, y, c);
        Ok(())
    }

    /// Read the pixel at `(x, y)`, or `None` outside the buffer.
    pub fn get(&self, x: usize, y: usize) -> (r: Option<T>)
        requires
            self.wf(),
        ensures
            x < self.spec_width() && y < self.spec_height() ==> r == Some(
                self.pixels()[x + y * self.spec_width()],
            ),
            !(x < self.spec_width() && y < self.spec_height()) ==> r is None,
    {
        if x >= self.width || y >= self.height {
            return None;
        }
        proof {
            assert(x + y * self.spec_width() < self.spec_width() * self.spec_height())
                by (nonlinear_arith)
                requires
                    x < self.spec_width(),
                    y < self.spec_height(),
                    self.spec_width() >= 1,
                    self.spec_height() >= 1,
            ;
        }
        let n = self.data.len();
        let idx = x + y * self.width;
        Some(self.data[idx])
    }

    /// Overwrite every pixel with `c`.
    pub fn clear(&mut self, c: T)
        requires
            old(self).wf(),
        ensures
            final(self).wf(),
            final(self).spec_width() == old(self).spec_width(),
            final(self).spec_height() == old(self).spec_height(),
            final(self).pixels() == Seq::new(old(self).pixels().len(), |i: int| c),
    {
        let n = self.data.len();
        let mut i: usize = 0;
        while i < n
            invariant
                i <= n,
                self.width == old(self).width,
                self.height == old(self).height,
                self.data@.len() == n,
                old(self).wf(),
                forall|j: int| 0 <= j < i ==> self.data@[j] == c,
                forall|j: int| i <= j < n ==> self.data@[j] == old(self).data@[j],
            decreases n - i,
        {
            self.data[i] = c;
            i = i + 1;
        }
        proof {
            assert(self.pixels() =~= Seq::new(old(self).pixels().len(), |i: int| c));
        }
    }

    /// The buffer's pixel memory as one contiguous byte sequence in the
    /// format's storage order.
    pub fn raw_bytes(&self) -> (r: Vec<u8>)
        requires
            self.wf(),
        ensures
            r@ == flat_range(self.pixel_bytes(), 0, self.pixels().len() as int),
    {
        let mut out: Vec<u8> = Vec::new();
        let n = self.data.len();
        let mut i: usize = 0;
        while i < n
            invariant
                i <= n,
                n == self.data@.len(),
                out@ == flat_range(self.pixel_bytes(), 0, i as int),
            decreases n - i,
        {
            proof {
                lemma_flat_range_split(self.pixel_bytes(), 0, i as int, i + 1);
                assert(flat_range(self.pixel_bytes(), i + 1, i + 1) =~= Seq::<u8>::empty());
                assert(flat_range(self.pixel_bytes(), i as int, i + 1) =~= self.pixel_bytes()[i as int]);
            }
            self.data[i].push_bytes(&mut out);
            i = i + 1;
        }
        out
    }
}

/// The gray intensity of a color: `0.3 * R + 0.6 * G + 0.11 * B`, truncated
/// to an integer and capped at the largest byte value.
pub open spec fn spec_luminance(r: u8, g: u8, b: u8) -> u8 {
    let v = (30 * (r as int) + 60 * (g as int) + 11 * (b as int)) / 100;
    if v > 255 {
        255u8
    } else {
        v as u8
    }
}

/// The gray intensity of a color, as a value.
pub fn luminance(r: u8, g: u8, b: u8) -> (v: u8)
    ensures
        v == spec_luminance(r, g, b),
{
    let w: u32 = (30 * (r as u32) + 60 * (g as u32) + 11 * (b as u32)) / 100;
    if w > 255 {
        255
    } else {
        w as u8
    }
}

impl From<RGBA> for RGB {
    /// Drop the alpha channel.
    fn from(rgba: RGBA) -> (c: Self) {
        Self { r: rgba.r, g: rgba.g, b: rgba.b }
    }
}

impl vstd::std_specs::convert::FromSpecImpl<RGBA> for RGB {
    open spec fn obeys_from_spec() -> bool {
        true
    }

    open spec fn from_spec(t: RGBA) -> Self {
        RGB { r: t.r, g: t.g, b: t.b }
    }
}

impl From<RGB> for RGBA {
    /// Add a fully opaque alpha channel.
    fn from(rgb: RGB) -> (c: Self) {
        Self { r: rgb.r, g: rgb.g, b: rgb.b, a: 255 }
    }
}

impl vstd::std_specs::convert::FromSpecImpl<RGB> for RGBA {
    open spec fn obeys_from_spec() -> bool {
        true
    }

    open spec fn from_spec(t: RGB) -> Self {
        RGBA { r: t.r, g: t.g, b: t.b, a: 255 }
    }
}

impl From<Grayscale> for RGBA {
    /// Spread the intensity over the color channels, fully opaque.
    fn from(g: Grayscale) -> (c: Self) {
        Self { r: g.i, g: g.i, b: g.i, a: 255 }
    }
}

impl vstd::std_specs::convert::FromSpecImpl<Grayscale> for RGBA {
    open spec fn obeys_from_spec() -> bool {
        true
    }

    open spec fn from_spec(t: Grayscale) -> Self {
        RGBA { r: t.i, g: t.i, b: t.i, a: 255 }
    }
}

impl From<Grayscale> for RGB {
    /// Spread the intensity over the color channels.
    fn from(g: Grayscale) -> (c: Self) {
        Self { r: g.i, g: g.i, b: g.i }
    }
}

impl vstd::std_specs::convert::FromSpecImpl<Grayscale> for RGB {
    open spec fn obeys_from_spec() -> bool {
        true
    }

    open spec fn from_spec(t: Grayscale) -> Self {
        RGB { r: t.i, g: t.i, b: t.i }
    }
}

impl From<RGBA> for Grayscale {
    /// Reduce to the luminance of the color channels.
    fn from(rgba: RGBA) -> (c: Self) {
        Self { i: luminance(rgba.r, rgba.g, rgba.b) }
    }
}

impl vstd::std_specs::convert::FromSpecImpl<RGBA> for Grayscale {
    open spec fn obeys_from_spec() -> bool {
        true
    }

    open spec fn from_spec(t: RGBA) -> Self {
        Grayscale { i: spec_luminance(t.r, t.g, t.b) }
    }
}

impl From<RGB> for Grayscale {
    /// Reduce to the luminance of the color channels.
    fn from(rgb: RGB) -> (c: Self) {
        Self { i: luminance(rgb.r, rgb.g, rgb.b) }
    }
}

impl vstd::std_specs::convert::FromSpecImpl<RGB> for Grayscale {
    open spec fn obeys_from_spec() -> bool {
        true
    }

    open spec fn from_spec(t: RGB) -> Self {
        Grayscale { i: spec_luminance(t.r, t.g, t.b) }
    }
}

/// Relies on rand::thread_rng and rand::Rng::gen: returns a u8; nothing is
/// promised of the value.
#[verifier::external_body]
fn random_u8() -> u8 {
    rand::thread_rng().gen::<u8>()
}

impl RGBA {
    /// A color with random channels and full opacity.
    pub fn random_color() -> (c: Self)
        ensures
            c.a == 255,
    {
        Self { r: random_u8(), g: random_u8(), b: random_u8(), a: 255 }
    }
}

impl RGB {
    /// A color with random channels.
    pub fn random_color() -> Self {
        Self { r: random_u8(), g: random_u8(), b: random_u8() }
    }
}

} // verus!
