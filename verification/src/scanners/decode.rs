//! Frame types and the streaming-decode interface shared by both scanners.
//!
//! Wire layout differs per model (LS-50 planar, LS-9000 interleave-block), but
//! both stream `READ(10)` payloads the same way: push in order, then finish.
//! Concrete decoders: `PlanarDecoder`, `InterleaveDecoder`.

use crate::scsi::bytes;
use image::{ImageBuffer, Luma, Rgb};
use vstd::prelude::*;

verus! {

/// Why a stream cannot be decoded.
#[derive(Debug, Clone, Copy, PartialEq, Eq)]
pub enum Error {
    /// The scan window does not divide evenly at this resolution.
    IndivisibleWindow,
    /// The stage extent is not a multiple of the CCD block.
    UnalignedStageExtent { stages: u32, block: u32 },
    /// The stream is not as long as the frame.
    LengthMismatch { got: u64, expected: u64 },
}

/// A frame as a mathematical object: rows of RGB triples, top row first, and the rows of
/// infrared samples if there are any.
#[verifier::ext_equal]
pub struct Raster {
    pub width: nat,
    pub height: nat,
    pub rgb: Seq<u16>,
    pub ir: Option<Seq<u16>>,
}

impl Raster {
    /// Every pixel has its samples and there are no others.
    pub open spec fn wf(self) -> bool {
        &&& self.rgb.len() == self.width * self.height * 3
        &&& self.ir matches Some(ir) ==> ir.len() == self.width * self.height
    }
}

/// `ImageBuffer::from_raw` for 16-bit RGB, handing back the buffer it was given
/// (`ImageBuffer::into_raw`). An image is made if and only if the samples are enough for it,
/// three per pixel, and those of one row can be counted in a machine word; more than enough is
/// accepted, and the buffer keeps all of them.
#[verifier::external_body]
fn rgb_from_raw<'a>(width: u32, height: u32, samples: &'a [u16]) -> (r: Option<&'a [u16]>)
    ensures
        r is Some <==> (3 * width <= usize::MAX && 3 * width * height <= samples@.len()),
        r matches Some(kept) ==> kept@ == samples@,
{
    ImageBuffer::<Rgb<u16>, &'a [u16]>::from_raw(width, height, samples).map(|image| image.into_raw())
}

/// `ImageBuffer::from_raw` for 16-bit grey, handing back the buffer it was given
/// (`ImageBuffer::into_raw`). A mask is made if and only if the samples are enough for it, one
/// per pixel; more than enough is accepted, and the buffer keeps all of them.
#[verifier::external_body]
fn luma_from_raw<'a>(width: u32, height: u32, samples: &'a [u16]) -> (r: Option<&'a [u16]>)
    ensures
        r is Some <==> width * height <= samples@.len(),
        r matches Some(kept) ==> kept@ == samples@,
{
    ImageBuffer::<Luma<u16>, &'a [u16]>::from_raw(width, height, samples).map(|mask| mask.into_raw())
}

/// A borrowed 16-bit RGB image: `height` rows of `width` interleaved triples.
#[derive(Debug, Clone, Copy)]
pub struct ImageView<'a> {
    pub width: u32,
    pub height: u32,
    pub samples: &'a [u16],
}

/// A borrowed 16-bit grey image: `height` rows of `width` samples.
#[derive(Debug, Clone, Copy)]
pub struct MaskView<'a> {
    pub width: u32,
    pub height: u32,
    pub samples: &'a [u16],
}

impl<'a> ImageView<'a> {
    /// The image in `samples`, if they are enough for it.
    pub fn from_raw(width: u32, height: u32, samples: &'a [u16]) -> (r: Option<Self>)
        ensures
            r is Some <==> (3 * width <= usize::MAX && 3 * width * height <= samples@.len()),
            r matches Some(view) ==> view.width == width && view.height == height
                && view.samples@ == samples@,
    {
        match rgb_from_raw(width, height, samples) {
            Some(samples) => Some(ImageView { width, height, samples }),
            None => None,
        }
    }
}

impl<'a> MaskView<'a> {
    /// The mask in `samples`, if they are enough for it.
    pub fn from_raw(width: u32, height: u32, samples: &'a [u16]) -> (r: Option<Self>)
        ensures
            r is Some <==> width * height <= samples@.len(),
            r matches Some(view) ==> view.width == width && view.height == height
                && view.samples@ == samples@,
    {
        match luma_from_raw(width, height, samples) {
            Some(samples) => Some(MaskView { width, height, samples }),
            None => None,
        }
    }
}

/// A 16-bit RGB image: `height` rows of `width` interleaved triples.
#[derive(Debug)]
pub struct Image {
    pub width: u32,
    pub height: u32,
    pub samples: Vec<u16>,
}

/// A 16-bit grey image: `height` rows of `width` samples.
#[derive(Debug)]
pub struct IrMask {
    pub width: u32,
    pub height: u32,
    pub samples: Vec<u16>,
}

/// Sample `c` of pixel `(x, y)` in rows of `width` pixels with `per_pixel` samples each.
pub open spec fn sample_index(width: int, per_pixel: int, x: int, y: int, c: int) -> int {
    (y * width + x) * per_pixel + c
}

/// A pixel within the image has its samples within the rows.
proof fn lemma_sample_index(width: int, height: int, per_pixel: int, x: int, y: int, c: int)
    requires
        0 <= x < width,
        0 <= y < height,
        0 <= c < per_pixel,
    ensures
        0 <= y * width + x < width * height,
        0 <= sample_index(width, per_pixel, x, y, c) < width * height * per_pixel,
{
    assert(y * width + x < width * height && 0 <= y * width) by (nonlinear_arith)
        requires
            0 <= x < width,
            0 <= y < height,
    ;
    let pixel = y * width + x;
    let pixels = width * height;
    assert(0 <= pixel * per_pixel && pixel * per_pixel + c < pixels * per_pixel)
        by (nonlinear_arith)
        requires
            0 <= pixel < pixels,
            0 <= c < per_pixel,
    ;
}

impl Image {
    /// Every pixel has its three samples.
    pub open spec fn wf(&self) -> bool {
        self.samples@.len() == self.width * self.height * 3
    }

    pub fn dimensions(&self) -> (r: (u32, u32))
        ensures
            r == (self.width, self.height),
    {
        (self.width, self.height)
    }

    /// The red, green and blue samples of pixel `(x, y)`.
    pub fn get_pixel(&self, x: u32, y: u32) -> (r: [u16; 3])
        requires
            self.wf(),
            x < self.width,
            y < self.height,
        ensures
            forall|c: int|
                0 <= c < 3 ==> #[trigger] r@[c] == self.samples@[sample_index(
                    self.width as int,
                    3,
                    x as int,
                    y as int,
                    c,
                )],
    {
        proof {
            lemma_sample_index(self.width as int, self.height as int, 3, x as int, y as int, 0);
            lemma_sample_index(self.width as int, self.height as int, 3, x as int, y as int, 2);
            assert(y * self.width <= u32::MAX * u32::MAX) by (nonlinear_arith)
                requires
                    y <= u32::MAX,
                    self.width <= u32::MAX,
            ;
        }
        let len: usize = self.samples.len();
        assert(y * self.width <= len);
        let i: usize = (y as usize * self.width as usize + x as usize) * 3;
        [self.samples[i], self.samples[i + 1], self.samples[i + 2]]
    }
}

impl IrMask {
    /// Every pixel has its sample.
    pub open spec fn wf(&self) -> bool {
        self.samples@.len() == self.width * self.height
    }

    pub fn dimensions(&self) -> (r: (u32, u32))
        ensures
            r == (self.width, self.height),
    {
        (self.width, self.height)
    }

    /// The sample of pixel `(x, y)`.
    pub fn get_pixel(&self, x: u32, y: u32) -> (r: u16)
        requires
            self.wf(),
            x < self.width,
            y < self.height,
        ensures
            r == self.samples@[sample_index(self.width as int, 1, x as int, y as int, 0)],
    {
        proof {
            lemma_sample_index(self.width as int, self.height as int, 1, x as int, y as int, 0);
        }
        let len: usize = self.samples.len();
        assert(y * self.width <= len);
        self.samples[y as usize * self.width as usize + x as usize]
    }
}

/// A decoded frame that borrows the decoder's buffers.
pub struct FrameView<'a> {
    /// The image data read out from the scanner.
    pub rgb: ImageView<'a>,
    /// The optional IR mask for dust removal.
    pub ir: Option<MaskView<'a>>,
}

/// An owned decoded frame.
pub struct Frame {
    /// The image data read out from the scanner.
    pub rgb: Image,
    /// The optional IR mask for dust removal.
    pub ir: Option<IrMask>,
}

impl<'a> FrameView<'a> {
    /// The mask, if there is one, has the size of the image.
    pub open spec fn wf(&self) -> bool {
        &&& self.ir matches Some(ir) ==> ir.width == self.rgb.width && ir.height == self.rgb.height
        &&& self@.wf()
    }
}

impl<'a> View for FrameView<'a> {
    type V = Raster;

    open spec fn view(&self) -> Raster {
        Raster {
            width: self.rgb.width as nat,
            height: self.rgb.height as nat,
            rgb: self.rgb.samples@,
            ir: match self.ir {
                Some(ir) => Some(ir.samples@),
                None => None,
            },
        }
    }
}

impl Frame {
    /// The mask, if there is one, has the size of the image.
    pub open spec fn wf(&self) -> bool {
        &&& self.ir matches Some(ir) ==> ir.width == self.rgb.width && ir.height == self.rgb.height
        &&& self@.wf()
    }
}

impl View for Frame {
    type V = Raster;

    open spec fn view(&self) -> Raster {
        Raster {
            width: self.rgb.width as nat,
            height: self.rgb.height as nat,
            rgb: self.rgb.samples@,
            ir: match self.ir {
                Some(ir) => Some(ir.samples@),
                None => None,
            },
        }
    }
}

impl<'a> FrameView<'a> {
    /// Copy into owned buffers, so the frame outlives the decoder's reuse.
    pub fn to_owned(&self) -> (r: Frame)
        ensures
            r@ == self@,
            self.wf() ==> r.wf(),
            r.ir matches Some(ir) ==> self.ir matches Some(from) && ir.width == from.width
                && ir.height == from.height,
    {
        Frame {
            rgb: Image {
                width: self.rgb.width,
                height: self.rgb.height,
                samples: vstd::slice::slice_to_vec(self.rgb.samples),
            },
            ir: match self.ir {
                Some(ir) => Some(
                    IrMask {
                        width: ir.width,
                        height: ir.height,
                        samples: vstd::slice::slice_to_vec(ir.samples),
                    },
                ),
                None => None,
            },
        }
    }
}

/// What a push of `bytes` does to the bytes accepted and offered so far: all of them are
/// taken, or, if the frame has no room for them, none.
pub open spec fn push_effect(
    frame_len: nat,
    offered: nat,
    stream: Seq<u8>,
    bytes: Seq<u8>,
    new_offered: nat,
    new_stream: Seq<u8>,
    r: Result<(), Error>,
) -> bool {
    &&& new_offered == offered + bytes.len()
    &&& if new_offered <= frame_len {
        &&& r == Ok::<(), Error>(())
        &&& new_stream == stream + bytes
    } else {
        &&& r == Err::<(), Error>(
            Error::LengthMismatch { got: new_offered as u64, expected: frame_len as u64 },
        )
        &&& new_stream == stream
    }
}

/// Feed `READ(10)` payloads to [`push`](Self::push) in order, then [`finish`](Self::finish).
pub trait FrameDecoder: Sized {
    /// What fixes how a stream is decoded.
    type Layout;

    /// The buffers fit the layout and hold what has been decoded so far.
    spec fn wf(&self) -> bool;

    spec fn layout(&self) -> Self::Layout;

    /// Bytes in a whole frame.
    spec fn frame_len(layout: Self::Layout) -> nat;

    /// Bytes offered since the frame began, the refused ones among them.
    spec fn offered(&self) -> nat;

    /// Bytes accepted since the frame began.
    spec fn stream(&self) -> Seq<u8>;

    /// The frame in `stream`, of which `offered` bytes were offered.
    spec fn decoded(layout: Self::Layout, offered: nat, stream: Seq<u8>) -> Result<Raster, Error>;

    /// Take the next bytes of the stream, all of them or none: a stream longer than the frame
    /// is refused, and so is everything after it until the next frame.
    fn push(&mut self, bytes: &[u8]) -> (r: Result<(), Error>)
        requires
            old(self).wf(),
            old(self).offered() + bytes@.len() <= u64::MAX,
        ensures
            final(self).wf(),
            final(self).layout() == old(self).layout(),
            push_effect(
                Self::frame_len(old(self).layout()),
                old(self).offered(),
                old(self).stream(),
                bytes@,
                final(self).offered(),
                final(self).stream(),
                r,
            ),
    ;

    /// Borrows the decoder's buffers: only valid until the next push/reset.
    /// [`FrameView::to_owned`] to keep it.
    fn finish(&mut self) -> (r: Result<FrameView<'_>, Error>)
        requires
            old(self).wf(),
        ensures
            *final(self) == *old(self),
            match r {
                Ok(view) => view.wf() && Self::decoded(
                    old(self).layout(),
                    old(self).offered(),
                    old(self).stream(),
                ) == Ok::<Raster, Error>(view@),
                Err(err) => Self::decoded(
                    old(self).layout(),
                    old(self).offered(),
                    old(self).stream(),
                ) == Err::<Raster, Error>(err),
            },
    ;

    /// Reuse the buffers for the next frame.
    fn reset(&mut self)
        requires
            old(self).wf(),
        ensures
            final(self).wf(),
            final(self).layout() == old(self).layout(),
            final(self).offered() == 0,
            final(self).stream() == Seq::<u8>::empty(),
    ;
}

/// Whether pushing `bytes` to the decoder `before` leaves `after` and returns `r`.
pub open spec fn pushed<D: FrameDecoder>(
    before: D,
    bytes: Seq<u8>,
    after: D,
    r: Result<(), Error>,
) -> bool {
    &&& after.layout() == before.layout()
    &&& push_effect(
        D::frame_len(before.layout()),
        before.offered(),
        before.stream(),
        bytes,
        after.offered(),
        after.stream(),
        r,
    )
}

/// A push is taken if and only if the frame has room for everything offered up to it. Then its
/// bytes stand behind those before, in their order, and nothing else changes; else none is kept,
/// and the failure says how much was offered and how much there is room for.
pub proof fn lemma_push_is_taken_whole<D: FrameDecoder>(
    before: D,
    bytes: Seq<u8>,
    after: D,
    r: Result<(), Error>,
)
    requires
        pushed(before, bytes, after, r),
        D::frame_len(before.layout()) <= u64::MAX,
        before.offered() + bytes.len() <= u64::MAX,
    ensures
        after.layout() == before.layout(),
        after.offered() == before.offered() + bytes.len(),
        r is Ok <==> before.offered() + bytes.len() <= D::frame_len(before.layout()),
        r is Ok ==> {
            let n = before.stream().len();
            &&& after.stream().len() == n + bytes.len()
            &&& forall|i: int| 0 <= i < n ==> #[trigger] after.stream()[i] == before.stream()[i]
            &&& forall|i: int| 0 <= i < bytes.len() ==> after.stream()[n + i] == #[trigger] bytes[i]
        },
        r matches Err(err) ==> {
            &&& after.stream() == before.stream()
            &&& err matches Error::LengthMismatch { got, expected } && got == before.offered()
                + bytes.len() && expected == D::frame_len(before.layout())
        },
{
}

/// How a stream is split into pushes does not matter: two pushes leave what one push of both
/// parts leaves, so long as the frame has room for both.
pub proof fn lemma_split_pushes<D: FrameDecoder>(
    start: D,
    first: Seq<u8>,
    middle: D,
    r_first: Result<(), Error>,
    second: Seq<u8>,
    split: D,
    r_second: Result<(), Error>,
    whole: D,
    r_whole: Result<(), Error>,
)
    requires
        pushed(start, first, middle, r_first),
        pushed(middle, second, split, r_second),
        pushed(start, first + second, whole, r_whole),
    ensures
        split.layout() == whole.layout(),
        split.offered() == whole.offered(),
        r_second == r_whole,
        r_whole is Ok ==> split.stream() == whole.stream(),
        r_whole is Ok ==> D::decoded(split.layout(), split.offered(), split.stream())
            == D::decoded(whole.layout(), whole.offered(), whole.stream()),
{
    assert(start.stream() + first + second =~= start.stream() + (first + second));
}

/// A stream that was once longer than its frame stays refused until the next frame.
pub proof fn lemma_overlong_stays_refused<D: FrameDecoder>(
    before: D,
    bytes: Seq<u8>,
    after: D,
    r: Result<(), Error>,
)
    requires
        before.offered() > D::frame_len(before.layout()),
        pushed(before, bytes, after, r),
    ensures
        r is Err,
        after.offered() > D::frame_len(after.layout()),
        after.stream() == before.stream(),
{
}

/// A decoder that was reset decodes the next frame as a new one does: whatever it held before,
/// the same bytes give the same frame.
pub proof fn lemma_reset_is_fresh<D: FrameDecoder>(
    reset: D,
    fresh: D,
    bytes: Seq<u8>,
    after_reset: D,
    r_reset: Result<(), Error>,
    after_fresh: D,
    r_fresh: Result<(), Error>,
)
    requires
        reset.layout() == fresh.layout(),
        reset.offered() == 0,
        fresh.offered() == 0,
        reset.stream() == Seq::<u8>::empty(),
        fresh.stream() == Seq::<u8>::empty(),
        pushed(reset, bytes, after_reset, r_reset),
        pushed(fresh, bytes, after_fresh, r_fresh),
    ensures
        r_reset == r_fresh,
        D::decoded(after_reset.layout(), after_reset.offered(), after_reset.stream()) == D::decoded(
            after_fresh.layout(),
            after_fresh.offered(),
            after_fresh.stream(),
        ),
{
}

/// Sample `i` of `buf`: two bytes per sample, big-endian.
pub open spec fn wire_sample(buf: Seq<u8>, i: int) -> u16 {
    bytes::be16_at(buf, 2 * i)
}

/// Read one big-endian sample (`i` in samples; 2 wire bytes each).
pub fn sample_at(buf: &[u8], i: usize) -> (r: u16)
    requires
        2 * i + 2 <= buf@.len(),
    ensures
        r == wire_sample(buf@, i as int),
{
    let len: usize = buf.len();
    bytes::read_be16(buf, 2 * i)
}

/// Copy `n` bytes of `src`, from offset `from`, over those of `dst` at offset `at`.
pub(crate) fn copy_bytes(dst: &mut Vec<u8>, at: usize, src: &[u8], from: usize, n: usize)
    requires
        at + n <= old(dst)@.len(),
        from + n <= src@.len(),
    ensures
        final(dst)@.len() == old(dst)@.len(),
        forall|j: int|
            0 <= j < final(dst)@.len() ==> #[trigger] final(dst)@[j] == if at <= j < at + n {
                src@[from + j - at]
            } else {
                old(dst)@[j]
            },
{
    let dst_len: usize = dst.len();
    let src_len: usize = src.len();
    for k in 0..n
        invariant
            dst_len == dst@.len(),
            dst_len == old(dst)@.len(),
            src_len == src@.len(),
            at + n <= dst_len,
            from + n <= src_len,
            forall|j: int|
                0 <= j < dst@.len() ==> #[trigger] dst@[j] == if at <= j < at + k {
                    src@[from + j - at]
                } else {
                    old(dst)@[j]
                },
    {
        dst.set(at + k, src[from + k]);
    }
}

} // verus!
