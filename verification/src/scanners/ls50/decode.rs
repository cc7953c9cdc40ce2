//! Decode the LS-50 scan stream into an image.
//!
//! **Planar**, line-by-line: each line is one plane per channel back to back:
//! `R[plane] G[plane] B[plane]` (`... I` with infrared), top line first. Samples are
//! big-endian 16-bit; each plane is `width` samples padded even; the line is
//! block-padded to a 512 multiple. Decode = per-line de-interleave.
//!
//! [`PlanarDecoder`] streams it: feed each `READ(10)` payload to
//! [`push`](FrameDecoder::push) in arrival order, then [`finish`](FrameDecoder::finish).
//! Shared frame types and the interface live in [`crate::scanners::decode`].

use super::ScanSettings;
use crate::scanners::decode::{copy_bytes, sample_at, ImageView, MaskView, Raster};
use crate::scsi::bytes;
use vstd::prelude::*;

pub use crate::scanners::decode::{Error, Frame, FrameDecoder, FrameView};

verus! {

/// How a planar stream is laid out.
pub struct PlanarLayout {
    /// Pixels per line
    pub width: nat,
    /// Lines
    pub height: nat,
    /// Planes per line
    pub n_colors: nat,
    /// Bytes per line, the padding after the planes among them
    pub stride: nat,
}

/// Samples in one plane of a line: the width padded to an even count.
pub open spec fn plane_len(width: int) -> int {
    width + width % 2
}

/// Sample `x` of plane `c` in line `y` of a stream.
pub open spec fn planar_sample(
    width: int,
    stride: int,
    stream: Seq<u8>,
    y: int,
    c: int,
    x: int,
) -> u16 {
    bytes::be16_at(stream, y * stride + 2 * (c * plane_len(width) + x))
}

/// Whole lines in a stream of `len` bytes.
pub open spec fn whole_lines(stride: int, len: int) -> int {
    if stride == 0 {
        0
    } else {
        len / stride
    }
}

/// Sample `i` of the RGB output: triples, row after row.
pub open spec fn planar_rgb(width: int, stride: int, stream: Seq<u8>, i: int) -> u16 {
    planar_sample(width, stride, stream, i / 3 / width, i % 3, i / 3 % width)
}

/// Sample `i` of the infrared output: row after row, from the fourth plane.
pub open spec fn planar_ir(width: int, stride: int, stream: Seq<u8>, i: int) -> u16 {
    planar_sample(width, stride, stream, i / width, 3, i % width)
}

/// The frame in a planar stream: the lines that arrived whole.
pub open spec fn planar_frame(layout: PlanarLayout, stream: Seq<u8>) -> Raster {
    let rows = whole_lines(layout.stride as int, stream.len() as int) as nat;
    let (width, stride) = (layout.width as int, layout.stride as int);
    Raster {
        width: layout.width,
        height: rows,
        rgb: Seq::new(
            layout.width * rows * 3,
            |i: int| planar_rgb(width, stride, stream, i),
        ),
        ir: if layout.n_colors == 4 {
            Some(Seq::new(layout.width * rows, |i: int| planar_ir(width, stride, stream, i)))
        } else {
            None
        },
    }
}

/// Planes that are decoded: the fourth only when there are exactly four.
pub open spec fn decoded_planes(n_colors: int) -> int {
    if n_colors == 4 {
        4
    } else {
        3
    }
}

/// Whether decoders for these dimensions can be made and can decode: the planes fit in a line,
/// and the buffers, in bytes, in memory.
pub open spec fn planar_fits(width: int, height: int, n_colors: int, stride: int) -> bool {
    &&& width <= u32::MAX
    &&& 3 * width <= usize::MAX
    &&& height <= u32::MAX
    &&& stride * height <= u64::MAX
    &&& stride <= isize::MAX
    &&& width * height * 3 * 2 <= isize::MAX
    &&& width > 0 && height > 0 ==> 2 * ((decoded_planes(n_colors) - 1) * plane_len(width) + width) <= stride
}

/// Streaming decoder.
///
/// Feed `READ(10)` payloads to [`push`](FrameDecoder::push) in arrival order, then
/// call [`finish`](FrameDecoder::finish).
pub struct PlanarDecoder {
    /// Output columns (image width in pixels).
    width: usize,
    /// Lines in a whole frame.
    height: usize,
    /// Colour planes per line: 3 (RGB) or 4 (RGB + infrared).
    n_colors: usize,
    /// One colour plane's width in samples: `width` padded to an even count.
    plane: usize,
    /// On-wire bytes per line: the planes then block padding to a 512 multiple.
    stride: usize,
    /// Total frame bytes (`stride * height`); transfer completes at or before this.
    expected: u64,
    /// De-interleaved RGB output, `width * height * 3` samples, top row first.
    rgb: Vec<u16>,
    /// De-interleaved IR output, `width * height` samples; empty when RGB-only.
    ir_plane: Vec<u16>,
    /// One line of raw bytes, refilled as the stream arrives.
    staging: Vec<u8>,
    /// Bytes currently in `staging`.
    filled: usize,
    /// Complete lines emitted so far; the current output row.
    line_index: usize,
    /// Bytes received across all `push` calls.
    received: u64,
    /// The bytes that were accepted.
    stream: Ghost<Seq<u8>>,
}

/// The sample of a whole line lies within the line.
proof fn lemma_sample_in_line(width: int, stride: int, n_colors: int, y: int, c: int, x: int)
    requires
        0 <= x < width,
        0 <= c < decoded_planes(n_colors),
        0 <= y,
        2 * ((decoded_planes(n_colors) - 1) * plane_len(width) + width) <= stride,
    ensures
        0 <= c * plane_len(width) + x,
        2 * (c * plane_len(width) + x) + 2 <= stride,
        0 <= y * stride,
        y * stride + 2 * (c * plane_len(width) + x) + 2 <= (y + 1) * stride,
{
    let (plane, last) = (plane_len(width), decoded_planes(n_colors) - 1);
    assert(0 <= c * plane && c * plane <= last * plane) by (nonlinear_arith)
        requires
            0 <= c <= last,
            0 <= plane,
    ;
    assert(0 <= y * stride && (y + 1) * stride == y * stride + stride) by (nonlinear_arith)
        requires
            0 <= y,
            0 <= stride,
    ;
}

/// The output sample at row `y`, column `x`, channel `c` has that row, column and channel.
pub(super) proof fn lemma_rgb_position(width: int, y: int, x: int, c: int)
    requires
        0 <= x < width,
        0 <= y,
        0 <= c < 3,
    ensures
        ({
            let i = y * width * 3 + x * 3 + c;
            i / 3 / width == y && i % 3 == c && i / 3 % width == x
        }),
        (y * width + x) / width == y,
        (y * width + x) % width == x,
{
    let i = y * width * 3 + x * 3 + c;
    assert(i / 3 == y * width + x);
    vstd::arithmetic::div_mod::lemma_fundamental_div_mod_converse(y * width + x, width, y, x);
}

/// An output sample of the first `rows` rows has its row among them, and its column and
/// channel within bounds.
proof fn lemma_position_in_rows(width: int, rows: int, i: int)
    requires
        0 < width,
        0 <= rows,
    ensures
        0 <= i < rows * width * 3 ==> 0 <= i / 3 / width < rows && 0 <= i / 3 % width < width,
        0 <= i < rows * width ==> 0 <= i / width < rows && 0 <= i % width < width,
{
    if 0 <= i < rows * width * 3 {
        let p = i / 3;
        assert(0 <= p < rows * width);
        assert(0 <= p / width < rows && 0 <= p % width < width) by (nonlinear_arith)
            requires
                0 <= p < rows * width,
                0 < width,
        ;
    }
    if 0 <= i < rows * width {
        assert(0 <= i / width < rows && 0 <= i % width < width) by (nonlinear_arith)
            requires
                0 <= i < rows * width,
                0 < width,
        ;
    }
}

/// What a stream's whole lines decode to does not change when more of it arrives.
proof fn lemma_lines_are_settled(
    width: int,
    stride: int,
    n_colors: int,
    rows: int,
    stream: Seq<u8>,
    more: Seq<u8>,
)
    requires
        0 <= rows,
        rows * stride <= stream.len(),
        width > 0 ==> 2 * ((decoded_planes(n_colors) - 1) * plane_len(width) + width) <= stride,
        0 <= width,
        0 <= stride,
    ensures
        forall|i: int|
            0 <= i < rows * width * 3 ==> #[trigger] planar_rgb(width, stride, stream + more, i)
                == planar_rgb(width, stride, stream, i),
        n_colors == 4 ==> forall|i: int|
            0 <= i < rows * width ==> #[trigger] planar_ir(width, stride, stream + more, i)
                == planar_ir(width, stride, stream, i),
{
    assert forall|i: int| 0 <= i < rows * width * 3 implies #[trigger] planar_rgb(
        width,
        stride,
        stream + more,
        i,
    ) == planar_rgb(width, stride, stream, i) by {
        if width > 0 {
            lemma_position_in_rows(width, rows, i);
            let (y, x) = (i / 3 / width, i / 3 % width);
            lemma_sample_in_line(width, stride, n_colors, y, i % 3, x);
            assert((y + 1) * stride <= rows * stride) by (nonlinear_arith)
                requires
                    y + 1 <= rows,
                    0 <= stride,
            ;
        } else {
            assert(rows * width * 3 == 0) by (nonlinear_arith)
                requires
                    width == 0,
            ;
        }
    }
    if n_colors == 4 {
        assert forall|i: int| 0 <= i < rows * width implies #[trigger] planar_ir(
            width,
            stride,
            stream + more,
            i,
        ) == planar_ir(width, stride, stream, i) by {
            if width > 0 {
                lemma_position_in_rows(width, rows, i);
                let (y, x) = (i / width, i % width);
                lemma_sample_in_line(width, stride, n_colors, y, 3, x);
                assert((y + 1) * stride <= rows * stride) by (nonlinear_arith)
                    requires
                        y + 1 <= rows,
                        0 <= stride,
                ;
            } else {
                assert(rows * width == 0) by (nonlinear_arith)
                    requires
                        width == 0,
                ;
            }
        }
    }
}

impl PlanarDecoder {
    /// The buffers fit the layout.
    spec fn buffers_fit(&self) -> bool {
        &&& planar_fits(
            self.width as int,
            self.height as int,
            self.n_colors as int,
            self.stride as int,
        )
        &&& self.plane == plane_len(self.width as int)
        &&& self.expected == self.stride * self.height
        &&& self.rgb@.len() == self.width * self.height * 3
        &&& self.ir_plane@.len() == if self.n_colors == 4 {
            self.width * self.height
        } else {
            0
        }
        &&& self.staging@.len() == self.stride
    }

    /// The first `rows` rows of the output are decoded from the stream.
    spec fn rows_decoded(&self, rows: int, stream: Seq<u8>) -> bool {
        &&& forall|i: int|
            0 <= i < rows * self.width * 3 ==> #[trigger] self.rgb@[i] == planar_rgb(
                self.width as int,
                self.stride as int,
                stream,
                i,
            )
        &&& self.n_colors == 4 ==> forall|i: int|
            0 <= i < rows * self.width ==> #[trigger] self.ir_plane@[i] == planar_ir(
                self.width as int,
                self.stride as int,
                stream,
                i,
            )
    }

    /// The staged bytes are the start of line `line_index`.
    spec fn staged(&self, stream: Seq<u8>) -> bool {
        &&& stream.len() == self.line_index * self.stride + self.filled
        &&& forall|j: int|
            0 <= j < self.filled ==> #[trigger] self.staging@[j] == stream[self.line_index
                * self.stride + j]
    }

    /// The settings are those of `other`.
    spec fn same_shape(&self, other: &Self) -> bool {
        &&& self.width == other.width
        &&& self.height == other.height
        &&& self.n_colors == other.n_colors
        &&& self.plane == other.plane
        &&& self.stride == other.stride
        &&& self.expected == other.expected
    }

    /// Decoder sized for `settings`' output geometry.
    pub fn new(settings: &ScanSettings) -> (r: Result<Self, Error>)
        requires
            settings_fit(*settings),
        ensures
            r matches Ok(decoder) && {
                &&& decoder.wf()
                &&& decoder.layout() == settings_layout(*settings)
                &&& decoder.offered() == 0
                &&& decoder.stream() == Seq::<u8>::empty()
            },
    {
        proof {
            settings.lemma_grid_pitch();
            settings.lemma_line_len();
        }
        let (width, height) = settings.output_dims();
        Ok(
            Self::from_dims(
                width as usize,
                height as usize,
                settings.n_colors(),
                settings.bytes_per_line(),
            ),
        )
    }

    /// Decoder from explicit dims/channels/stride; `new` derives these from geometry.
    pub fn from_dims(width: usize, height: usize, n_colors: usize, bytes_per_line: usize) -> (r:
        Self)
        requires
            planar_fits(width as int, height as int, n_colors as int, bytes_per_line as int),
        ensures
            r.wf(),
            r.layout() == (PlanarLayout {
                width: width as nat,
                height: height as nat,
                n_colors: n_colors as nat,
                stride: bytes_per_line as nat,
            }),
            r.offered() == 0,
            r.stream() == Seq::<u8>::empty(),
    {
        proof {
            assert(width * height <= width * height * 3) by (nonlinear_arith)
                requires
                    0 <= width,
                    0 <= height,
            ;
            assert(0 <= width * height) by (nonlinear_arith)
                requires
                    0 <= width,
                    0 <= height,
            ;
            assert(0 * bytes_per_line == 0);
            assert(0 * width * 3 == 0);
        }
        Self {
            width,
            height,
            n_colors,
            plane: width + width % 2,
            stride: bytes_per_line,
            expected: bytes_per_line as u64 * height as u64,
            rgb: vec![0u16; width * height * 3],
            ir_plane: if n_colors == 4 {
                vec![0u16; width * height]
            } else {
                Vec::new()
            },
            staging: vec![0u8; bytes_per_line],
            filled: 0,
            line_index: 0,
            received: 0,
            stream: Ghost(Seq::empty()),
        }
    }

    /// De-interleave the staged line's planes into the current output row:
    /// planes 0/1/2 into RGB, plane 3 into the IR mask when present.
    fn emit(&mut self)
        requires
            old(self).buffers_fit(),
            old(self).line_index < old(self).height,
            old(self).filled == old(self).stride,
            old(self).staged(old(self).stream@),
            old(self).rows_decoded(old(self).line_index as int, old(self).stream@),
        ensures
            final(self).same_shape(old(self)),
            final(self).buffers_fit(),
            final(self).rows_decoded(old(self).line_index + 1, old(self).stream@),
            forall|i: int|
                (old(self).line_index + 1) * old(self).width * 3 <= i < old(self).rgb@.len()
                    ==> #[trigger] final(self).rgb@[i] == old(self).rgb@[i],
            forall|i: int|
                (old(self).line_index + 1) * old(self).width <= i < old(self).ir_plane@.len()
                    ==> #[trigger] final(self).ir_plane@[i] == old(self).ir_plane@[i],
            final(self).staging@ == old(self).staging@,
            final(self).filled == old(self).filled,
            final(self).line_index == old(self).line_index,
            final(self).received == old(self).received,
            final(self).stream == old(self).stream,
    {
        let width: usize = self.width;
        let plane: usize = self.plane;
        let line: usize = self.line_index;
        let ghost stream = self.stream@;
        let ghost stride = self.stride as int;
        let ghost n_colors = self.n_colors as int;
        let ghost shape = *self;
        proof {
            assert(line * width * 3 + width * 3 <= width * self.height * 3) by (nonlinear_arith)
                requires
                    line + 1 <= self.height,
                    0 <= width,
            ;
            assert(0 <= line * width && line * width <= line * width * 3) by (nonlinear_arith)
                requires
                    0 <= line,
                    0 <= width,
            ;
        }
        let rgb_base: usize = line * width * 3;
        for x in 0..width
            invariant
                self.same_shape(&shape),
                self.buffers_fit(),
                shape.buffers_fit(),
                self.line_index == line,
                self.staging@ == shape.staging@,
                self.filled == shape.filled,
                self.received == shape.received,
                self.stream == shape.stream,
                self.ir_plane@ == shape.ir_plane@,
                shape.staged(stream),
                shape.filled == stride,
                shape.line_index == line,
                width == shape.width,
                plane == shape.plane,
                stride == shape.stride,
                n_colors == shape.n_colors,
                rgb_base == line * width * 3,
                rgb_base + width * 3 <= self.rgb@.len(),
                forall|i: int|
                    0 <= i < rgb_base + x * 3 ==> #[trigger] self.rgb@[i] == planar_rgb(
                        width as int,
                        stride,
                        stream,
                        i,
                    ),
                forall|i: int|
                    rgb_base + x * 3 <= i < self.rgb@.len() ==> #[trigger] self.rgb@[i]
                        == shape.rgb@[i],
        {
            proof {
                lemma_sample_in_line(width as int, stride, n_colors, line as int, 0, x as int);
                lemma_sample_in_line(width as int, stride, n_colors, line as int, 1, x as int);
                lemma_sample_in_line(width as int, stride, n_colors, line as int, 2, x as int);
                lemma_rgb_position(width as int, line as int, x as int, 0);
                lemma_rgb_position(width as int, line as int, x as int, 1);
                lemma_rgb_position(width as int, line as int, x as int, 2);
            }
            let at: usize = rgb_base + x * 3;
            let r: u16 = sample_at(self.staging.as_slice(), x);
            let g: u16 = sample_at(self.staging.as_slice(), plane + x);
            let b: u16 = sample_at(self.staging.as_slice(), 2 * plane + x);
            self.rgb.set(at, r);
            self.rgb.set(at + 1, g);
            self.rgb.set(at + 2, b);
        }
        if self.n_colors == 4 {
            proof {
                assert(line * width + width <= width * self.height) by (nonlinear_arith)
                    requires
                        line + 1 <= self.height,
                        0 <= width,
                ;
            }
            let ir_base: usize = line * width;
            let ghost rgb_done = self.rgb@;
            for x in 0..width
                invariant
                    self.same_shape(&shape),
                    self.buffers_fit(),
                    shape.buffers_fit(),
                    self.line_index == line,
                    self.staging@ == shape.staging@,
                    self.filled == shape.filled,
                    self.received == shape.received,
                    self.stream == shape.stream,
                    self.rgb@ == rgb_done,
                    shape.staged(stream),
                    shape.filled == stride,
                    shape.line_index == line,
                    width == shape.width,
                    plane == shape.plane,
                    stride == shape.stride,
                    n_colors == shape.n_colors,
                    n_colors == 4,
                    ir_base == line * width,
                    ir_base + width <= self.ir_plane@.len(),
                    forall|i: int|
                        0 <= i < ir_base + x ==> #[trigger] self.ir_plane@[i] == planar_ir(
                            width as int,
                            stride,
                            stream,
                            i,
                        ),
                    forall|i: int|
                        ir_base + x <= i < self.ir_plane@.len() ==> #[trigger] self.ir_plane@[i]
                            == shape.ir_plane@[i],
            {
                proof {
                    lemma_sample_in_line(width as int, stride, n_colors, line as int, 3, x as int);
                    lemma_rgb_position(width as int, line as int, x as int, 0);
                }
                let i: u16 = sample_at(self.staging.as_slice(), 3 * plane + x);
                self.ir_plane.set(ir_base + x, i);
            }
        }
        proof {
            assert((line + 1) * width * 3 == rgb_base + width * 3) by (nonlinear_arith)
                requires
                    rgb_base == line * width * 3,
            ;
            assert((line + 1) * width == line * width + width) by (nonlinear_arith);
        }
    }
}

/// The layout of the stream that `settings` ask for.
pub open spec fn settings_layout(settings: ScanSettings) -> PlanarLayout {
    PlanarLayout {
        width: settings.columns() as nat,
        height: settings.rows() as nat,
        n_colors: settings.planes() as nat,
        stride: settings.line_len() as nat,
    }
}

/// Whether a decoder for `settings` fits in memory.
pub open spec fn settings_fit(settings: ScanSettings) -> bool {
    planar_fits(
        settings.columns(),
        settings.rows(),
        settings.planes(),
        settings.line_len(),
    )
}

impl FrameDecoder for PlanarDecoder {
    type Layout = PlanarLayout;

    closed spec fn wf(&self) -> bool {
        &&& self.buffers_fit()
        &&& self.staged(self.stream@)
        &&& self.rows_decoded(self.line_index as int, self.stream@)
        &&& self.filled == 0 || self.filled < self.stride
        &&& self.line_index <= self.height
        &&& self.stream@.len() <= self.received
        &&& self.stream@.len() <= self.expected
        &&& self.received <= self.expected ==> self.stream@.len() == self.received
        &&& self.stride == 0 ==> self.line_index == 0
    }

    closed spec fn layout(&self) -> PlanarLayout {
        PlanarLayout {
            width: self.width as nat,
            height: self.height as nat,
            n_colors: self.n_colors as nat,
            stride: self.stride as nat,
        }
    }

    open spec fn frame_len(layout: PlanarLayout) -> nat {
        layout.stride * layout.height
    }

    closed spec fn offered(&self) -> nat {
        self.received as nat
    }

    closed spec fn stream(&self) -> Seq<u8> {
        self.stream@
    }

    open spec fn decoded(layout: PlanarLayout, offered: nat, stream: Seq<u8>) -> Result<
        Raster,
        Error,
    > {
        Ok(planar_frame(layout, stream))
    }

    fn push(&mut self, bytes: &[u8]) -> (r: Result<(), Error>) {
        let len: usize = bytes.len();
        self.received = self.received + len as u64;
        if self.received > self.expected {
            return Err(Error::LengthMismatch { got: self.received, expected: self.expected });
        }
        let ghost before = self.stream@;
        let ghost shape = *self;
        let mut pos: usize = 0;
        assert(bytes@.take(0) =~= Seq::<u8>::empty());
        assert(before + bytes@.take(0) =~= before);
        while pos < len
            invariant
                len == bytes@.len(),
                pos <= len,
                self.same_shape(&shape),
                self.received == shape.received,
                self.received <= self.expected,
                before.len() + len == self.received,
                self.buffers_fit(),
                self.staged(self.stream@),
                self.rows_decoded(self.line_index as int, self.stream@),
                self.filled == 0 || self.filled < self.stride,
                self.line_index <= self.height,
                self.stride == 0 ==> self.line_index == 0,
                self.stream@ == before + bytes@.take(pos as int),
            decreases len - pos,
        {
            let ghost line = self.line_index as int;
            let ghost stride = self.stride as int;
            proof {
                // Bytes are left, so the frame has bytes left, so there are lines left.
                assert(stride > 0) by {
                    if stride == 0 {
                        assert(stride * self.height == 0);
                    }
                }
                assert(line < self.height) by {
                    if line >= self.height {
                        assert(line * stride >= stride * self.height) by (nonlinear_arith)
                            requires
                                line >= self.height,
                                stride >= 0,
                        ;
                    }
                }
            }
            let room: usize = self.stride - self.filled;
            let left: usize = len - pos;
            let take: usize = if room < left {
                room
            } else {
                left
            };
            let ghost old_stream = self.stream@;
            let ghost more = bytes@.subrange(pos as int, pos + take);
            proof {
                lemma_lines_are_settled(
                    self.width as int,
                    stride,
                    self.n_colors as int,
                    line,
                    old_stream,
                    more,
                );
            }
            copy_bytes(&mut self.staging, self.filled, bytes, pos, take);
            self.filled = self.filled + take;
            pos = pos + take;
            self.stream = Ghost(old_stream + more);
            assert(before + bytes@.take(pos as int) =~= old_stream + more);
            if self.filled == self.stride {
                self.emit();
                self.filled = 0;
                self.line_index = self.line_index + 1;
                assert((line + 1) * stride == line * stride + stride) by (nonlinear_arith);
            }
        }
        assert(bytes@.take(len as int) =~= bytes@);
        Ok(())
    }

    /// Lenient on a short stream: the read loop stops on end-of-data, so the frame is
    /// the lines that arrived (a trailing partial line in `staging` is dropped).
    fn finish(&mut self) -> (r: Result<FrameView<'_>, Error>) {
        let rows: u32 = self.line_index as u32;
        let width: u32 = self.width as u32;
        proof {
            let (w, n, h) = (self.width as int, self.line_index as int, self.height as int);
            assert(0 <= n * w && n * w * 3 <= w * h * 3 && n * w <= w * h) by (nonlinear_arith)
                requires
                    0 <= n <= h,
                    0 <= w,
            ;
            assert(n * w == w * n && n * w * 3 == 3 * w * n) by (nonlinear_arith);
            if self.stride > 0 {
                vstd::arithmetic::div_mod::lemma_fundamental_div_mod_converse(
                    self.stream@.len() as int,
                    self.stride as int,
                    n,
                    self.filled as int,
                );
            }
        }
        let samples: usize = self.line_index * self.width;
        let rgb = ImageView::from_raw(
            width,
            rows,
            vstd::slice::slice_subrange(self.rgb.as_slice(), 0, samples * 3),
        ).unwrap();
        let ir = if self.n_colors == 4 {
            Some(
                MaskView::from_raw(
                    width,
                    rows,
                    vstd::slice::slice_subrange(self.ir_plane.as_slice(), 0, samples),
                ).unwrap(),
            )
        } else {
            None
        };
        let view = FrameView { rgb, ir };
        proof {
            let frame = planar_frame(self.layout(), self.stream@);
            assert(view@.rgb =~= frame.rgb);
            if self.n_colors == 4 {
                assert(view@.ir->0 =~= frame.ir->0);
            }
            assert(view@ == frame);
        }
        Ok(view)
    }

    fn reset(&mut self) {
        self.filled = 0;
        self.line_index = 0;
        self.received = 0;
        self.stream = Ghost(Seq::empty());
    }
}

} // verus!
