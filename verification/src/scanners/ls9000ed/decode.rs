//! Decoding the LS-9000's raw scan stream into an image.
//!
//! Interleave-block layout. The shared frame types and the streaming interface
//! live in [`crate::scanners::decode`].

use super::ScanSettings;
use crate::scanners::decode::{copy_bytes, sample_at, ImageView, MaskView, Raster};
use crate::scanners::decode as shared;
use vstd::prelude::*;

pub use crate::scanners::decode::{Error, Frame, FrameDecoder, FrameView};

verus! {

/// Sensor pixels processed per inner tile, chosen so both the input runs and the output tile
/// stay in L2 during the transpose
const CHUNK: usize = 256;

/// How an interleave-block stream is laid out.
///
/// A *sample* is one 16-bit value: one channel, at one sensor pixel, from one CCD line, in one
/// readout. A stage position is `3 * multisample` colour readouts, with an infrared one after
/// the first three if there is any; a readout is one sweep of the sensor bar across all lines;
/// a block is `block` stage positions, which make `block * lines` output columns.
#[verifier::ext_equal]
pub struct InterleaveLayout {
    /// Output columns
    pub width: int,
    /// Output rows (sensor pixels)
    pub height: int,
    /// CCD lines per readout
    pub lines: int,
    /// Stage positions per block
    pub block: int,
    /// Readings per stage position
    pub multisample: int,
    /// Whether there is an infrared readout
    pub ir: bool,
}

impl InterleaveLayout {
    /// Three lines or one, at least one position per block and one reading per position, and a
    /// whole number of blocks.
    pub open spec fn wf(self) -> bool {
        &&& self.lines == 1 || self.lines == 3
        &&& 0 <= self.width
        &&& 0 <= self.height
        &&& 1 <= self.block
        &&& 1 <= self.multisample <= 16
        &&& self.width % self.strip() == 0
    }

    /// Output columns per block.
    pub open spec fn strip(self) -> int {
        self.block * self.lines
    }

    /// Blocks in the stream.
    pub open spec fn blocks(self) -> int {
        self.width / self.strip()
    }

    /// Samples in one readout.
    pub open spec fn readout_samples(self) -> int {
        self.height * self.lines
    }

    /// Readouts per stage position.
    pub open spec fn readouts(self) -> int {
        3 * self.multisample + if self.ir { 1int } else { 0 }
    }

    /// Samples per stage position.
    pub open spec fn stage_samples(self) -> int {
        self.readouts() * self.readout_samples()
    }

    /// Bytes per block.
    pub open spec fn block_bytes(self) -> int {
        self.block * self.stage_samples() * 2
    }

    /// The readout that holds channel `c` (0 red, 1 green, 2 blue, 3 infrared) of reading `s`.
    /// Infrared is read with the first reading only, after its colours.
    pub open spec fn slot(self, c: int, s: int) -> int {
        if c >= 3 {
            3
        } else if s == 0 {
            c
        } else {
            3 + (if self.ir { 1int } else { 0 }) + (s - 1) * 3 + c
        }
    }

    /// Where, within its block, the first readout has the sample for column `col` of the strip
    /// and sensor pixel `p`. A block's columns run line after line, so the column splits into a
    /// stage position and a line.
    pub open spec fn base(self, col: int, p: int) -> int {
        let stage = if self.lines == 3 { col % self.block } else { col };
        let line = if self.lines == 3 { col / self.block } else { 0 };
        stage * self.stage_samples() + line + p * self.lines
    }

    /// The sample of readout `slot` for column `col` and sensor pixel `p` of a block.
    pub open spec fn block_sample(self, block: Seq<u8>, col: int, p: int, slot: int) -> u16 {
        shared::wire_sample(block, self.base(col, p) + slot * self.readout_samples())
    }

    /// The sum of the first `n` readings of channel `c`.
    pub open spec fn reading_sum(self, block: Seq<u8>, col: int, p: int, c: int, n: nat) -> int
        decreases n,
    {
        if n == 0 {
            0
        } else {
            self.reading_sum(block, col, p, c, (n - 1) as nat) + self.block_sample(
                block,
                col,
                p,
                self.slot(c, n - 1),
            )
        }
    }

    /// Channel `c` of a pixel: the mean of its readings, rounded down.
    pub open spec fn channel(self, block: Seq<u8>, col: int, p: int, c: int) -> u16 {
        (self.reading_sum(block, col, p, c, self.multisample as nat) / self.multisample) as u16
    }

    /// Block `b` of a stream.
    pub open spec fn block_of(self, stream: Seq<u8>, b: int) -> Seq<u8> {
        stream.subrange(b * self.block_bytes(), (b + 1) * self.block_bytes())
    }

    /// Channel `c` of the pixel in column `x` and row `y`. The sensor bar reads out opposite to
    /// increasing `y`.
    pub open spec fn pixel(self, stream: Seq<u8>, x: int, y: int, c: int) -> u16 {
        self.channel(
            self.block_of(stream, x / self.strip()),
            x % self.strip(),
            self.height - 1 - y,
            c,
        )
    }

    /// The infrared sample of the pixel in column `x` and row `y`.
    pub open spec fn infrared(self, stream: Seq<u8>, x: int, y: int) -> u16 {
        self.block_sample(
            self.block_of(stream, x / self.strip()),
            x % self.strip(),
            self.height - 1 - y,
            3,
        )
    }

    /// Sample `i` of the RGB output: triples, row after row.
    pub open spec fn rgb_at(self, stream: Seq<u8>, i: int) -> u16 {
        self.pixel(stream, i / 3 % self.width, i / 3 / self.width, i % 3)
    }

    /// Sample `i` of the infrared output: row after row.
    pub open spec fn ir_at(self, stream: Seq<u8>, i: int) -> u16 {
        self.infrared(stream, i % self.width, i / self.width)
    }

    /// The frame in a whole stream.
    pub open spec fn frame(self, stream: Seq<u8>) -> Raster {
        Raster {
            width: self.width as nat,
            height: self.height as nat,
            rgb: Seq::new((self.width * self.height * 3) as nat, |i: int| self.rgb_at(stream, i)),
            ir: if self.ir {
                Some(Seq::new((self.width * self.height) as nat, |i: int| self.ir_at(stream, i)))
            } else {
                None
            },
        }
    }

    /// Whether a decoder's buffers, in bytes, fit in memory.
    pub open spec fn fits(self) -> bool {
        &&& self.width <= u32::MAX
        &&& self.height <= u32::MAX
        &&& self.width * self.height * 3 * 2 <= isize::MAX
        &&& self.block_bytes() <= isize::MAX
        &&& 3 * self.width <= isize::MAX
        &&& self.blocks() * self.block_bytes() <= u64::MAX
    }
}

/// The geometry of a stream, resolved to machine words.
#[derive(Clone, Copy)]
struct Shape {
    /// Output columns (stage positions x CCD lines)
    width: usize,
    /// Output rows (active sensor pixels)
    height: usize,
    /// CCD lines per readout: 3, or 1 in single-line mode
    lines: usize,
    /// Stage positions per interleave block; equivalently the CCD line spacing in output
    /// columns (`N = 12/k`). 1 in single-line mode
    block: usize,
    /// Multi-sample repeats per stage position
    multisample: usize,
    /// Whether an infrared readout is present
    ir: bool,
    /// Samples in one readout: one sweep of the sensor bar across all lines
    readout_samples: usize,
    /// Samples per stage position (`readouts * readout_samples`)
    stage_stride: usize,
}

impl Shape {
    spec fn layout(self) -> InterleaveLayout {
        InterleaveLayout {
            width: self.width as int,
            height: self.height as int,
            lines: self.lines as int,
            block: self.block as int,
            multisample: self.multisample as int,
            ir: self.ir,
        }
    }

    spec fn wf(self) -> bool {
        &&& self.layout().wf()
        &&& self.layout().fits()
        &&& self.readout_samples == self.layout().readout_samples()
        &&& self.stage_stride == self.layout().stage_samples()
    }

    /// Which readout slot holds channel `c` on repeat `s`.
    ///
    /// Channels are `0=R, 1=G, 2=B, 3=IR`. Infrared exists only on repeat 0.
    fn readout_of(&self, c: usize, s: usize) -> (r: usize)
        requires
            c <= 3,
            s < 16,
        ensures
            r == self.layout().slot(c as int, s as int),
    {
        if c >= 3 {
            3
        } else if s == 0 {
            c
        } else {
            3 + (if self.ir { 1usize } else { 0 }) + (s - 1) * 3 + c
        }
    }
}

/// Every readout a block has for a column of its strip and a sensor pixel lies in the block.
proof fn lemma_sample_in_block(l: InterleaveLayout, col: int, p: int, slot: int)
    requires
        l.wf(),
        0 <= col < l.strip(),
        0 <= p < l.height,
        0 <= slot < l.readouts(),
    ensures
        0 <= l.base(col, p),
        0 <= slot * l.readout_samples(),
        2 * (l.base(col, p) + slot * l.readout_samples()) + 2 <= l.block_bytes(),
{
    let (block, lines, height) = (l.block, l.lines, l.height);
    let stage = if lines == 3 { col % block } else { col };
    let line = if lines == 3 { col / block } else { 0 };
    assert(0 <= stage < block && 0 <= line < lines) by {
        if lines == 3 {
            assert(0 <= col % block < block && 0 <= col / block < 3) by (nonlinear_arith)
                requires
                    0 <= col < block * 3,
                    1 <= block,
            ;
        }
    }
    let rsamp = l.readout_samples();
    assert(0 <= p * lines && p * lines + line < rsamp) by (nonlinear_arith)
        requires
            0 <= p < height,
            0 <= line < lines,
            rsamp == height * lines,
    ;
    let readouts = l.readouts();
    let ss = l.stage_samples();
    assert(0 <= slot * rsamp && slot * rsamp + rsamp <= ss) by (nonlinear_arith)
        requires
            0 <= slot < readouts,
            0 <= rsamp,
            ss == readouts * rsamp,
    ;
    assert(0 <= stage * ss && stage * ss + ss <= block * ss) by (nonlinear_arith)
        requires
            0 <= stage < block,
            0 <= ss,
    ;
}

/// Every reading of every channel has a readout.
proof fn lemma_slot_in_range(l: InterleaveLayout, c: int, s: int)
    requires
        0 <= c < 3,
        0 <= s < l.multisample,
    ensures
        0 <= l.slot(c, s) < l.readouts(),
{
}

/// The readings of a channel, fewer than all of them, do not add up to more than their count
/// times the largest sample.
proof fn lemma_reading_sum_bound(
    l: InterleaveLayout,
    block: Seq<u8>,
    col: int,
    p: int,
    c: int,
    n: nat,
)
    ensures
        0 <= l.reading_sum(block, col, p, c, n) <= n * 0xFFFF,
    decreases n,
{
    if n > 0 {
        lemma_reading_sum_bound(l, block, col, p, c, (n - 1) as nat);
    }
}

impl Shape {
    /// One channel of a pixel: the only reading, or the mean of all of them. `base` is where
    /// the first readout has the pixel.
    fn channel(&self, staging: &[u8], base: usize, c: usize, Ghost(col): Ghost<int>, Ghost(p): Ghost<
        int,
    >) -> (r: u16)
        requires
            self.wf(),
            c < 3,
            0 <= col < self.layout().strip(),
            0 <= p < self.height,
            base == self.layout().base(col, p),
            staging@.len() == self.layout().block_bytes(),
        ensures
            r == self.layout().channel(staging@, col, p, c as int),
    {
        let ghost l = self.layout();
        let len: usize = staging.len();
        let rsamp: usize = self.readout_samples;
        if self.multisample == 1 {
            // Readout slot for channel c is just c.
            proof {
                lemma_slot_in_range(l, c as int, 0);
                lemma_sample_in_block(l, col, p, c as int);
                reveal_with_fuel(InterleaveLayout::reading_sum, 2);
            }
            return sample_at(staging, base + c * rsamp);
        }
        let m: u32 = self.multisample as u32;
        let mut acc: u32 = 0;
        for rep in 0..self.multisample
            invariant
                self.wf(),
                l == self.layout(),
                c < 3,
                rsamp == l.readout_samples(),
                0 <= col < l.strip(),
                0 <= p < self.height,
                base == l.base(col, p),
                len == staging@.len(),
                len == l.block_bytes(),
                acc == l.reading_sum(staging@, col, p, c as int, rep as nat),
        {
            proof {
                lemma_slot_in_range(l, c as int, rep as int);
                lemma_sample_in_block(l, col, p, l.slot(c as int, rep as int));
                lemma_reading_sum_bound(l, staging@, col, p, c as int, rep as nat);
            }
            let idx: usize = base + self.readout_of(c, rep) * rsamp;
            acc = acc + sample_at(staging, idx) as u32;
        }
        proof {
            lemma_reading_sum_bound(l, staging@, col, p, c as int, self.multisample as nat);
            assert(acc / m <= 0xFFFF) by (nonlinear_arith)
                requires
                    0 <= acc <= m * 0xFFFF,
                    1 <= m,
            ;
        }
        (acc / m) as u16
    }
}

/// Streaming decoder.
/// Feed `READ(10)` payloads to [`push`](FrameDecoder::push) in arrival order, then call
/// [`finish`](FrameDecoder::finish)
pub struct InterleaveDecoder {
    shape: Shape,
    /// Total stream length in bytes; the transfer is complete at this count
    expected: u64,
    // --- unscrambled output ---
    rgb: Vec<u16>,
    ir_plane: Vec<u16>,
    // --- streaming state ---
    /// One interleave block of raw bytes, refilled as the stream arrives.
    staging: Vec<u8>,
    /// Bytes currently in `staging`.
    filled: usize,
    /// Blocks emitted so far; the left edge of the current output strip.
    block_index: usize,
    /// Bytes received across all `push` calls.
    received: u64,
    /// The bytes that were accepted.
    stream: Ghost<Seq<u8>>,
}

/// Whether column `xx` of a strip is written at sensor pixel `pp`, once the sweep has done all
/// pixels before `p0`, the columns before `col` up to `p1`, and column `col` up to `p`.
spec fn swept(xx: int, pp: int, p0: int, p1: int, col: int, p: int) -> bool {
    ||| pp < p0
    ||| pp < p1 && xx < col
    ||| xx == col && pp < p
}

/// Whether the output sample in column `x` and row `y` is written: it lies left of the strip at
/// `first`, or in it where the sweep has been.
spec fn written(
    l: InterleaveLayout,
    x: int,
    y: int,
    first: int,
    p0: int,
    p1: int,
    col: int,
    p: int,
) -> bool {
    ||| x < first
    ||| x < first + l.strip() && swept(x - first, l.height - 1 - y, p0, p1, col, p)
}

/// The written samples of the outputs are those of the frame.
spec fn outputs_right(
    l: InterleaveLayout,
    rgb: Seq<u16>,
    ir: Seq<u16>,
    stream: Seq<u8>,
    first: int,
    p0: int,
    p1: int,
    col: int,
    p: int,
) -> bool {
    &&& forall|i: int|
        0 <= i < rgb.len() && written(
            l,
            i / 3 % l.width,
            i / 3 / l.width,
            first,
            p0,
            p1,
            col,
            p,
        ) ==> #[trigger] rgb[i] == l.rgb_at(stream, i)
    &&& l.ir ==> forall|i: int|
        0 <= i < ir.len() && written(l, i % l.width, i / l.width, first, p0, p1, col, p)
            ==> #[trigger] ir[i] == l.ir_at(stream, i)
}

/// The samples in columns outside the strip at `first` are those they were before.
spec fn outside_kept(
    l: InterleaveLayout,
    first: int,
    old_rgb: Seq<u16>,
    old_ir: Seq<u16>,
    rgb: Seq<u16>,
    ir: Seq<u16>,
) -> bool {
    &&& rgb.len() == old_rgb.len()
    &&& ir.len() == old_ir.len()
    &&& forall|i: int|
        0 <= i < rgb.len() && !(first <= i / 3 % l.width < first + l.strip())
            ==> #[trigger] rgb[i] == old_rgb[i]
    &&& forall|i: int|
        0 <= i < ir.len() && !(first <= i % l.width < first + l.strip()) ==> #[trigger] ir[i]
            == old_ir[i]
}

/// The buffers have one sample for each place in the frame.
spec fn outputs_fit(l: InterleaveLayout, rgb: Seq<u16>, ir: Seq<u16>) -> bool {
    &&& rgb.len() == l.width * l.height * 3
    &&& ir.len() == if l.ir {
        l.width * l.height
    } else {
        0
    }
}

/// A place in the output, from its row and column.
proof fn lemma_position(width: int, height: int, x: int, y: int, c: int)
    requires
        0 <= x < width,
        0 <= y < height,
        0 <= c < 3,
    ensures
        0 <= y * width + x < width * height,
        0 <= (y * width + x) * 3 + c < width * height * 3,
        ((y * width + x) * 3 + c) % 3 == c,
        ((y * width + x) * 3 + c) / 3 == y * width + x,
        (y * width + x) / width == y,
        (y * width + x) % width == x,
{
    assert(0 <= y * width && y * width + x < width * height) by (nonlinear_arith)
        requires
            0 <= x < width,
            0 <= y < height,
    ;
    vstd::arithmetic::div_mod::lemma_fundamental_div_mod_converse(y * width + x, width, y, x);
}

/// The row and column of a place in the output.
proof fn lemma_place(width: int, height: int, i: int)
    requires
        0 < width,
        0 <= i < width * height,
    ensures
        0 <= i % width < width,
        0 <= i / width < height,
        i == (i / width) * width + i % width,
{
    assert(0 <= i % width < width && 0 <= i / width < height) by (nonlinear_arith)
        requires
            0 < width,
            0 <= i < width * height,
    ;
    vstd::arithmetic::div_mod::lemma_fundamental_div_mod(i, width);
    assert(width * (i / width) == (i / width) * width) by (nonlinear_arith);
}

/// Writing one pixel where the sweep is takes the sweep one pixel on.
proof fn lemma_pixel_written(
    l: InterleaveLayout,
    rgb: Seq<u16>,
    ir: Seq<u16>,
    new_rgb: Seq<u16>,
    new_ir: Seq<u16>,
    stream: Seq<u8>,
    b: int,
    p0: int,
    p1: int,
    col: int,
    p: int,
)
    requires
        l.wf(),
        0 <= b < l.blocks(),
        0 <= col < l.strip(),
        0 <= p < l.height,
        outputs_fit(l, rgb, ir),
        outputs_fit(l, new_rgb, new_ir),
        outputs_right(l, rgb, ir, stream, b * l.strip(), p0, p1, col, p),
        ({
            let at = (l.height - 1 - p) * l.width + (b * l.strip() + col);
            let block = l.block_of(stream, b);
            &&& new_rgb == rgb.update(at * 3, l.channel(block, col, p, 0)).update(
                at * 3 + 1,
                l.channel(block, col, p, 1),
            ).update(at * 3 + 2, l.channel(block, col, p, 2))
            &&& l.ir ==> new_ir == ir.update(at, l.block_sample(block, col, p, 3))
        }),
    ensures
        outputs_right(l, new_rgb, new_ir, stream, b * l.strip(), p0, p1, col, p + 1),
{
    let (w, h, strip) = (l.width, l.height, l.strip());
    let first = b * strip;
    let x = first + col;
    let y = h - 1 - p;
    let at = y * w + x;
    assert(1 <= strip) by (nonlinear_arith)
        requires
            strip == l.block * l.lines,
            1 <= l.block,
            1 <= l.lines,
    ;
    let n = l.blocks();
    assert(w == n * strip && first + strip <= w && 0 <= first) by (nonlinear_arith)
        requires
            w % strip == 0,
            n == w / strip,
            1 <= strip,
            0 <= b < n,
            first == b * strip,
    ;
    lemma_position(w, h, x, y, 0);
    lemma_position(w, h, x, y, 1);
    lemma_position(w, h, x, y, 2);
    vstd::arithmetic::div_mod::lemma_fundamental_div_mod_converse(x, strip, b, col);
    assert forall|i: int|
        0 <= i < new_rgb.len() && written(l, i / 3 % w, i / 3 / w, first, p0, p1, col, p + 1) implies
        #[trigger] new_rgb[i] == l.rgb_at(stream, i) by {
        lemma_place(w, h, i / 3);
        if i / 3 == at {
            assert(i == at * 3 + i % 3);
        } else {
            assert(i / 3 % w != x || i / 3 / w != y);
            assert(rgb[i] == new_rgb[i]);
        }
    }
    if l.ir {
        assert forall|i: int|
            0 <= i < new_ir.len() && written(l, i % w, i / w, first, p0, p1, col, p + 1) implies
            #[trigger] new_ir[i] == l.ir_at(stream, i) by {
            lemma_place(w, h, i);
            if i != at {
                assert(i % w != x || i / w != y);
                assert(ir[i] == new_ir[i]);
            }
        }
    }
}

impl InterleaveDecoder {
    /// The buffers fit the layout.
    spec fn buffers_fit(&self) -> bool {
        &&& self.shape.wf()
        &&& outputs_fit(self.shape.layout(), self.rgb@, self.ir_plane@)
        &&& self.staging@.len() == self.shape.layout().block_bytes()
        &&& self.expected == self.shape.layout().blocks() * self.shape.layout().block_bytes()
    }

    /// The staged bytes are the start of block `block_index`.
    spec fn staged(&self, stream: Seq<u8>) -> bool {
        let start = self.block_index * self.shape.layout().block_bytes();
        &&& stream.len() == start + self.filled
        &&& forall|j: int| 0 <= j < self.filled ==> #[trigger] self.staging@[j] == stream[start + j]
    }

    /// The strips of the first `blocks` blocks are decoded from the stream.
    spec fn strips_decoded(&self, blocks: int, stream: Seq<u8>) -> bool {
        outputs_right(
            self.shape.layout(),
            self.rgb@,
            self.ir_plane@,
            stream,
            blocks * self.shape.layout().strip(),
            0,
            0,
            0,
            0,
        )
    }

    /// Transpose the freshly filled block into its output strip.
    ///
    /// One block covers `block` stage positions, which in three-line mode
    /// map to a contiguous run of `block * lines` output columns.
    /// Iterating column-outer, sensor-inner keeps a chunk of the output column
    /// in cache while the input is read sequentially down the bar.
    fn emit(&mut self)
        requires
            old(self).buffers_fit(),
            old(self).block_index < old(self).shape.layout().blocks(),
            old(self).staging@ == old(self).shape.layout().block_of(
                old(self).stream@,
                old(self).block_index as int,
            ),
            old(self).strips_decoded(old(self).block_index as int, old(self).stream@),
        ensures
            final(self).buffers_fit(),
            final(self).shape == old(self).shape,
            final(self).expected == old(self).expected,
            final(self).staging@ == old(self).staging@,
            final(self).filled == old(self).filled,
            final(self).block_index == old(self).block_index,
            final(self).received == old(self).received,
            final(self).stream == old(self).stream,
            final(self).strips_decoded(old(self).block_index + 1, old(self).stream@),
            outside_kept(
                old(self).shape.layout(),
                old(self).block_index * old(self).shape.layout().strip(),
                old(self).rgb@,
                old(self).ir_plane@,
                final(self).rgb@,
                final(self).ir_plane@,
            ),
    {
        let shape: Shape = self.shape;
        let ghost l = shape.layout();
        let ghost b = self.block_index as int;
        let ghost stream = self.stream@;
        let ghost before = *self;
        let staging_len: usize = self.staging.len();
        let rgb_len: usize = self.rgb.len();
        proof {
            lemma_strip(l, b);
        }
        let strip_cols: usize = shape.block * shape.lines;
        let first_col: usize = self.block_index * strip_cols;
        let mut p0: usize = 0;
        while p0 < shape.height
            invariant
                self.buffers_fit(),
                self.shape == shape,
                shape.wf(),
                l == shape.layout(),
                self.expected == before.expected,
                self.staging@ == before.staging@,
                self.filled == before.filled,
                self.block_index == before.block_index,
                self.received == before.received,
                self.stream == before.stream,
                staging_len == self.staging@.len(),
                rgb_len == self.rgb@.len(),
                before.staging@ == l.block_of(stream, b),
                outside_kept(
                    l,
                    b * l.strip(),
                    before.rgb@,
                    before.ir_plane@,
                    self.rgb@,
                    self.ir_plane@,
                ),
                0 <= b < l.blocks(),
                strip_cols == l.strip(),
                first_col == b * l.strip(),
                first_col + strip_cols <= shape.width,
                p0 <= shape.height,
                outputs_right(
                    l,
                    self.rgb@,
                    self.ir_plane@,
                    stream,
                    b * l.strip(),
                    p0 as int,
                    p0 as int,
                    0,
                    p0 as int,
                ),
            decreases shape.height - p0,
        {
            let p_end: usize = if shape.height - p0 < CHUNK {
                shape.height
            } else {
                p0 + CHUNK
            };
            for col in 0..strip_cols
                invariant
                    self.buffers_fit(),
                    self.shape == shape,
                    shape.wf(),
                    l == shape.layout(),
                    self.expected == before.expected,
                    self.staging@ == before.staging@,
                    self.filled == before.filled,
                    self.block_index == before.block_index,
                    self.received == before.received,
                    self.stream == before.stream,
                    staging_len == self.staging@.len(),
                    rgb_len == self.rgb@.len(),
                    before.staging@ == l.block_of(stream, b),
                    outside_kept(
                        l,
                        b * l.strip(),
                        before.rgb@,
                        before.ir_plane@,
                        self.rgb@,
                        self.ir_plane@,
                    ),
                    0 <= b < l.blocks(),
                    strip_cols == l.strip(),
                    first_col == b * l.strip(),
                    first_col + strip_cols <= shape.width,
                    p0 < p_end <= shape.height,
                    outputs_right(
                        l,
                        self.rgb@,
                        self.ir_plane@,
                        stream,
                        b * l.strip(),
                        p0 as int,
                        p_end as int,
                        col as int,
                        p0 as int,
                    ),
            {
                // A block's columns run [line 0 x N][line 1 x N][line 2 x N],
                // so the strip column splits into a stage position and a line.
                let (stage, line): (usize, usize) = if shape.lines == 3 {
                    (col % shape.block, col / shape.block)
                } else {
                    (col, 0)
                };
                let x: usize = first_col + col;
                proof {
                    lemma_column_base(l, col as int, stage as int, line as int);
                }
                // Invariant across the whole sensor sweep for this column.
                let col_base: usize = stage * shape.stage_stride + line;
                for p in p0..p_end
                    invariant
                        self.buffers_fit(),
                        self.shape == shape,
                        shape.wf(),
                        l == shape.layout(),
                        self.expected == before.expected,
                        self.staging@ == before.staging@,
                        self.filled == before.filled,
                        self.block_index == before.block_index,
                        self.received == before.received,
                        self.stream == before.stream,
                        staging_len == self.staging@.len(),
                        rgb_len == self.rgb@.len(),
                        before.staging@ == l.block_of(stream, b),
                        outside_kept(
                            l,
                            b * l.strip(),
                            before.rgb@,
                            before.ir_plane@,
                            self.rgb@,
                            self.ir_plane@,
                        ),
                        0 <= b < l.blocks(),
                        0 <= col < l.strip(),
                        strip_cols == l.strip(),
                        first_col == b * l.strip(),
                        first_col + strip_cols <= shape.width,
                        x == first_col + col,
                        p0 < p_end <= shape.height,
                        forall|q: int| #[trigger] l.base(col as int, q) == col_base + q * l.lines,
                        outputs_right(
                            l,
                            self.rgb@,
                            self.ir_plane@,
                            stream,
                            b * l.strip(),
                            p0 as int,
                            p_end as int,
                            col as int,
                            p as int,
                        ),
                {
                    // The sensor bar reads out opposite to increasing y.
                    let y: usize = shape.height - 1 - p;
                    proof {
                        lemma_position(l.width, l.height, x as int, y as int, 0);
                        lemma_sample_in_block(l, col as int, p as int, 0);
                        assert(0 <= p * l.lines) by (nonlinear_arith)
                            requires
                                0 <= p,
                                1 <= l.lines,
                        ;
                    }
                    let out: usize = y * shape.width + x;
                    // Readout 0, channel 0 (= red) of this pixel; other
                    // readouts follow at multiples of the readout length.
                    let base: usize = col_base + p * shape.lines;
                    let ghost rgb = self.rgb@;
                    let ghost ir = self.ir_plane@;
                    let staging: &[u8] = self.staging.as_slice();
                    let r: u16 = shape.channel(staging, base, 0, Ghost(col as int), Ghost(p as int));
                    let g: u16 = shape.channel(staging, base, 1, Ghost(col as int), Ghost(p as int));
                    let bl: u16 = shape.channel(staging, base, 2, Ghost(col as int), Ghost(p as int));
                    self.rgb.set(out * 3, r);
                    self.rgb.set(out * 3 + 1, g);
                    self.rgb.set(out * 3 + 2, bl);
                    if shape.ir {
                        // IR is readout slot 3, present only on repeat 0.
                        proof {
                            lemma_sample_in_block(l, col as int, p as int, 3);
                        }
                        let i: u16 = sample_at(
                            self.staging.as_slice(),
                            base + 3 * shape.readout_samples,
                        );
                        self.ir_plane.set(out, i);
                    }
                    proof {
                        // The pixel lies in a column of the strip.
                        lemma_position(l.width, l.height, x as int, y as int, 0);
                        lemma_position(l.width, l.height, x as int, y as int, 1);
                        lemma_position(l.width, l.height, x as int, y as int, 2);
                        lemma_pixel_written(
                            l,
                            rgb,
                            ir,
                            self.rgb@,
                            self.ir_plane@,
                            stream,
                            b,
                            p0 as int,
                            p_end as int,
                            col as int,
                            p as int,
                        );
                    }
                }
            }
            p0 = p_end;
        }
        proof {
            lemma_strip_complete(l, self.rgb@, self.ir_plane@, stream, b);
        }
    }
}

/// A strip within the frame has its columns within the frame.
proof fn lemma_strip(l: InterleaveLayout, b: int)
    requires
        l.wf(),
        0 <= b < l.blocks(),
    ensures
        1 <= l.strip() <= l.width,
        0 <= b * l.strip(),
        (b + 1) * l.strip() == b * l.strip() + l.strip(),
        b * l.strip() + l.strip() <= l.width,
{
    let (w, strip, n) = (l.width, l.strip(), l.blocks());
    assert(1 <= strip) by (nonlinear_arith)
        requires
            strip == l.block * l.lines,
            1 <= l.block,
            1 <= l.lines,
    ;
    assert(0 <= b * strip && (b + 1) * strip == b * strip + strip && b * strip + strip <= w)
        by (nonlinear_arith)
        requires
            w % strip == 0,
            n == w / strip,
            1 <= strip,
            0 <= b < n,
    ;
}

/// Down a column the samples of the first readout lie one readout of all lines apart.
proof fn lemma_column_base(l: InterleaveLayout, col: int, stage: int, line: int)
    requires
        l.wf(),
        0 <= col < l.strip(),
        stage == if l.lines == 3 {
            col % l.block
        } else {
            col
        },
        line == if l.lines == 3 {
            col / l.block
        } else {
            0
        },
    ensures
        forall|q: int|
            #[trigger] l.base(col, q) == stage * l.stage_samples() + line + q * l.lines,
        l.height > 0 ==> 0 <= stage * l.stage_samples() + line,
        l.height > 0 ==> 2 * (stage * l.stage_samples() + line) + 2 <= l.block_bytes(),
        0 <= stage * l.stage_samples() <= l.block * l.stage_samples(),
{
    if l.height > 0 {
        lemma_sample_in_block(l, col, 0, 0);
        assert(0 * l.readout_samples() == 0 && 0 * l.lines == 0);
    }
    let (block, ss) = (l.block, l.stage_samples());
    assert(0 <= ss) by (nonlinear_arith)
        requires
            ss == l.readouts() * (l.height * l.lines),
            0 <= l.readouts(),
            0 <= l.height,
            0 <= l.lines,
    ;
    assert(0 <= stage <= block) by {
        if l.lines == 3 {
            assert(0 <= col % block < block) by (nonlinear_arith)
                requires
                    1 <= block,
            ;
        } else {
            assert(col < block) by (nonlinear_arith)
                requires
                    col < block * l.lines,
                    l.lines == 1,
            ;
        }
    }
    assert(0 <= stage * ss <= block * ss) by (nonlinear_arith)
        requires
            0 <= stage <= block,
            0 <= ss,
    ;
}

/// Once the sweep has been down the whole bar, the strip is decoded.
proof fn lemma_strip_complete(
    l: InterleaveLayout,
    rgb: Seq<u16>,
    ir: Seq<u16>,
    stream: Seq<u8>,
    b: int,
)
    requires
        l.wf(),
        0 <= b < l.blocks(),
        outputs_fit(l, rgb, ir),
        outputs_right(l, rgb, ir, stream, b * l.strip(), l.height, l.height, 0, l.height),
    ensures
        outputs_right(l, rgb, ir, stream, (b + 1) * l.strip(), 0, 0, 0, 0),
{
    lemma_strip(l, b);
    let (w, h) = (l.width, l.height);
    let first = b * l.strip();
    let next = (b + 1) * l.strip();
    assert forall|i: int|
        0 <= i < rgb.len() && written(l, i / 3 % w, i / 3 / w, next, 0, 0, 0, 0) implies
        #[trigger] rgb[i] == l.rgb_at(stream, i) by {
        lemma_place(w, h, i / 3);
        assert(written(l, i / 3 % w, i / 3 / w, first, h, h, 0, h));
    }
    if l.ir {
        assert forall|i: int|
            0 <= i < ir.len() && written(l, i % w, i / w, next, 0, 0, 0, 0) implies
            #[trigger] ir[i] == l.ir_at(stream, i) by {
            lemma_place(w, h, i);
            assert(written(l, i % w, i / w, first, h, h, 0, h));
        }
    }
}

/// More of the stream does not change the strips of the blocks that were whole.
proof fn lemma_strips_are_settled(
    l: InterleaveLayout,
    rgb: Seq<u16>,
    ir: Seq<u16>,
    stream: Seq<u8>,
    more: Seq<u8>,
    b: int,
)
    requires
        l.wf(),
        0 <= b <= l.blocks(),
        outputs_fit(l, rgb, ir),
        b * l.block_bytes() <= stream.len(),
        outputs_right(l, rgb, ir, stream, b * l.strip(), 0, 0, 0, 0),
    ensures
        outputs_right(l, rgb, ir, stream + more, b * l.strip(), 0, 0, 0, 0),
{
    let (w, h, strip, len) = (l.width, l.height, l.strip(), l.block_bytes());
    assert(1 <= strip) by (nonlinear_arith)
        requires
            strip == l.block * l.lines,
            1 <= l.block,
            1 <= l.lines,
    ;
    assert(0 <= len) by {
        lemma_block_bytes(l);
    }
    let first = b * strip;
    assert forall|x: int| 0 <= x < first implies #[trigger] l.block_of(stream + more, x / strip)
        == l.block_of(stream, x / strip) by {
        let k = x / strip;
        assert(0 <= k < b) by (nonlinear_arith)
            requires
                0 <= x < b * strip,
                1 <= strip,
                k == x / strip,
        ;
        assert(0 <= k * len && k * len <= (k + 1) * len && (k + 1) * len <= b * len)
            by (nonlinear_arith)
            requires
                0 <= k < b,
                0 <= len,
        ;
        assert(l.block_of(stream + more, k) =~= l.block_of(stream, k));
    }
    assert forall|i: int|
        0 <= i < rgb.len() && written(l, i / 3 % w, i / 3 / w, first, 0, 0, 0, 0) implies
        #[trigger] rgb[i] == l.rgb_at(stream + more, i) by {
        lemma_place(w, h, i / 3);
        let x = i / 3 % w;
        assert(l.block_of(stream + more, x / strip) == l.block_of(stream, x / strip));
    }
    if l.ir {
        assert forall|i: int|
            0 <= i < ir.len() && written(l, i % w, i / w, first, 0, 0, 0, 0) implies
            #[trigger] ir[i] == l.ir_at(stream + more, i) by {
            lemma_place(w, h, i);
            let x = i % w;
            assert(l.block_of(stream + more, x / strip) == l.block_of(stream, x / strip));
        }
    }
}

/// A block holds no less than a readout of each of its positions.
proof fn lemma_block_bytes(l: InterleaveLayout)
    requires
        l.wf(),
    ensures
        0 <= l.readout_samples() <= l.stage_samples() <= l.block * l.stage_samples()
            <= l.block_bytes(),
{
    let (rsamp, ss, readouts) = (l.readout_samples(), l.stage_samples(), l.readouts());
    assert(0 <= rsamp) by (nonlinear_arith)
        requires
            rsamp == l.height * l.lines,
            0 <= l.height,
            1 <= l.lines,
    ;
    assert(rsamp <= ss) by (nonlinear_arith)
        requires
            ss == readouts * rsamp,
            0 <= rsamp,
            1 <= readouts,
    ;
    assert(ss <= l.block * ss) by (nonlinear_arith)
        requires
            1 <= l.block,
            0 <= ss,
    ;
}

/// The layout of the stream that `settings` ask for.
pub open spec fn settings_layout(settings: ScanSettings) -> InterleaveLayout {
    InterleaveLayout {
        width: settings.columns(),
        height: settings.rows(),
        lines: settings.ccd_lines(),
        block: settings.block_len(),
        multisample: settings.multisample.times(),
        ir: settings.ir,
    }
}

/// The stage takes a whole number of positions, and these a whole number of blocks.
pub open spec fn settings_align(settings: ScanSettings) -> bool {
    settings.stages_divide() && settings.stage_count() % settings.block_len() == 0
}

/// The stream of a scan is laid out as its settings say.
pub proof fn lemma_layout_follows_settings(settings: ScanSettings)
    ensures
        ({
            let l = settings_layout(settings);
            &&& l.width == settings.columns() && l.height == settings.rows()
            &&& l.lines == settings.ccd_lines() && l.block == settings.block_len()
            &&& l.multisample == settings.multisample.times()
            &&& l.ir == settings.ir
            &&& l.readouts() == settings.readout_count()
        }),
        settings_align(settings) <==> settings.window.x as int % settings.dpi.step() == 0
            && settings.window.y as int % settings.dpi.step() == 0 && settings.columns()
            % settings.ccd_lines() == 0 && settings.stage_count() % settings.block_len() == 0,
{
}

/// Settings that align have a sound layout, and its blocks are the whole stream.
pub proof fn lemma_settings_layout(settings: ScanSettings)
    requires
        settings_align(settings),
    ensures
        settings_layout(settings).wf(),
        0 <= settings_layout(settings).blocks(),
        settings_layout(settings).blocks() * settings_layout(settings).block_bytes()
            == settings.stream_len(),
{
    let l = settings_layout(settings);
    let (w, lines, block) = (l.width, l.lines, l.block);
    let stages = settings.stage_count();
    let strip = l.strip();
    let n = stages / block;
    assert(0 <= settings.columns() && 0 <= settings.rows()) by {
        assert(0 <= settings.window.y as int / settings.dpi.step());
        assert(0 <= settings.window.x as int / settings.dpi.step());
    }
    assert(1 <= block);
    assert(w == stages * lines) by {
        vstd::arithmetic::div_mod::lemma_fundamental_div_mod(w, lines);
        assert(lines * stages == stages * lines) by (nonlinear_arith);
    }
    assert(stages == n * block) by {
        vstd::arithmetic::div_mod::lemma_fundamental_div_mod(stages, block);
        assert(block * n == n * block) by (nonlinear_arith);
    }
    assert(w == n * strip && 1 <= strip) by (nonlinear_arith)
        requires
            w == stages * lines,
            stages == n * block,
            strip == block * lines,
            1 <= block,
            1 <= lines,
    ;
    vstd::arithmetic::div_mod::lemma_fundamental_div_mod_converse(w, strip, n, 0);
    assert(0 <= n) by (nonlinear_arith)
        requires
            0 <= w,
            w == n * strip,
            1 <= strip,
    ;
    let ss = l.stage_samples();
    assert(n * (block * ss * 2) == stages * ss * 2) by (nonlinear_arith)
        requires
            stages == n * block,
    ;
}

/// A window can be decoded wherever its samples, at most 49 readouts of every dot, fit in
/// memory.
pub proof fn lemma_window_fits(settings: ScanSettings)
    requires
        settings_align(settings),
        98 * (settings.window.x * settings.window.y) <= isize::MAX,
        3528 * settings.window.x <= isize::MAX,
        3 * settings.window.y <= isize::MAX,
    ensures
        settings_layout(settings).fits(),
{
    lemma_settings_layout(settings);
    let l = settings_layout(settings);
    lemma_block_bytes(l);
    let (x, y, step) = (
        settings.window.x as int,
        settings.window.y as int,
        settings.dpi.step(),
    );
    let (w, h) = (l.width, l.height);
    assert(0 <= w <= y && 0 <= h <= x) by (nonlinear_arith)
        requires
            w == y / step,
            h == x / step,
            1 <= step,
            0 <= x,
            0 <= y,
    ;
    assert(0 <= w * h && w * h <= x * y) by (nonlinear_arith)
        requires
            0 <= w <= y,
            0 <= h <= x,
    ;
    // The stream holds every readout of every sample of the frame.
    let (n, strip, readouts, block, lines) = (
        l.blocks(),
        l.strip(),
        l.readouts(),
        l.block,
        l.lines,
    );
    assert(1 <= strip) by (nonlinear_arith)
        requires
            strip == block * lines,
            1 <= block,
            1 <= lines,
    ;
    assert(n * strip == w) by {
        vstd::arithmetic::div_mod::lemma_fundamental_div_mod(w, strip);
        assert(strip * n == n * strip) by (nonlinear_arith);
    }
    let total = n * l.block_bytes();
    assert(total == readouts * (w * h) * 2) by (nonlinear_arith)
        requires
            total == n * (block * (readouts * (h * lines)) * 2),
            w == n * strip,
            strip == block * lines,
    ;
    assert(total <= 98 * (x * y)) by (nonlinear_arith)
        requires
            total == readouts * (w * h) * 2,
            0 <= readouts <= 49,
            0 <= w * h <= x * y,
    ;
    let bytes = l.block_bytes();
    assert(bytes <= 3528 * x) by (nonlinear_arith)
        requires
            bytes == block * (readouts * (h * lines)) * 2,
            1 <= block <= 12,
            0 <= readouts <= 49,
            1 <= lines <= 3,
            0 <= h <= x,
    ;
}

impl InterleaveDecoder {
    /// Decoder sized for `settings`' output geometry.
    pub fn new(settings: &ScanSettings) -> (r: Result<Self, Error>)
        requires
            settings_align(*settings) ==> settings_layout(*settings).fits(),
        ensures
            match r {
                Ok(decoder) => {
                    &&& settings_align(*settings)
                    &&& decoder.wf()
                    &&& decoder.layout() == settings_layout(*settings)
                    &&& decoder.offered() == 0
                    &&& decoder.stream() == Seq::<u8>::empty()
                },
                Err(err) => {
                    &&& !settings_align(*settings)
                    &&& err == if !settings.stages_divide() {
                        Error::IndivisibleWindow
                    } else {
                        Error::UnalignedStageExtent {
                            stages: settings.stage_count() as u32,
                            block: settings.block_len() as u32,
                        }
                    }
                },
            },
    {
        let (width, height) = match settings.output_dims() {
            Some(dims) => dims,
            None => {
                return Err(Error::IndivisibleWindow);
            },
        };
        let stages: u32 = match settings.stages() {
            Some(stages) => stages,
            None => {
                return Err(Error::IndivisibleWindow);
            },
        };
        let block: u32 = settings.ccd_block();
        if stages % block != 0 {
            return Err(Error::UnalignedStageExtent { stages, block });
        }
        let ghost l = settings_layout(*settings);
        proof {
            lemma_settings_layout(*settings);
            lemma_block_bytes(l);
            assert(0 <= width * height && width * height * 3 <= isize::MAX) by (nonlinear_arith)
                requires
                    0 <= width,
                    0 <= height,
                    width * height * 3 * 2 <= isize::MAX,
            ;
        }
        let expected: u64 = match settings.expected_bytes() {
            Some(len) => len,
            None => {
                return Err(Error::IndivisibleWindow);
            },
        };
        let (width, height): (usize, usize) = (width as usize, height as usize);
        let lines: usize = settings.lines() as usize;
        let readout_samples: usize = height * lines;
        let stage_stride: usize = settings.readouts() as usize * readout_samples;
        let px: usize = width * height;
        let shape = Shape {
            width,
            height,
            lines,
            block: block as usize,
            multisample: settings.multisample.count() as usize,
            ir: settings.ir,
            readout_samples,
            stage_stride,
        };
        assert(0 * l.block_bytes() == 0);
        assert(0 * l.strip() == 0);
        let decoder = Self {
            shape,
            expected,
            rgb: vec![0u16; px * 3],
            ir_plane: if settings.ir {
                vec![0u16; px]
            } else {
                Vec::new()
            },
            staging: vec![0u8; block as usize * stage_stride * 2],
            filled: 0,
            block_index: 0,
            received: 0,
            stream: Ghost(Seq::empty()),
        };
        proof {
            lemma_nothing_written(l, decoder.rgb@, decoder.ir_plane@, Seq::empty());
        }
        Ok(decoder)
    }
}

/// Before the first strip there is nothing to be right.
proof fn lemma_nothing_written(
    l: InterleaveLayout,
    rgb: Seq<u16>,
    ir: Seq<u16>,
    stream: Seq<u8>,
)
    requires
        l.wf(),
        outputs_fit(l, rgb, ir),
    ensures
        outputs_right(l, rgb, ir, stream, 0, 0, 0, 0, 0),
{
    let (w, h) = (l.width, l.height);
    assert(w == 0 ==> w * h == 0) by (nonlinear_arith);
    assert forall|i: int|
        0 <= i < rgb.len() && written(l, i / 3 % w, i / 3 / w, 0, 0, 0, 0, 0) implies
        #[trigger] rgb[i] == l.rgb_at(stream, i) by {
        lemma_place(w, h, i / 3);
    }
    if l.ir {
        assert forall|i: int|
            0 <= i < ir.len() && written(l, i % w, i / w, 0, 0, 0, 0, 0) implies
            #[trigger] ir[i] == l.ir_at(stream, i) by {
            lemma_place(w, h, i);
        }
    }
}

impl FrameDecoder for InterleaveDecoder {
    type Layout = InterleaveLayout;

    closed spec fn wf(&self) -> bool {
        &&& self.buffers_fit()
        &&& self.staged(self.stream@)
        &&& self.strips_decoded(self.block_index as int, self.stream@)
        &&& self.filled == 0 || self.filled < self.staging@.len()
        &&& self.block_index <= self.shape.layout().blocks()
        &&& self.stream@.len() <= self.received
        &&& self.stream@.len() <= self.expected
        &&& self.received <= self.expected ==> self.stream@.len() == self.received
    }

    closed spec fn layout(&self) -> InterleaveLayout {
        self.shape.layout()
    }

    open spec fn frame_len(layout: InterleaveLayout) -> nat {
        (layout.blocks() * layout.block_bytes()) as nat
    }

    closed spec fn offered(&self) -> nat {
        self.received as nat
    }

    closed spec fn stream(&self) -> Seq<u8> {
        self.stream@
    }

    /// The stream has to be exactly as long as the frame.
    open spec fn decoded(layout: InterleaveLayout, offered: nat, stream: Seq<u8>) -> Result<
        Raster,
        Error,
    > {
        let expected = Self::frame_len(layout);
        if offered != expected {
            Err(Error::LengthMismatch { got: offered as u64, expected: expected as u64 })
        } else {
            Ok(layout.frame(stream))
        }
    }

    fn push(&mut self, bytes: &[u8]) -> (r: Result<(), Error>) {
        let len: usize = bytes.len();
        self.received = self.received + len as u64;
        if self.received > self.expected {
            return Err(Error::LengthMismatch { got: self.received, expected: self.expected });
        }
        let ghost l = self.shape.layout();
        let ghost before = self.stream@;
        let ghost start = *self;
        let mut pos: usize = 0;
        assert(before + bytes@.take(0) =~= before);
        while pos < len
            invariant
                len == bytes@.len(),
                pos <= len,
                l == self.shape.layout(),
                self.shape == start.shape,
                self.expected == start.expected,
                self.received == start.received,
                self.received <= self.expected,
                before.len() + len == self.received,
                self.buffers_fit(),
                self.staged(self.stream@),
                self.strips_decoded(self.block_index as int, self.stream@),
                self.filled == 0 || self.filled < self.staging@.len(),
                self.block_index <= l.blocks(),
                self.stream@ == before + bytes@.take(pos as int),
            decreases len - pos,
        {
            let ghost b = self.block_index as int;
            let ghost block_len = l.block_bytes();
            proof {
                // Bytes are left, so the frame has bytes left, so there are blocks left.
                assert(block_len > 0 && b < l.blocks()) by {
                    lemma_block_bytes(l);
                    let n = l.blocks();
                    if block_len == 0 {
                        assert(n * block_len == 0 && b * block_len == 0) by (nonlinear_arith)
                            requires
                                block_len == 0,
                        ;
                    } else if b >= n {
                        assert(b * block_len >= n * block_len) by (nonlinear_arith)
                            requires
                                b >= n,
                                block_len >= 0,
                        ;
                    }
                }
            }
            let room: usize = self.staging.len() - self.filled;
            let left: usize = len - pos;
            let take: usize = if room < left {
                room
            } else {
                left
            };
            let ghost old_stream = self.stream@;
            let ghost more = bytes@.subrange(pos as int, pos + take);
            proof {
                lemma_strips_are_settled(l, self.rgb@, self.ir_plane@, old_stream, more, b);
            }
            copy_bytes(&mut self.staging, self.filled, bytes, pos, take);
            self.filled = self.filled + take;
            pos = pos + take;
            self.stream = Ghost(old_stream + more);
            assert(before + bytes@.take(pos as int) =~= old_stream + more);
            if self.filled == self.staging.len() {
                assert((b + 1) * block_len == b * block_len + block_len) by (nonlinear_arith);
                assert(self.staging@ =~= l.block_of(self.stream@, b));
                assert(l.blocks() <= l.width) by {
                    lemma_strip(l, b);
                    let (n, w, strip) = (l.blocks(), l.width, l.strip());
                    assert(n <= w) by (nonlinear_arith)
                        requires
                            n == w / strip,
                            1 <= strip,
                            0 <= w,
                    ;
                }
                self.emit();
                self.filled = 0;
                self.block_index = self.block_index + 1;
            }
        }
        assert(bytes@.take(len as int) =~= bytes@);
        Ok(())
    }

    /// `new()` guarantees the stage count is a whole number of blocks, so there
    /// is never a trailing partial block to flush here.
    fn finish(&mut self) -> (r: Result<FrameView<'_>, Error>) {
        if self.received != self.expected {
            return Err(Error::LengthMismatch { got: self.received, expected: self.expected });
        }
        let ghost l = self.shape.layout();
        let ghost frame = l.frame(self.stream@);
        let width: u32 = self.shape.width as u32;
        let height: u32 = self.shape.height as u32;
        proof {
            let (w, h) = (l.width, l.height);
            assert(w * h * 3 == 3 * w * h && 0 <= w * h) by (nonlinear_arith)
                requires
                    0 <= w,
                    0 <= h,
            ;
            lemma_frame_complete(self);
        }
        let rgb = ImageView::from_raw(width, height, self.rgb.as_slice()).unwrap();
        let ir = if self.shape.ir {
            Some(MaskView::from_raw(width, height, self.ir_plane.as_slice()).unwrap())
        } else {
            None
        };
        let view = FrameView { rgb, ir };
        proof {
            assert(view@.rgb =~= frame.rgb);
            if l.ir {
                assert(view@.ir->0 =~= frame.ir->0);
            }
            assert(view@ == frame);
        }
        Ok(view)
    }

    fn reset(&mut self) {
        self.filled = 0;
        self.block_index = 0;
        self.received = 0;
        self.stream = Ghost(Seq::empty());
        proof {
            let l = self.shape.layout();
            assert(0 * l.block_bytes() == 0);
            assert(0 * l.strip() == 0);
            lemma_nothing_written(l, self.rgb@, self.ir_plane@, self.stream@);
        }
    }
}

/// Once the stream is whole, so is the frame.
proof fn lemma_frame_complete(d: &InterleaveDecoder)
    requires
        d.wf(),
        d.received == d.expected,
    ensures
        forall|i: int|
            0 <= i < d.rgb@.len() ==> #[trigger] d.rgb@[i] == d.shape.layout().rgb_at(d.stream@, i),
        d.shape.ir ==> forall|i: int|
            0 <= i < d.ir_plane@.len() ==> #[trigger] d.ir_plane@[i] == d.shape.layout().ir_at(
                d.stream@,
                i,
            ),
{
    let l = d.shape.layout();
    let (w, h, b, n, len) = (l.width, l.height, d.block_index as int, l.blocks(), l.block_bytes());
    lemma_block_bytes(l);
    if w > 0 && h > 0 {
        let (rsamp, strip) = (l.readout_samples(), l.strip());
        assert(1 <= rsamp) by (nonlinear_arith)
            requires
                rsamp == h * l.lines,
                1 <= h,
                1 <= l.lines,
        ;
        // The stream is a whole number of blocks, so none is left over in the staging buffer.
        assert(b == n) by (nonlinear_arith)
            requires
                n * len == b * len + d.filled,
                0 <= d.filled < len,
                b <= n,
        ;
        assert(1 <= strip) by (nonlinear_arith)
            requires
                strip == l.block * l.lines,
                1 <= l.block,
                1 <= l.lines,
        ;
        assert(n * strip == w) by (nonlinear_arith)
            requires
                n == w / strip,
                w % strip == 0,
                1 <= strip,
        ;
        assert forall|i: int| 0 <= i < d.rgb@.len() implies #[trigger] d.rgb@[i] == l.rgb_at(
            d.stream@,
            i,
        ) by {
            lemma_place(w, h, i / 3);
        }
        if l.ir {
            assert forall|i: int| 0 <= i < d.ir_plane@.len() implies #[trigger] d.ir_plane@[i]
                == l.ir_at(d.stream@, i) by {
                lemma_place(w, h, i);
            }
        }
    } else {
        assert(w * h == 0) by (nonlinear_arith)
            requires
                w == 0 || h == 0,
        ;
    }
}

/// Every sample of a block belongs to one pixel and one readout: no two share a place.
pub proof fn lemma_samples_are_distinct(
    l: InterleaveLayout,
    col: int,
    p: int,
    slot: int,
    other_col: int,
    other_p: int,
    other_slot: int,
)
    requires
        l.wf(),
        0 <= col < l.strip(),
        0 <= p < l.height,
        0 <= slot < l.readouts(),
        0 <= other_col < l.strip(),
        0 <= other_p < l.height,
        0 <= other_slot < l.readouts(),
        l.base(col, p) + slot * l.readout_samples() == l.base(other_col, other_p) + other_slot
            * l.readout_samples(),
    ensures
        col == other_col,
        p == other_p,
        slot == other_slot,
{
    lemma_sample_parts(l, col, p, slot);
    lemma_sample_parts(l, other_col, other_p, other_slot);
}

/// The stage position, the readout, the sensor pixel and the line of a sample can be told from
/// its place in the block.
proof fn lemma_sample_parts(l: InterleaveLayout, col: int, p: int, slot: int)
    requires
        l.wf(),
        0 <= col < l.strip(),
        0 <= p < l.height,
        0 <= slot < l.readouts(),
    ensures
        ({
            let i = l.base(col, p) + slot * l.readout_samples();
            let within = i % l.stage_samples();
            let swept = within % l.readout_samples();
            &&& slot == within / l.readout_samples()
            &&& p == swept / l.lines
            &&& col == swept % l.lines * l.block + i / l.stage_samples()
        }),
{
    let (block, lines) = (l.block, l.lines);
    let stage = if lines == 3 { col % block } else { col };
    let line = if lines == 3 { col / block } else { 0 };
    assert(0 <= stage < block && 0 <= line < lines && col == line * block + stage) by {
        if lines == 3 {
            assert(0 <= col % block < block && 0 <= col / block < 3) by (nonlinear_arith)
                requires
                    0 <= col < block * 3,
                    1 <= block,
            ;
            vstd::arithmetic::div_mod::lemma_fundamental_div_mod(col, block);
            assert(block * line == line * block) by (nonlinear_arith);
        } else {
            assert(block * lines == block) by (nonlinear_arith)
                requires
                    lines == 1,
            ;
            assert(0 * block == 0);
        }
    }
    let (rsamp, ss) = (l.readout_samples(), l.stage_samples());
    let swept = p * lines + line;
    let within = slot * rsamp + swept;
    let i = stage * ss + within;
    let (height, readouts) = (l.height, l.readouts());
    assert(0 <= swept < rsamp) by (nonlinear_arith)
        requires
            0 <= p < height,
            0 <= line < lines,
            rsamp == height * lines,
            swept == p * lines + line,
    ;
    assert(0 <= within < ss) by (nonlinear_arith)
        requires
            0 <= slot < readouts,
            0 <= swept < rsamp,
            ss == readouts * rsamp,
            within == slot * rsamp + swept,
    ;
    assert(i == l.base(col, p) + slot * rsamp);
    vstd::arithmetic::div_mod::lemma_fundamental_div_mod_converse(i, ss, stage, within);
    vstd::arithmetic::div_mod::lemma_fundamental_div_mod_converse(within, rsamp, slot, swept);
    vstd::arithmetic::div_mod::lemma_fundamental_div_mod_converse(swept, lines, p, line);
}

/// Readings that agree are their own mean; one reading is taken as it is.
pub proof fn lemma_mean_of_equal_readings(
    l: InterleaveLayout,
    block: Seq<u8>,
    col: int,
    p: int,
    c: int,
    v: u16,
)
    requires
        l.wf(),
        forall|s: int|
            0 <= s < l.multisample ==> l.block_sample(block, col, p, #[trigger] l.slot(c, s)) == v,
    ensures
        l.channel(block, col, p, c) == v,
{
    let m = l.multisample;
    lemma_equal_sum(l, block, col, p, c, v, m as nat);
    assert((m * v) / m == v) by (nonlinear_arith)
        requires
            1 <= m,
    ;
}

/// The sum of equal readings.
proof fn lemma_equal_sum(
    l: InterleaveLayout,
    block: Seq<u8>,
    col: int,
    p: int,
    c: int,
    v: u16,
    n: nat,
)
    requires
        n <= l.multisample,
        forall|s: int|
            0 <= s < l.multisample ==> l.block_sample(block, col, p, #[trigger] l.slot(c, s)) == v,
    ensures
        l.reading_sum(block, col, p, c, n) == n * v,
    decreases n,
{
    if n > 0 {
        lemma_equal_sum(l, block, col, p, c, v, (n - 1) as nat);
        assert(l.block_sample(block, col, p, l.slot(c, n - 1)) == v);
        assert(n * v == (n - 1) * v + v) by (nonlinear_arith);
    } else {
        assert(0 * v == 0);
    }
}

/// A frame comes of a stream if and only if exactly as many bytes were offered as its blocks
/// have; else the failure says how many came and how many there should be.
pub proof fn lemma_only_whole_streams(l: InterleaveLayout, offered: nat, stream: Seq<u8>)
    requires
        0 <= l.blocks() * l.block_bytes() <= u64::MAX,
        offered <= u64::MAX,
    ensures
        match InterleaveDecoder::decoded(l, offered, stream) {
            Ok(frame) => offered == l.blocks() * l.block_bytes() && frame == l.frame(stream),
            Err(err) => offered != l.blocks() * l.block_bytes() && (err
                matches Error::LengthMismatch { got, expected } && got == offered && expected
                == l.blocks() * l.block_bytes()),
        },
{
}

/// The number that the two bytes of sample `i` of a stream spell, most significant first.
pub open spec fn number_at(stream: Seq<u8>, i: int) -> int {
    stream[2 * i] * 256 + stream[2 * i + 1]
}

/// Where a stream has a sample: stage position after stage position, at each one readout after
/// the other, and in a readout the lines of one sensor pixel after those of the other.
pub open spec fn place_of(l: InterleaveLayout, stage: int, readout: int, p: int, line: int) -> int {
    (stage * (3 * l.multisample + if l.ir {
        1int
    } else {
        0
    }) + readout) * (l.height * l.lines) + p * l.lines + line
}

/// The readout of channel `c` in reading `s`: three colours for each reading, and infrared after
/// those of the first.
pub open spec fn readout_of(l: InterleaveLayout, c: int, s: int) -> int {
    3 * s + c + if l.ir && s > 0 {
        1int
    } else {
        0
    }
}

/// The sum of the first `n` readings of channel `c` at a stage position, sensor pixel and line.
pub open spec fn sum_of(
    l: InterleaveLayout,
    stream: Seq<u8>,
    stage: int,
    p: int,
    line: int,
    c: int,
    n: nat,
) -> int
    decreases n,
{
    if n == 0 {
        0
    } else {
        sum_of(l, stream, stage, p, line, c, (n - 1) as nat) + number_at(
            stream,
            place_of(l, stage, readout_of(l, c, n - 1), p, line),
        )
    }
}

/// The output column of a line at stage position `k` of block `b`: a block's columns are those of
/// its first line, then of its second, then of its third.
pub open spec fn column_of(l: InterleaveLayout, b: int, k: int, line: int) -> int {
    b * (l.block * l.lines) + line * l.block + k
}

/// A sample of a block stands in the stream where its stage position, readout, pixel and line
/// say.
proof fn lemma_sample_place(
    l: InterleaveLayout,
    stream: Seq<u8>,
    b: int,
    k: int,
    line: int,
    p: int,
    readout: int,
)
    requires
        l.wf(),
        0 <= b < l.blocks(),
        0 <= k < l.block,
        0 <= line < l.lines,
        0 <= p < l.height,
        0 <= readout < l.readouts(),
        stream.len() == l.blocks() * l.block_bytes(),
    ensures
        0 <= line * l.block + k < l.strip(),
        l.block_sample(l.block_of(stream, b), line * l.block + k, p, readout) == number_at(
            stream,
            place_of(l, b * l.block + k, readout, p, line),
        ),
{
    let (block, lines) = (l.block, l.lines);
    let col = line * block + k;
    assert(0 <= col < block * lines) by (nonlinear_arith)
        requires
            0 <= k < block,
            0 <= line < lines,
            col == line * block + k,
    ;
    vstd::arithmetic::div_mod::lemma_fundamental_div_mod_converse(col, block, line, k);
    if lines == 1 {
        assert(line * block == 0) by (nonlinear_arith)
            requires
                line == 0,
        ;
    }
    lemma_sample_in_block(l, col, p, readout);
    lemma_block_bytes(l);
    let (ss, rs, bb) = (l.stage_samples(), l.readout_samples(), l.block_bytes());
    let inner = l.base(col, p) + readout * rs;
    assert(inner == k * ss + line + p * lines + readout * rs);
    let n = l.blocks();
    assert(0 <= b * bb && (b + 1) * bb == b * bb + bb && (b + 1) * bb <= n * bb)
        by (nonlinear_arith)
        requires
            0 <= b < n,
            0 <= bb,
    ;
    let outer = place_of(l, b * block + k, readout, p, line);
    let readouts = l.readouts();
    assert(2 * outer == b * bb + 2 * inner) by (nonlinear_arith)
        requires
            outer == ((b * block + k) * readouts + readout) * rs + p * lines + line,
            bb == block * ss * 2,
            ss == readouts * rs,
            inner == k * ss + line + p * lines + readout * rs,
    ;
    let own = l.block_of(stream, b);
    assert(own[2 * inner] == stream[b * bb + 2 * inner]);
    assert(own[2 * inner + 1] == stream[b * bb + (2 * inner + 1)]);
}

/// The readings of a channel add up to the samples that the stream has for them.
proof fn lemma_sums_agree(
    l: InterleaveLayout,
    stream: Seq<u8>,
    b: int,
    k: int,
    line: int,
    p: int,
    c: int,
    n: nat,
)
    requires
        l.wf(),
        0 <= b < l.blocks(),
        0 <= k < l.block,
        0 <= line < l.lines,
        0 <= p < l.height,
        0 <= c < 3,
        n <= l.multisample,
        stream.len() == l.blocks() * l.block_bytes(),
    ensures
        l.reading_sum(l.block_of(stream, b), line * l.block + k, p, c, n) == sum_of(
            l,
            stream,
            b * l.block + k,
            p,
            line,
            c,
            n,
        ),
    decreases n,
{
    if n > 0 {
        lemma_sums_agree(l, stream, b, k, line, p, c, (n - 1) as nat);
        lemma_slot_in_range(l, c, n - 1);
        assert(l.slot(c, n - 1) == readout_of(l, c, n - 1));
        lemma_sample_place(l, stream, b, k, line, p, l.slot(c, n - 1));
    }
}

/// Sensor pixel `p`, seen by line `line` at stage position `k` of block `b`, is the pixel of that
/// column in the row `p` rows above the last one: each of its colours is the mean of the readings
/// that the stream has for it, rounded down, and its infrared sample the one reading of that.
pub proof fn lemma_frame_shows_the_film(
    l: InterleaveLayout,
    stream: Seq<u8>,
    b: int,
    k: int,
    line: int,
    p: int,
    c: int,
)
    requires
        l.wf(),
        0 <= b < l.blocks(),
        0 <= k < l.block,
        0 <= line < l.lines,
        0 <= p < l.height,
        0 <= c < 3,
        stream.len() == l.blocks() * l.block_bytes(),
    ensures
        ({
            let f = l.frame(stream);
            let (x, y) = (column_of(l, b, k, line), l.height - 1 - p);
            let at = y * l.width + x;
            let stage = b * l.block + k;
            let sum = sum_of(l, stream, stage, p, line, c, l.multisample as nat);
            &&& f.width == l.width && f.height == l.height
            &&& 0 <= x < l.width
            &&& 0 <= at * 3 + c < f.rgb.len()
            &&& f.rgb[at * 3 + c] * l.multisample <= sum < f.rgb[at * 3 + c] * l.multisample
                + l.multisample
            &&& f.ir is Some <==> l.ir
            &&& f.ir matches Some(ir) ==> 0 <= at < ir.len() && ir[at] == number_at(
                stream,
                place_of(l, stage, 3, p, line),
            )
        }),
{
    let f = l.frame(stream);
    let (x, y) = (column_of(l, b, k, line), l.height - 1 - p);
    let (col, strip) = (line * l.block + k, l.strip());
    lemma_strip(l, b);
    lemma_sample_place(l, stream, b, k, line, p, c);
    vstd::arithmetic::div_mod::lemma_fundamental_div_mod_converse(x, strip, b, col);
    lemma_position(l.width, l.height, x, y, c);
    lemma_position(l.width, l.height, x, y, 0);
    lemma_sums_agree(l, stream, b, k, line, p, c, l.multisample as nat);
    let block = l.block_of(stream, b);
    lemma_reading_sum_bound(l, block, col, p, c, l.multisample as nat);
    let (sum, m) = (l.reading_sum(block, col, p, c, l.multisample as nat), l.multisample);
    assert(sum / m * m <= sum < sum / m * m + m && 0 <= sum / m <= 0xFFFF) by (nonlinear_arith)
        requires
            1 <= m,
            0 <= sum <= m * 0xFFFF,
    ;
    if l.ir {
        lemma_sample_place(l, stream, b, k, line, p, 3);
    }
}

} // verus!
