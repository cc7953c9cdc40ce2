//! The LS-50: its adapters, its geometry, and the commands that drive it.

use crate::scsi;
use crate::scsi::bytes;
use crate::scsi::cdbs::{
    Inquiry, InquiryResponse, ReleaseUnit, ReserveUnit, TestUnitReady, VpdInquiry, VpdPage,
};
use crate::scsi::{Command, Error as ScsiError, Transport};
use crate::text;
use holder::Holder;
use status::Status;
use vstd::prelude::*;

pub mod answers;
pub mod decode;
pub mod failures;
pub mod holder;
pub mod laws;
pub mod protocol;
pub mod runs;
pub mod scan;
pub mod status;
pub mod wire;

pub use scan::ScanError;

verus! {

/// Base resolution (`0x0FA0` = 4000 DPI) + native scan area; [`AdapterCaps::default`]
/// fallback when page 0xc1 is unreadable.
pub const BASE_RES: u32 = 4000;

pub const NATIVE_XMAX: u32 = 3945;

pub const NATIVE_YMAX: u32 = 5958;

/// Adapter geometry + frame count from INQUIRY page 0xc1 (SANE `cs3_full_inquiry`);
/// SA-21 constants when absent.
#[derive(Debug, Clone, Copy, PartialEq, Eq, Structural)]
pub struct AdapterCaps {
    /// Frames sensed on the loaded strip (0 = none).
    pub n_frames: u32,
    /// Base (max) optical resolution, DPI.
    pub base_res: u32,
    /// Native scan area in max-resolution pixels.
    pub native_x: u32,
    pub native_y: u32,
}

impl AdapterCaps {
    /// The geometry assumed of an adapter that says nothing.
    pub open spec fn fallback() -> Self {
        AdapterCaps {
            n_frames: 0,
            base_res: BASE_RES,
            native_x: NATIVE_XMAX,
            native_y: NATIVE_YMAX,
        }
    }

    /// What page 0xc1, without its header, says. A field the page is too short for, or that
    /// reads zero, falls back; the boundaries are counts and the native area their last index.
    pub open spec fn of_page(page: Seq<u8>) -> Self {
        AdapterCaps {
            n_frames: if 71 < page.len() {
                page[71] as u32
            } else {
                0
            },
            base_res: if 40 <= page.len() && bytes::be16_at(page, 38) != 0 {
                bytes::be16_at(page, 38) as u32
            } else {
                Self::fallback().base_res
            },
            native_x: if 36 <= page.len() && bytes::be32_at(page, 32) != 0 {
                (bytes::be32_at(page, 32) - 1) as u32
            } else {
                Self::fallback().native_x
            },
            native_y: if 58 <= page.len() && bytes::be32_at(page, 54) != 0 {
                (bytes::be32_at(page, 54) - 1) as u32
            } else {
                Self::fallback().native_y
            },
        }
    }
}

impl AdapterCaps {
    /// The geometry, as it is shown.
    pub open spec fn spelled(self) -> Seq<char> {
        "AdapterCaps { n_frames: "@ + text::decimal(self.n_frames as nat) + ", base_res: "@
            + text::decimal(self.base_res as nat) + ", native_x: "@ + text::decimal(
            self.native_x as nat,
        ) + ", native_y: "@ + text::decimal(self.native_y as nat) + " }"@
    }

    /// Append the geometry as text.
    pub fn push_to(&self, out: &mut String)
        ensures
            final(out)@ == old(out)@ + self.spelled(),
    {
        out.append("AdapterCaps { n_frames: ");
        text::push_decimal(out, self.n_frames as u64);
        out.append(", base_res: ");
        text::push_decimal(out, self.base_res as u64);
        out.append(", native_x: ");
        text::push_decimal(out, self.native_x as u64);
        out.append(", native_y: ");
        text::push_decimal(out, self.native_y as u64);
        out.append(" }");
        assert(out@ =~= old(out)@ + self.spelled());
    }
}

impl Default for AdapterCaps {
    fn default() -> (r: Self)
        ensures
            r == AdapterCaps::fallback(),
    {
        Self { n_frames: 0, base_res: BASE_RES, native_x: NATIVE_XMAX, native_y: NATIVE_YMAX }
    }
}

/// The 32-bit value at offset `i` less one, unless it is absent or zero.
fn last_index_at(d: &[u8], i: usize) -> (r: Option<u32>)
    requires
        i <= 54,
    ensures
        r == if i + 4 <= d@.len() && bytes::be32_at(d@, i as int) != 0 {
            Some((bytes::be32_at(d@, i as int) - 1) as u32)
        } else {
            None::<u32>
        },
{
    if i + 4 <= d.len() {
        let v: u32 = bytes::read_be32(d, i);
        if v != 0 {
            return Some(v - 1);
        }
    }
    None
}

/// Parse page 0xc1 into [`AdapterCaps`]. SANE offsets index the raw response incl. its
/// 4-byte EVPD header; `VpdPage` strips it, so use `offset - 4`. `native_{x,y} =
/// boundary{x,y} - 1` (boundary is a count, geometry uses the max index). Fields fall
/// back to default on a short/zero slice.
pub fn parse_caps(page: &VpdPage) -> (r: AdapterCaps)
    ensures
        r == AdapterCaps::of_page(page.data@),
{
    let d: &[u8] = page.data.as_slice();
    let def = AdapterCaps::default();
    let n_frames: u32 = if 71 < d.len() {
        d[71] as u32
    } else {
        0
    };
    let resy_max: u32 = if 40 <= d.len() {
        bytes::read_be16(d, 38) as u32
    } else {
        0
    };
    AdapterCaps {
        n_frames,
        base_res: if resy_max != 0 {
            resy_max
        } else {
            def.base_res
        },
        native_x: match last_index_at(d, 32) {
            Some(v) => v,
            None => def.native_x,
        },  // boundaryx
        native_y: match last_index_at(d, 54) {
            Some(v) => v,
            None => def.native_y,
        },  // boundaryy
    }
}

/// 16-bit linear RGB (+ IR) over the full frame. The LS-50 scans only at
/// `base_res / pitch`, so `dpi` snaps to the grid (300 -> pitch 13 -> 307 DPI).
#[derive(Debug, Clone, Copy)]
pub struct ScanSettings {
    /// Optical resolution in DPI (snapped to the grid).
    pub dpi: u16,
    /// Capture the infrared plane (channel `0x09`) as a 4th planar channel.
    pub infrared: bool,
    /// Multi-sample count (`d[42]`). Only `1` works: a higher literal count arms a
    /// multi-pass scan that never streams (unresolved).
    pub samples: u8,
    /// Autoexposure pre-pass (`d[42]=0x20` + GET WINDOW read-back). Off = fixed default.
    pub autoexposure: bool,
    /// Firmware autofocus at the frame centre (`E0 0xA0`). Off = focus parked at 0 (soft).
    pub autofocus: bool,
    /// Adapter geometry driving window/read dims: `Ls50::caps` or `AdapterCaps::default`.
    pub caps: AdapterCaps,
}

/// `a / b` rounded to the nearest integer, halves up.
pub open spec fn nearest_quotient(a: int, b: int) -> int {
    (2 * a + b) / (2 * b)
}

/// `n` rounded up to a multiple of 512.
pub open spec fn whole_blocks(n: int) -> int {
    (n + 511) / 512 * 512
}

impl ScanSettings {
    /// Native dots per output pixel. At 0 DPI the quotient has no value, and the pitch is the
    /// largest there is (1 if there is no base resolution either).
    pub open spec fn grid_pitch(self) -> int {
        if self.dpi == 0 {
            if self.caps.base_res == 0 {
                1
            } else {
                u32::MAX as int
            }
        } else {
            let nearest = nearest_quotient(self.caps.base_res as int, self.dpi as int);
            if nearest < 1 {
                1
            } else {
                nearest
            }
        }
    }

    /// Planes on the wire.
    pub open spec fn planes(self) -> int {
        if self.infrared {
            4
        } else {
            3
        }
    }

    /// Output pixels per line.
    pub open spec fn columns(self) -> int {
        self.caps.native_x as int / self.grid_pitch()
    }

    /// Output lines.
    pub open spec fn rows(self) -> int {
        self.caps.native_y as int / self.grid_pitch()
    }

    /// The width of the window in native dots: whole output pixels.
    pub open spec fn native_columns(self) -> int {
        self.columns() * self.grid_pitch()
    }

    /// The height of the window in native dots.
    pub open spec fn native_rows(self) -> int {
        self.rows() * self.grid_pitch()
    }

    /// The resolution that the pitch stands for; its low 16 bits.
    pub open spec fn grid_res(self) -> u16 {
        ((self.caps.base_res as int / self.grid_pitch()) % 0x1_0000) as u16
    }

    /// Bytes per line on the wire.
    pub open spec fn line_len(self) -> int {
        whole_blocks(self.planes() * (self.columns() + self.columns() % 2) * 2)
    }

    /// The pitch is at least 1 and a machine word.
    pub proof fn lemma_grid_pitch(self)
        ensures
            1 <= self.grid_pitch() <= u32::MAX,
            0 <= self.columns() <= self.caps.native_x,
            0 <= self.rows() <= self.caps.native_y,
    {
        let (a, b) = (self.caps.base_res as int, self.dpi as int);
        if b > 0 {
            assert((2 * a + b) / (2 * b) <= u32::MAX) by (nonlinear_arith)
                requires
                    0 <= a <= u32::MAX,
                    1 <= b,
            ;
        }
        let p = self.grid_pitch();
        let (x, y) = (self.caps.native_x as int, self.caps.native_y as int);
        assert(0 <= x / p <= x && 0 <= y / p <= y) by (nonlinear_arith)
            requires
                1 <= p,
                0 <= x,
                0 <= y,
        ;
    }

    /// Native dots per output pixel: `base_res / dpi`, rounded, at least 1.
    pub fn pitch(&self) -> (r: u32)
        ensures
            r == self.grid_pitch(),
    {
        proof {
            self.lemma_grid_pitch();
        }
        if self.dpi == 0 {
            return if self.caps.base_res == 0 {
                1
            } else {
                u32::MAX
            };
        }
        let a: u64 = self.caps.base_res as u64;
        let b: u64 = self.dpi as u64;
        let nearest: u64 = (2 * a + b) / (2 * b);
        if nearest < 1 {
            1
        } else {
            nearest as u32
        }
    }

    /// Colour planes on the wire: 3 (RGB), or 4 with the infrared plane.
    pub fn n_colors(&self) -> (r: usize)
        ensures
            r == self.planes(),
    {
        if self.infrared {
            4
        } else {
            3
        }
    }

    /// Grid-snapped resolution (`base_res / pitch`) for the SET WINDOW descriptor; its low 16
    /// bits.
    pub fn res(&self) -> (r: u16)
        ensures
            r == self.grid_res(),
    {
        proof {
            self.lemma_grid_pitch();
        }
        (self.caps.base_res / self.pitch() % 0x1_0000) as u16
    }

    /// Output `(width, height)` px - drives the READ count and decode.
    pub fn output_dims(&self) -> (r: (u32, u32))
        ensures
            r.0 == self.columns(),
            r.1 == self.rows(),
    {
        proof {
            self.lemma_grid_pitch();
        }
        let pitch: u32 = self.pitch();
        (self.caps.native_x / pitch, self.caps.native_y / pitch)
    }

    /// Native (max-res) window `(width, height)` for the SET WINDOW descriptor.
    pub fn native_dims(&self) -> (r: (u32, u32))
        ensures
            r.0 == self.native_columns(),
            r.1 == self.native_rows(),
            r.0 <= self.caps.native_x,
            r.1 <= self.caps.native_y,
    {
        let pitch: u32 = self.pitch();
        let (w, h) = self.output_dims();
        proof {
            self.lemma_grid_pitch();
            self.lemma_native_dims();
        }
        (w * pitch, h * pitch)
    }

    /// The window covers the native area but for less than one output pixel on each axis.
    pub proof fn lemma_native_dims(self)
        ensures
            0 <= self.native_columns() <= self.caps.native_x < (self.columns() + 1)
                * self.grid_pitch(),
            0 <= self.native_rows() <= self.caps.native_y < (self.rows() + 1) * self.grid_pitch(),
    {
        self.lemma_grid_pitch();
        let p = self.grid_pitch();
        let (x, y) = (self.caps.native_x as int, self.caps.native_y as int);
        let (w, h) = (x / p, y / p);
        assert(0 <= w * p <= x < (w + 1) * p && 0 <= h * p <= y < (h + 1) * p)
            by (nonlinear_arith)
            requires
                1 <= p,
                0 <= x,
                0 <= y,
                w == x / p,
                h == y / p,
        ;
    }

    /// The pitch is the grid step nearest to the asked resolution: no other number of native
    /// dots per output pixel comes closer to `base_res / dpi`.
    pub proof fn lemma_pitch_is_nearest(self, other: int)
        requires
            self.dpi > 0,
            1 <= other,
        ensures
            ({
                let error = self.grid_pitch() * self.dpi - self.caps.base_res;
                let other_error = other * self.dpi - self.caps.base_res;
                (if error < 0 { -error } else { error }) <= (if other_error < 0 {
                    -other_error
                } else {
                    other_error
                })
            }),
    {
        let (a, b, p) = (self.caps.base_res as int, self.dpi as int, self.grid_pitch());
        let n = (2 * a + b) / (2 * b);
        assert(n * b * 2 <= 2 * a + b < (n + 1) * b * 2) by (nonlinear_arith)
            requires
                1 <= b,
                0 <= a,
                n == (2 * a + b) / (2 * b),
        ;
        assert((n + 1) * b == n * b + b) by (nonlinear_arith);
        if other > p {
            assert(other * b >= p * b + b) by (nonlinear_arith)
                requires
                    other >= p + 1,
                    1 <= b,
            ;
        } else if other < p {
            assert(other * b + b <= p * b) by (nonlinear_arith)
                requires
                    other + 1 <= p,
                    1 <= b,
            ;
        }
        assert(n >= 0) by (nonlinear_arith)
            requires
                n == (2 * a + b) / (2 * b),
                1 <= b,
                0 <= a,
        ;
        if n < 1 {
            assert(n * b == 0) by (nonlinear_arith)
                requires
                    n == 0,
            ;
        }
    }

    /// The pitch is the quotient of the resolutions to the nearest whole number, a half rounded
    /// up, and at least 1.
    pub proof fn lemma_pitch_rounds(self)
        requires
            self.dpi > 0,
        ensures
            1 <= self.grid_pitch(),
            1 < self.grid_pitch() ==> (2 * self.grid_pitch() - 1) * self.dpi <= 2
                * self.caps.base_res,
            2 * self.caps.base_res < (2 * self.grid_pitch() + 1) * self.dpi,
    {
        let (a, b, p) = (self.caps.base_res as int, self.dpi as int, self.grid_pitch());
        let n = (2 * a + b) / (2 * b);
        assert(n * (2 * b) <= 2 * a + b < (n + 1) * (2 * b)) by (nonlinear_arith)
            requires
                1 <= b,
                0 <= a,
                n == (2 * a + b) / (2 * b),
        ;
        assert(n * (2 * b) == (2 * n - 1) * b + b && (n + 1) * (2 * b) == (2 * n + 1) * b + b)
            by (nonlinear_arith);
        if n < 1 {
            assert((2 * n + 1) * b <= (2 * p + 1) * b) by (nonlinear_arith)
                requires
                    n < 1,
                    p == 1,
                    1 <= b,
            ;
        }
    }

    /// Without a resolution to divide by, one pixel takes in everything, or one dot if there is no
    /// base resolution either.
    pub proof fn lemma_pitch_without_dpi(self)
        requires
            self.dpi == 0,
        ensures
            self.caps.base_res > 0 ==> self.grid_pitch() == u32::MAX,
            self.caps.base_res == 0 ==> self.grid_pitch() == 1,
    {
    }

    /// Lines and columns are as many whole pixels of the pitch as fit in the native area, and the
    /// window covers just these. Without infrared there are three planes, with it four. The
    /// resolution is as many whole pixels as fit in an inch.
    pub proof fn lemma_grid(self)
        ensures
            self.native_columns() == self.columns() * self.grid_pitch(),
            self.native_rows() == self.rows() * self.grid_pitch(),
            self.native_columns() <= self.caps.native_x < self.native_columns()
                + self.grid_pitch(),
            self.native_rows() <= self.caps.native_y < self.native_rows() + self.grid_pitch(),
            self.planes() == if self.infrared {
                4int
            } else {
                3
            },
            self.caps.base_res <= u16::MAX ==> self.grid_res() * self.grid_pitch()
                <= self.caps.base_res < self.grid_res() * self.grid_pitch() + self.grid_pitch(),
            self.grid_res() == self.caps.base_res as int / self.grid_pitch() % 0x1_0000,
    {
        self.lemma_grid_pitch();
        self.lemma_native_dims();
        let (w, h, p) = (self.columns(), self.rows(), self.grid_pitch());
        assert((w + 1) * p == w * p + p && (h + 1) * p == h * p + p) by (nonlinear_arith);
        let base = self.caps.base_res as int;
        if base <= u16::MAX {
            let res = base / p;
            assert(0 <= res <= base && res * p <= base < res * p + p) by (nonlinear_arith)
                requires
                    1 <= p,
                    0 <= base,
                    res == base / p,
            ;
        }
    }

    /// On-wire bytes/line: `n_colors` planes, each `width` samples padded even at
    /// 2 bytes/sample, line block-padded to a 512 multiple.
    pub fn bytes_per_line(&self) -> (r: usize)
        requires
            self.line_len() <= usize::MAX,
        ensures
            r == self.line_len(),
    {
        let (w, _) = self.output_dims();
        let even_w: u64 = w as u64 + w as u64 % 2;
        let planes: u64 = if self.infrared {
            4
        } else {
            3
        };
        let n: u64 = planes * even_w * 2;
        ((n + 511) / 512 * 512) as usize
    }

    /// Whether a frame of this geometry fits in memory.
    pub fn fits(&self) -> (r: bool)
        ensures
            r == decode::settings_fit(*self),
    {
        let (width, height) = self.output_dims();
        proof {
            self.lemma_grid_pitch();
            self.lemma_line_len();
            assert(0 <= width * height <= u64::MAX) by (nonlinear_arith)
                requires
                    0 <= width <= u32::MAX,
                    0 <= height <= u32::MAX,
            ;
            let (line, max) = (self.line_len(), u64::MAX as int);
            assert(line * height <= max <==> height == 0 || line <= max / (height as int))
                by (nonlinear_arith)
                requires
                    0 <= height,
                    0 <= line,
                    0 <= max,
            ;
        }
        let pixels: u64 = (width as u64) * (height as u64);
        let even_w: u64 = width as u64 + width as u64 % 2;
        let planes: u64 = if self.infrared {
            4
        } else {
            3
        };
        let line: u64 = (planes * even_w * 2 + 511) / 512 * 512;
        proof {
            let (w, n, even) = (width as int, self.planes(), decode::plane_len(width as int));
            assert(2 * ((n - 1) * even + w) <= n * even * 2) by (nonlinear_arith)
                requires
                    0 <= w <= even,
            ;
        }
        3 * (width as u64) <= usize::MAX as u64 && line <= isize::MAX as u64 && pixels
            <= isize::MAX as u64 / 6 && (height == 0 || line <= u64::MAX / height as u64)
    }

    /// A frame fits in memory wherever its whole native area would, at any resolution.
    pub proof fn lemma_area_fits(self)
        requires
            self.caps.native_x * self.caps.native_y * 3 * 2 <= isize::MAX,
            8 * (self.caps.native_x + 1) + 512 <= isize::MAX,
            (8 * (self.caps.native_x + 1) + 512) * self.caps.native_y <= u64::MAX,
        ensures
            decode::settings_fit(self),
    {
        self.lemma_grid_pitch();
        self.lemma_line_len();
        let (w, h, n, even) = (
            self.columns(),
            self.rows(),
            self.planes(),
            decode::plane_len(self.columns()),
        );
        let (x, y) = (self.caps.native_x as int, self.caps.native_y as int);
        assert(2 * ((n - 1) * even + w) <= n * even * 2) by (nonlinear_arith)
            requires
                0 <= w <= even,
        ;
        assert(w * h * 3 * 2 <= x * y * 3 * 2) by (nonlinear_arith)
            requires
                0 <= w <= x,
                0 <= h <= y,
        ;
        let line = self.line_len();
        assert(line <= 8 * (x + 1) + 512);
        assert(line * h <= (8 * (x + 1) + 512) * y) by (nonlinear_arith)
            requires
                0 <= line <= 8 * (x + 1) + 512,
                0 <= h <= y,
        ;
    }

    /// Whether the bounds of the frames on a strip of `n_frames` frames, `subframe` native
    /// pixels into the first, are 32-bit numbers.
    pub fn bounds_fit(&self, n_frames: u32, subframe: u32) -> (r: bool)
        ensures
            r == protocol::bounds_fit(*self, n_frames as nat, subframe as int),
    {
        let pitch: u64 = scan::pitch_native() as u64;
        let end: u64 = n_frames as u64 * pitch + subframe as u64;
        (n_frames == 0 || self.caps.native_x > 0) && end <= u32::MAX as u64 + 1
    }

    /// Whether the middle of frame `frame` is a 32-bit number, where it is focused on.
    pub fn middle_fits(&self, frame: u32, subframe: u32) -> (r: bool)
        ensures
            r == protocol::middle_fits(*self, frame as int, subframe as int),
    {
        let pitch: u64 = scan::pitch_native() as u64;
        let start: u64 = frame as u64 * pitch + subframe as u64;
        let (_, native_h) = self.native_dims();
        !self.autofocus || start + native_h as u64 / 2 <= u32::MAX as u64
    }

    /// How many frames of a strip of `n_frames` frames have middles that fit.
    pub fn frames_in_reach(&self, n_frames: u32, subframe: u32) -> (r: u32)
        ensures
            r == protocol::frames_in_reach(*self, n_frames as nat, subframe as int),
            r <= n_frames,
            r > 0 ==> protocol::middle_fits(*self, r - 1, subframe as int),
    {
        let mut count: u32 = n_frames;
        while count > 0 && !self.middle_fits(count - 1, subframe)
            invariant
                count <= n_frames,
                protocol::frames_in_reach(*self, n_frames as nat, subframe as int)
                    == protocol::frames_in_reach(*self, count as nat, subframe as int),
            decreases count,
        {
            count = count - 1;
        }
        count
    }

    /// Whether the places on a strip of `n_frames` frames, `subframe` native pixels into the
    /// first, are 32-bit numbers.
    pub fn strip_fits(&self, n_frames: u32, subframe: u32) -> (r: bool)
        ensures
            r == protocol::strip_fits(*self, n_frames as nat, subframe as int),
    {
        self.bounds_fit(n_frames, subframe) && (n_frames == 0 || self.middle_fits(
            n_frames - 1,
            subframe,
        ))
    }

    /// A line holds its planes, each padded to an even number of samples, and less than one
    /// block of padding after them; it is a whole number of blocks.
    pub proof fn lemma_line_len(self)
        ensures
            self.line_len() % 512 == 0,
            self.planes() * (self.columns() + self.columns() % 2) * 2 <= self.line_len(),
            self.line_len() < self.planes() * (self.columns() + self.columns() % 2) * 2 + 512,
    {
        self.lemma_grid_pitch();
    }

    /// Total image bytes the scanner returns for this frame.
    pub fn expected_bytes(&self) -> (r: u64)
        requires
            self.line_len() <= usize::MAX,
            self.line_len() * self.rows() <= u64::MAX,
        ensures
            r == self.line_len() * self.rows(),
    {
        let (_, height) = self.output_dims();
        self.bytes_per_line() as u64 * height as u64
    }
}

/// The identity in `r`, as a mathematical object.
pub open spec fn identity(r: Result<InquiryResponse, ScsiError>) -> Result<
    protocol::Identity,
    ScsiError,
> {
    match r {
        Ok(response) => Ok(
            protocol::Identity {
                vendor: response.vendor@,
                product: response.product@,
                revision: response.revision@,
            },
        ),
        Err(err) => Err(err),
    }
}

/// Nikon LS-50 ED (Super Coolscan V ED), 35mm USB film scanner. Generic over the
/// transport.
pub struct Ls50<T> {
    transport: T,
}

impl<T> Ls50<T> where T: Transport {
    /// Everything that has happened on the link.
    pub closed spec fn log(&self) -> Seq<scsi::Event> {
        self.transport.events()
    }

    pub fn new(transport: T) -> (r: Self)
        ensures
            r.log() == transport.events(),
    {
        Ls50 { transport }
    }

    /// The link.
    pub fn transport(&self) -> (r: &T)
        ensures
            r.events() == self.log(),
    {
        &self.transport
    }

    /// Send one command.
    fn send<C: Command>(&mut self, command: &C) -> (r: Result<C::Response, ScsiError>)
        ensures
            final(self).log() == old(self).log().push(
                scsi::Event::Exchange {
                    request: scsi::request(command.cdb_bytes(), command.phase()),
                    reply: scsi::reply_at(final(self).log(), old(self).log().len() as int),
                },
            ),
            scsi::reply_at(final(self).log(), old(self).log().len() as int).data.len()
                == scsi::request(command.cdb_bytes(), command.phase()).data.len(),
            scsi::answers(
                *command,
                scsi::reply_at(final(self).log(), old(self).log().len() as int),
                r,
            ),
            scsi::answers_fit(old(self).log()) ==> scsi::answers_fit(final(self).log()),
    {
        reveal(scsi::answers_fit);
        self.transport.send(command)
    }

    /// Wait `millis` milliseconds.
    fn pause(&mut self, millis: u64)
        ensures
            final(self).log() == old(self).log().push(scsi::Event::Pause { millis }),
            scsi::answers_fit(old(self).log()) ==> scsi::answers_fit(final(self).log()),
    {
        reveal(scsi::answers_fit);
        self.transport.pause(millis)
    }

    /// INQUIRY identity (`"Nikon"` + `"LS-50"` in vendor/product). Revision is
    /// unreliable (`2.03` on hardware vs `1.02` in the firmware template): don't gate on it.
    pub fn inquiry(&mut self) -> (r: Result<InquiryResponse, ScsiError>)
        ensures
            scsi::extends(final(self).log(), old(self).log()),
            scsi::answers_fit(old(self).log()) ==> scsi::answers_fit(final(self).log()),
            forall|log: Seq<scsi::Event>|
                scsi::extends(log, final(self).log()) ==> #[trigger] protocol::inquiry_walk(
                    log,
                    old(self).log().len(),
                ) == Some((identity(r), final(self).log().len())),
    {
        self.send(&Inquiry::new())
    }

    /// Adapter geometry + frame count from page 0xc1; [`AdapterCaps::default`] if
    /// absent. Read-only.
    pub fn caps(&mut self) -> (r: AdapterCaps)
        ensures
            scsi::extends(final(self).log(), old(self).log()),
            scsi::answers_fit(old(self).log()) ==> scsi::answers_fit(final(self).log()),
            forall|log: Seq<scsi::Event>|
                scsi::extends(log, final(self).log()) ==> #[trigger] protocol::caps_walk(
                    log,
                    old(self).log().len(),
                ) == Some((r, final(self).log().len())),
    {
        match self.send(&VpdInquiry::new(0xC1, 87)) {
            Ok(page) => parse_caps(&page),
            Err(_) => AdapterCaps::default(),
        }
    }

    /// Current readiness state, classified from TEST UNIT READY sense.
    pub fn status(&mut self) -> (r: Result<Status, ScsiError>)
        ensures
            scsi::extends(final(self).log(), old(self).log()),
            scsi::answers_fit(old(self).log()) ==> scsi::answers_fit(final(self).log()),
            forall|log: Seq<scsi::Event>|
                scsi::extends(log, final(self).log()) ==> #[trigger] protocol::status_walk(
                    log,
                    old(self).log().len(),
                ) == Some((r, final(self).log().len())),
    {
        Status::from_outcome(self.send(&TestUnitReady::new()))
    }

    /// Which film adapter is loaded, inferred from the EVPD supported-pages list.
    pub fn holder(&mut self) -> (r: Result<Holder, ScsiError>)
        ensures
            scsi::extends(final(self).log(), old(self).log()),
            scsi::answers_fit(old(self).log()) ==> scsi::answers_fit(final(self).log()),
            forall|log: Seq<scsi::Event>|
                scsi::extends(log, final(self).log()) ==> #[trigger] protocol::holder_walk(
                    log,
                    old(self).log().len(),
                ) == Some((r, final(self).log().len())),
    {
        match self.send(&VpdInquiry::new(Holder::SUPPORTED_PAGES_CODE, Holder::ALLOCATION_LENGTH)) {
            Ok(page) => Ok(Holder::from_supported_pages(&page)),
            Err(err) => Err(err),
        }
    }

    /// Claim exclusive access to the scanner (RESERVE UNIT).
    pub fn reserve(&mut self) -> (r: Result<(), ScsiError>)
        ensures
            scsi::extends(final(self).log(), old(self).log()),
            scsi::answers_fit(old(self).log()) ==> scsi::answers_fit(final(self).log()),
            forall|log: Seq<scsi::Event>|
                scsi::extends(log, final(self).log()) ==> #[trigger] protocol::plain_walk(
                    log,
                    old(self).log().len(),
                    protocol::reserve_request(),
                ) == Some((r, final(self).log().len())),
    {
        self.send(&ReserveUnit::default())
    }

    /// Release exclusive access to the scanner (RELEASE UNIT).
    pub fn release(&mut self) -> (r: Result<(), ScsiError>)
        ensures
            scsi::extends(final(self).log(), old(self).log()),
            scsi::answers_fit(old(self).log()) ==> scsi::answers_fit(final(self).log()),
            forall|log: Seq<scsi::Event>|
                scsi::extends(log, final(self).log()) ==> #[trigger] protocol::plain_walk(
                    log,
                    old(self).log().len(),
                    protocol::release_request(),
                ) == Some((r, final(self).log().len())),
    {
        self.send(&ReleaseUnit::default())
    }
}

} // verus!
