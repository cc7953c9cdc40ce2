//! The LS-9000: what a scan is set to, and the geometry of the stream that follows from it.

use vstd::prelude::*;

pub mod decode;

verus! {

/// Which lines of the CCD are read.
#[derive(Debug, Clone, Copy, PartialEq, Eq, Structural)]
pub enum CcdMode {
    /// All three lines at once
    ThreeLine,
    /// One line
    SingleLine,
}

/// The resolutions the scanner has.
#[derive(Debug, Clone, Copy, PartialEq, Eq, Structural)]
pub enum Dpi {
    _4000,
    _2000,
    _1333,
    _333,
}

impl Dpi {
    /// Native dots per output pixel.
    pub open spec fn step(self) -> int {
        match self {
            Dpi::_4000 => 1,
            Dpi::_2000 => 2,
            Dpi::_1333 => 3,
            Dpi::_333 => 12,
        }
    }

    /// Native dots per output pixel.
    pub fn divisor(self) -> (r: u32)
        ensures
            r == self.step(),
    {
        match self {
            Dpi::_4000 => 1,
            Dpi::_2000 => 2,
            Dpi::_1333 => 3,
            Dpi::_333 => 12,
        }
    }
}

/// How often each position is read.
#[derive(Debug, Clone, Copy, PartialEq, Eq, Structural)]
pub enum Multisample {
    X1,
    X2,
    X4,
    X8,
    X16,
}

impl Multisample {
    /// Readings per position.
    pub open spec fn times(self) -> int {
        match self {
            Multisample::X1 => 1,
            Multisample::X2 => 2,
            Multisample::X4 => 4,
            Multisample::X8 => 8,
            Multisample::X16 => 16,
        }
    }

    /// Readings per position.
    pub fn count(self) -> (r: u32)
        ensures
            r == self.times(),
    {
        match self {
            Multisample::X1 => 1,
            Multisample::X2 => 2,
            Multisample::X4 => 4,
            Multisample::X8 => 8,
            Multisample::X16 => 16,
        }
    }
}

/// Each setting reads twice as often as the one before, and the first once.
pub proof fn lemma_readings_double()
    ensures
        Multisample::X1.times() == 1,
        Multisample::X2.times() == 2 * Multisample::X1.times(),
        Multisample::X4.times() == 2 * Multisample::X2.times(),
        Multisample::X8.times() == 2 * Multisample::X4.times(),
        Multisample::X16.times() == 2 * Multisample::X8.times(),
{
}

/// The part of the film that is scanned, in native dots.
#[derive(Debug, Clone, Copy, PartialEq, Eq, Structural)]
pub struct Window {
    /// Middle of the window along the stage
    pub centre: u32,
    /// Extent along the sensor bar
    pub x: u32,
    /// Extent along the stage
    pub y: u32,
}

impl Window {
    /// A window of `x` by `y` dots around `centre`.
    pub fn centred(centre: u32, x: u32, y: u32) -> (r: Self)
        ensures
            r == (Window { centre, x, y }),
    {
        Window { centre, x, y }
    }
}

/// What a scan is set to.
#[derive(Debug, Clone, Copy)]
pub struct ScanSettings {
    pub ccd_mode: CcdMode,
    /// Whether an infrared readout is taken
    pub ir: bool,
    pub dpi: Dpi,
    pub multisample: Multisample,
    pub window: Window,
}

impl ScanSettings {
    /// The window is a whole number of output pixels each way.
    pub open spec fn divides(self) -> bool {
        self.window.x as int % self.dpi.step() == 0 && self.window.y as int % self.dpi.step() == 0
    }

    /// Output columns.
    pub open spec fn columns(self) -> int {
        self.window.y as int / self.dpi.step()
    }

    /// Output rows.
    pub open spec fn rows(self) -> int {
        self.window.x as int / self.dpi.step()
    }

    /// CCD lines per readout.
    pub open spec fn ccd_lines(self) -> int {
        if self.ccd_mode == CcdMode::ThreeLine {
            3
        } else {
            1
        }
    }

    /// The stage takes a whole number of positions.
    pub open spec fn stages_divide(self) -> bool {
        self.divides() && self.columns() % self.ccd_lines() == 0
    }

    /// Stage positions.
    pub open spec fn stage_count(self) -> int {
        self.columns() / self.ccd_lines()
    }

    /// Stage positions per interleave block.
    pub open spec fn block_len(self) -> int {
        if self.ccd_mode == CcdMode::ThreeLine {
            12int / self.dpi.step()
        } else {
            1
        }
    }

    /// Readouts per stage position: three colours each time, and infrared once.
    pub open spec fn readout_count(self) -> int {
        3 * self.multisample.times() + if self.ir { 1int } else { 0 }
    }

    /// Bytes in the whole stream.
    pub open spec fn stream_len(self) -> int {
        self.stage_count() * (self.readout_count() * (self.rows() * self.ccd_lines())) * 2
    }

    /// The output covers the window: columns along the stage and rows along the sensor bar, each
    /// as many native dots as the resolution takes of 4000 to the inch. Three lines lie 12 native
    /// dots apart. Every stage position reads all lines, three colours each time and infrared
    /// once, two bytes a sample.
    pub proof fn lemma_geometry(self)
        ensures
            self.dpi.step() == match self.dpi {
                Dpi::_4000 => 4000int / 4000,
                Dpi::_2000 => 4000int / 2000,
                Dpi::_1333 => 4000int / 1333,
                Dpi::_333 => 4000int / 333,
            },
            self.divides() ==> self.columns() * self.dpi.step() == self.window.y && self.rows()
                * self.dpi.step() == self.window.x,
            self.ccd_mode == CcdMode::ThreeLine ==> self.ccd_lines() == 3 && self.block_len()
                * self.dpi.step() == 12,
            self.ccd_mode == CcdMode::SingleLine ==> self.ccd_lines() == 1 && self.block_len() == 1,
            self.readout_count() == 3 * self.multisample.times() + if self.ir {
                1int
            } else {
                0
            },
            self.stages_divide() ==> self.stage_count() * self.ccd_lines() == self.columns(),
            self.stages_divide() ==> self.stream_len() == 2 * (self.columns() * self.rows()
                * self.readout_count()),
    {
        let (x, y, step) = (self.window.x as int, self.window.y as int, self.dpi.step());
        if self.divides() {
            vstd::arithmetic::div_mod::lemma_fundamental_div_mod(x, step);
            vstd::arithmetic::div_mod::lemma_fundamental_div_mod(y, step);
            let (w, h) = (self.columns(), self.rows());
            assert(step * w == w * step && step * h == h * step) by (nonlinear_arith);
        }
        assert(12int / 1 * 1 == 12 && 12int / 2 * 2 == 12 && 12int / 3 * 3 == 12 && 12int / 12 * 12
            == 12);
        match self.dpi {
            Dpi::_4000 => {},
            Dpi::_2000 => {},
            Dpi::_1333 => {},
            Dpi::_333 => {},
        }
        if self.stages_divide() {
            let (w, lines, n) = (self.columns(), self.ccd_lines(), self.stage_count());
            vstd::arithmetic::div_mod::lemma_fundamental_div_mod(w, lines);
            let (h, readouts) = (self.rows(), self.readout_count());
            assert(n * (readouts * (h * lines)) * 2 == 2 * (w * h * readouts)) by (nonlinear_arith)
                requires
                    w == lines * n,
            ;
        }
    }

    /// Output `(width, height)` px: the stage runs along the columns, the sensor bar along the
    /// rows. `None` if the window is not a whole number of pixels.
    pub fn output_dims(&self) -> (r: Option<(u32, u32)>)
        ensures
            r is Some <==> self.divides(),
            r matches Some((width, height)) ==> width == self.columns() && height == self.rows(),
    {
        let step: u32 = self.dpi.divisor();
        if self.window.x % step == 0 && self.window.y % step == 0 {
            Some((self.window.y / step, self.window.x / step))
        } else {
            None
        }
    }

    /// CCD lines per readout: 3, or 1 in single-line mode.
    pub fn lines(&self) -> (r: u32)
        ensures
            r == self.ccd_lines(),
    {
        match self.ccd_mode {
            CcdMode::ThreeLine => 3,
            CcdMode::SingleLine => 1,
        }
    }

    /// Stage positions, `None` if the columns do not make a whole number of them.
    pub fn stages(&self) -> (r: Option<u32>)
        ensures
            r is Some <==> self.stages_divide(),
            r matches Some(stages) ==> stages == self.stage_count(),
    {
        let lines: u32 = self.lines();
        match self.output_dims() {
            Some((width, _)) => if width % lines == 0 {
                Some(width / lines)
            } else {
                None
            },
            None => None,
        }
    }

    /// Stage positions per interleave block: the CCD line spacing in output columns
    /// (`12 / k` at `k` native dots per pixel), 1 in single-line mode.
    pub fn ccd_block(&self) -> (r: u32)
        ensures
            r == self.block_len(),
    {
        match self.ccd_mode {
            CcdMode::ThreeLine => 12 / self.dpi.divisor(),
            CcdMode::SingleLine => 1,
        }
    }

    /// Readouts per stage position.
    pub fn readouts(&self) -> (r: u32)
        ensures
            r == self.readout_count(),
    {
        3 * self.multisample.count() + if self.ir {
            1
        } else {
            0
        }
    }

    /// Total stream bytes, `None` if the window does not divide.
    pub fn expected_bytes(&self) -> (r: Option<u64>)
        requires
            self.stages_divide() ==> self.stream_len() <= u64::MAX,
        ensures
            r is Some <==> self.stages_divide(),
            r matches Some(len) ==> len == self.stream_len(),
    {
        let (_, height) = match self.output_dims() {
            Some(dims) => dims,
            None => {
                return None;
            },
        };
        let stages: u64 = match self.stages() {
            Some(stages) => stages as u64,
            None => {
                return None;
            },
        };
        let lines: u64 = self.lines() as u64;
        assert(height * lines <= 3 * u32::MAX) by (nonlinear_arith)
            requires
                0 <= height <= u32::MAX,
                0 <= lines <= 3,
        ;
        let readout_samples: u64 = height as u64 * lines;
        let readouts: u64 = self.readouts() as u64;
        assert(readouts * readout_samples <= 49 * (3 * u32::MAX)) by (nonlinear_arith)
            requires
                0 <= readouts <= 49,
                0 <= readout_samples <= 3 * u32::MAX,
        ;
        let stage_samples: u64 = readouts * readout_samples;
        assert(0 <= stages * stage_samples) by (nonlinear_arith)
            requires
                0 <= stages,
                0 <= stage_samples,
        ;
        Some(stages * stage_samples * 2)
    }
}

} // verus!
