//! The decisions of the `nkscan` command-line interface: reading flag values, choosing what to
//! scan, and naming the files.

use crate::text;
use vstd::prelude::*;

pub mod device;
pub mod output;

verus! {

/// Flags shared by `scan` and `strip`.
#[derive(Debug, Clone)]
pub struct ScanCommon {
    /// Output TIFF path (IR written beside it as `*_ir.tiff`).
    pub output: String,
    /// Capture the infrared cleaning plane.
    pub ir: bool,
    /// Optical resolution in DPI (snapped to the sensor grid).
    pub dpi: u16,
    /// Multi-sample count. Only 1 works (a multi-pass scan never streams).
    pub samples: u8,
    /// Autoexposure pre-pass.
    pub ae: bool,
    /// Firmware autofocus at the frame centre.
    pub af: bool,
    /// Feed-axis offset in native pixels applied to each frame.
    pub offset: u32,
}

/// Reject `--samples > 1` at parse time (documents the multi-pass hardware limit).
pub fn parse_samples(s: &str) -> (r: Result<u8, String>)
    ensures
        match text::spelled_number(s@) {
            Some(n) => if n == 1 {
                r == Ok::<u8, String>(1)
            } else if n <= u8::MAX {
                r matches Err(why) && why@
                    == "only --samples 1 works: the multi-pass scan never streams"@
            } else {
                r matches Err(why) && why@ == "expected a number"@
            },
            None => r matches Err(why) && why@ == "expected a number"@,
        },
{
    match text::parse_u8(s) {
        Some(1) => Ok(1),
        Some(_) => Err("only --samples 1 works: the multi-pass scan never streams".to_owned()),
        None => Err("expected a number".to_owned()),
    }
}

/// The log level that `-v` flags ask for.
pub fn log_level(verbose: u8) -> (r: &'static str)
    ensures
        r@ == if verbose == 0 {
            "warn"@
        } else if verbose == 1 {
            "info"@
        } else if verbose == 2 {
            "debug"@
        } else {
            "trace"@
        },
{
    match verbose {
        0 => "warn",
        1 => "info",
        2 => "debug",
        _ => "trace",
    }
}

} // verus!
