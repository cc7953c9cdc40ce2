//! Control of Nikon Coolscan film scanners: the SCSI commands they speak, the scan
//! drive of the LS-50, and the decoding of both models' image streams.

pub mod cli;
pub mod scanners;
pub mod scsi;
pub mod text;
