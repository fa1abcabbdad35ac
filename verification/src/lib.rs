//! Verified core of an archival image conversion tool: a classic/BigTIFF
//! metadata reader and writer with exact tag-level control, a 16-to-8-bit
//! quantization and dithering engine, an ICC profile selection policy, and
//! the planning logic of the batch conversion orchestrator.
use vstd::prelude::*;

pub mod batch;
pub mod endian;
pub mod jpeg_icc;
pub mod meta;
pub mod pixel;
pub mod policy;
pub mod quantize;
pub mod tiff_read;
pub mod tiff_write;
