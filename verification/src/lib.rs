//! Detection of data hidden in the pixels and raw bytes of PNG and BMP images.
//!
//! An image is looked at under every plausible way of pulling bits out of it,
//! and every byte stream that comes out is run through a chain of detectors.
//!
//! * [`bitpack`], [`extractor`], [`postproc`] and [`prime`] turn an image and
//!   an extraction configuration into a byte stream;
//! * [`detect`], [`file_cmd`] and [`zlib`] classify byte streams;
//! * [`plan`], [`scan`], [`seen`], [`report`] and [`checker`] lay out the sweep
//!   over all configurations and drive it, remembering what has been seen;
//! * [`opts`] holds the configuration surface and its textual shorthand;
//! * [`imageio`] takes PNG and BMP containers apart;
//! * [`result`], [`hexdump`] and [`text`] render what was found.

pub mod bitpack;
pub mod checker;
pub mod detect;
pub mod extractor;
pub mod file_cmd;
pub mod hexdump;
pub mod imageio;
pub mod opts;
pub mod plan;
pub mod postproc;
pub mod prime;
pub mod report;
pub mod result;
pub mod scan;
pub mod seen;
pub mod text;
pub mod zlib;
