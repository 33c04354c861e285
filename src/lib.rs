//! Border detection, cropping and levels remapping for RGB screenshots.
//!
//! A decoded picture is held as a [`buffer::PixelBuffer`]. [`scan::scan_borders`]
//! finds the tight rectangle around every pixel that is not near-black,
//! [`crop::crop`] copies that rectangle into a buffer of its own, and
//! [`levels::auto_brighten`] lifts dark channel values toward white.
//! [`select`] holds the small decisions used when picking the next picture
//! out of a directory listing.

pub mod buffer;
pub mod crop;
pub mod levels;
pub mod scan;
pub mod select;
