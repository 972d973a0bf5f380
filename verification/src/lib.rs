//! Removal of near-duplicate frames from a sequence of still images.
//!
//! Frames are taken in the order of their file names. Each one is compared
//! with the last frame that was kept; it is dropped if the share of pixels in
//! which the two differ is at or below a threshold, and becomes the new point
//! of comparison otherwise.
//!
//! The library decides and computes; reading and deleting files, and running
//! the decoder that writes the frames, is left to its caller.

pub mod extract;
pub mod frames;
pub mod raster;
pub mod scanner;
pub mod similarity;
pub mod threshold;

pub use extract::{
    after_extraction, decimal_text, extraction_command, working_directory, DecoderCommand, DecoderRun,
    NextStep, FRAMES_PER_SECOND,
};
pub use frames::{compare_names, frame_order, has_frame_extension, NameOrder};
pub use raster::Pixel;
pub use scanner::{DecodeError, Scanner, Verdict};
pub use similarity::{are_images_similar, difference_ratio};
pub use threshold::{DifferenceRatio, Threshold};
