//! Groups related texture files into assets and synthesizes new images by
//! copying single channels out of one or more source images into a packed
//! output image.
//!
//! The library itself performs no input or output: images come in as decoded
//! [`raster::Image`] buffers and leave the same way, directory trees come in
//! as listings of file paths, and the session hands back what to write where.
//! Decoding, encoding, walking directories and spawning workers belong to the
//! caller.

pub mod errors;
pub mod format;
pub mod paths;
pub mod pattern;
pub mod raster;
pub mod resolver;

mod swizzle;
pub use swizzle::all_dims;
pub use swizzle::channels_in_range;
pub use swizzle::default_sample;
pub use swizzle::dims_agree;
pub use swizzle::is_present;
pub use swizzle::lemma_swizzle_deterministic;
pub use swizzle::lemma_swizzle_dimension_mismatch;
pub use swizzle::lemma_swizzle_dimensions;
pub use swizzle::lemma_swizzle_empty;
pub use swizzle::parse_description;
pub use swizzle::some_present;
pub use swizzle::spec_swizzle_sample;
pub use swizzle::swizzle_post;
pub use swizzle::to_dynamic;
pub use swizzle::to_luma;
pub use swizzle::to_luma_a;
pub use swizzle::to_rgb;
pub use swizzle::to_rgba;
pub use swizzle::ChannelDescriptor;

pub mod session;
