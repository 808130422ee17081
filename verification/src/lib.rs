//! Verified core of a pressure-sensitive paint engine.
//!
//! Raw stylus samples are resampled into evenly spaced circular deposits
//! ("dabs"), which accumulate in an isolated stroke buffer and are finally
//! merged into an 8-bit target image under a stroke-wide opacity ceiling.
//! All continuous quantities (colors, alphas, pressures, coordinates) are
//! carried in fixed-point integers so that every numeric step has an exact
//! arithmetic meaning.

pub mod blend;
pub mod fixed;
pub mod pixel;
pub mod rect;
pub mod stamper;
pub mod stroke_buffer;
pub mod tablet;
pub mod texture;
