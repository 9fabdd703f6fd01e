//! Drives a single WS2812-family LED through a serial (SPI) data line.
//!
//! Each colour bit becomes a three-bit pulse symbol: clocked at 2.5 MHz,
//! `110` is the long-high "one" code and `100` the short-high "zero" code.
//! `pulse` holds the encoder, `color` the scaling and packing of colours,
//! and `animation` the frame-by-frame driver.
pub mod animation;
pub mod color;
pub mod pulse;
