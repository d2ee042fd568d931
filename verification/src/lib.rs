//! Receiver for the Nexus-TH wireless temperature and humidity sensor.
//!
//! The sensor keys a radio carrier on and off. Each bit is a short pulse
//! followed by a gap whose width tells a zero from a one; a long gap opens a
//! frame and another closes it. This crate turns the times between level
//! changes of the receiver's output pin into frames of 36 gap widths, and a
//! frame into a reading.
pub mod timing;
pub mod text;
pub mod error;
pub mod bits;
pub mod reading;
pub mod record;
pub mod sampler;
pub mod frame;
pub mod config;
