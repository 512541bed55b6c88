//! A fixed-point, multi-channel audio mixing and metering engine.
//!
//! A mixer owns a fixed row of input strips and one master strip. Once per
//! block of audio every strip takes its own input buffer, applies its gain
//! and, if asked, a hard limiter, meters what it emits and adds it to a shared
//! bus unless mute or solo arbitration silences it. The master stage then
//! normalizes, scales and limits the bus into the output and meters it.
//!
//! Samples, gains and meter readings are signed Q7.24 fixed-point numbers held
//! in `i32`: the value `ONE` stands for unity. Every arithmetic step rounds
//! toward zero and saturates at the ends of the `i32` range instead of
//! wrapping.
//!
//! Each type has a mathematical model (`Meter`, `Strip`, `Console`) that the
//! contracts are stated over, and the laws of the engine are proved as public
//! proof functions next to the model they speak of.
//!
//! - `fixed`: saturating fixed-point arithmetic
//! - `block`: buffers of samples
//! - `rms`: root-mean-square level and the integer square root
//! - `channel`: one strip with its controls and meters
//! - `display`: what a level display shows of a strip
//! - `label`: names of the input strips
//! - `mixer`: the mixer and its block processing

pub mod block;
pub mod fixed;
pub mod rms;
pub mod channel;
pub mod display;
pub mod label;
pub mod mixer;
