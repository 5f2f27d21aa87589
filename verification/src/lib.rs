//! Driver core for the SN3218, an 18-channel constant-current LED driver on
//! a two-wire bus.
//!
//! The core encodes each operation of the chip as a [`Sequence`] of bus
//! writes and decides, from what the bus answers, what is written next. It
//! owns no bus: the caller carries out the writes.

pub mod command;
pub mod driver;
pub mod gamma;
pub mod natural;
pub mod sequence;

pub use driver::{Error, SN3218};
pub use gamma::GammaTable;
pub use sequence::{Action, Event, Sequence};
