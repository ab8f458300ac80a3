//! Drivers for small dot-matrix panels (an e-paper panel, a 4-bit grayscale
//! OLED and a wide monochrome OLED) behind one generic drawing interface.
//!
//! Each driver turns a logical rectangular region and a per-pixel colour
//! function into the exact sequence of addressing commands and tightly packed
//! data bytes its controller requires.  The drivers do not touch hardware:
//! they append [`transaction::Transaction`] values to an internal queue, and a
//! host program drains the queue and performs each action on the bus.  Every
//! contract is stated over the wire log, the mathematical view of that queue.

pub mod display;
pub mod text;
pub mod transaction;
