//! IEEE 754 binary numbers held by their bit patterns.
//!
//! Every metric that is a fraction (a percentage, a rate, a temperature) is
//! kept as the bits of the number, so that what the monitor decides and
//! computes about it is a statement about integers.

pub mod double;
pub mod rounding;
pub mod single;

pub use double::Double;
pub use single::Single;
