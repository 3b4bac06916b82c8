//! Controller core for addressable RGB lighting and fan hardware driven over
//! a byte-oriented request/response transport.
//!
//! Color values are carried in fixed point: red, green, blue, saturation and
//! value in thousandths of full intensity, hue in thousandths of a degree.
//! Temperatures are carried in hundredths of a degree, matching the wire
//! encoding of the device protocol.

pub mod color;
pub mod corsair;
pub mod device;
pub mod effect;
pub mod manager;
pub mod profile;
