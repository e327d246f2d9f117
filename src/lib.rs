//! Locate a rectangular selection on a multi-monitor virtual desktop, resolve
//! the monitor that owns it, crop that monitor's frame to the selection and
//! decode the QR codes found in the result.

pub mod bounding_box;
pub mod error;
pub mod monitor;
pub mod crop;
pub mod decode;
pub mod gesture;
