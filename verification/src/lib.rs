//! A status dashboard's core: decode a device directory's JSON answer with
//! pessimistic defaults, and render the device list as an HTML page.

pub mod device;
pub mod gateway;
pub mod json;
pub mod render;
