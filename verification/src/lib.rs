//! Control core for an RF front-end module: the framed wire protocol between
//! the board and its monitor-and-control host, the numeric conversions that
//! turn sensor counts into physical units, the step-attenuator driver, and the
//! dispatcher that applies host commands to the shared device state.
pub mod arbiter;
pub mod atten;
pub mod cobs;
pub mod codec;
pub mod convert;
pub mod fbits;
pub mod mnc;
pub mod transport;
