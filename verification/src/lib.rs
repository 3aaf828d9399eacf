//! Temperature capture sessions: sensor classification, buffered session
//! logs, the capture loop's decisions, and the reading of finished logs
//! into per-device series.

pub mod capture;
pub mod cli;
pub mod display;
pub mod plot;
pub mod readback;
pub mod runs;
pub mod sensors;
pub mod session;
pub mod text;
