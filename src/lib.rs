//! Decoding and statistics for a DCC bus monitor: frames of a textual bit
//! stream are decoded into bytes, checked and classified, counted per
//! session, and driven by a control loop that redraws once per burst.

pub mod dcc;
pub mod events;
pub mod handshake;
pub mod session;
pub mod text;
