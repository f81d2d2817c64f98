//! Recording and replaying of input-device event streams.
//!
//! The library holds the logic: the event model, the binary container that
//! stores a recording, the capture step that filters and timestamps raw events,
//! the capability manifest built from a device's answers, and the playback
//! schedule. Talking to devices, files and signals is left to the caller.
pub mod event;
pub mod codec;
pub mod capture;
pub mod probe;
pub mod playback;
