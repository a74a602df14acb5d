//! Telemetry acquisition core: binary packet framing, bounded fan-out buffers,
//! per-channel signal quality, and segmented recording.

pub mod codec;
pub mod acquisition;
pub mod fanout;
pub mod quality;
pub mod recording;
pub mod synth;
pub mod models;
pub mod serial;
