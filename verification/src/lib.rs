//! Verified core of a real-time interpretation client: the protobuf wire
//! format of the translation protocol, the session codec, and the audio
//! buffering logic around capture and playback.

pub mod wire;
pub mod proto;
pub mod text;
pub mod codec;
pub mod types;
pub mod device;
pub mod capture;
pub mod client;
pub mod session;
pub mod playback;
pub mod frames;
pub mod queue;
pub mod wsola;
