//! anyMic server core: the v1 wire packet codec, the adaptive jitter
//! buffer's playback state machine, the per-tick playback decisions, the
//! sample ring used by the virtual audio sinks, mDNS service configuration,
//! decoder parameter checks, server settings and errors, and a few
//! address/text helpers.

pub mod text;
pub mod packet;
pub mod jitter;
pub mod sink;
pub mod discovery;
pub mod net;
pub mod decoder;
pub mod config;
pub mod playback;
pub mod server;
