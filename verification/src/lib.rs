//! Verified core of QuicVid: media datagram framing, frame fragmentation and
//! reassembly, receiver statistics, media-run timelines, path-health
//! detection and the migration state machine that drives recovery.

pub mod be;
pub mod client;
pub mod control;
pub mod ids;
pub mod jpeg;
pub mod frame_assembler;
pub mod frame_tracker;
pub mod media;
pub mod media_run;
pub mod migration;
pub mod mouse;
pub mod path_discovery;
pub mod path_health;
pub mod preview;
pub mod server;
pub mod test_pattern;
pub mod text;
