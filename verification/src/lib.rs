use vstd::prelude::*;

pub mod analyzer;
pub mod android;
pub mod audio_io;
pub mod audio_linux_aec;
pub mod audio_ring;
pub mod audio_vpio;
pub mod audio_wasapi;
pub mod bench;
pub mod bench_cli;
pub mod birthday;
pub mod bytes;
pub mod call;
pub mod dual_path;
pub mod cli;
pub mod drift_test;
pub mod echo_test;
pub mod encrypted_transport;
pub mod featherchat;
pub mod handshake;
pub mod ice_agent;
pub mod metrics;
pub mod net;
pub mod netcheck;
pub mod order;
pub mod portmap;
pub mod proto;
pub mod random;
pub mod reflect;
pub mod relay_map;
pub mod ring;
pub mod stun;
pub mod sweep;
pub mod text;
pub mod time;

verus! {

} // verus!
