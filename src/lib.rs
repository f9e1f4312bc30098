//! Verified core of a UDP hole-punching system: host fingerprints, the
//! control-channel text protocol, the rendezvous registration table, the
//! client's log scanning, and the forging of Ethernet/IPv4/UDP frames whose
//! source port is the game server's own.
pub mod client;
pub mod directive;
pub mod fingerprint;
pub mod frame;
pub mod host;
pub mod rendezvous;
pub mod text;
