//! The host agent's control channel: what it does with each frame that the
//! rendezvous service sends it. The channel itself and the capture device
//! are driven by the caller, which performs the returned action.
use vstd::prelude::*;
use crate::directive::{names_open, open_target, parse_directive, Directive};
use crate::frame::{
    df_clear, ipv4_checksum_ok, spoof_packet, udp_checksum_ok, udp_frame_layout, PacketMeta, FORGED_TTL,
};

verus! {

/// A frame received on the control channel, or its failure.
#[derive(Debug)]
pub enum ChannelEvent {
    Text(String),
    Ping(Vec<u8>),
    Close,
    /// Any other frame (binary, pong).
    Other,
    /// The transport failed.
    Failed,
}

/// What the host does in answer.
#[derive(Debug)]
pub enum HostAction {
    /// Write this forged frame to the transmit device, once.
    Transmit(Vec<u8>),
    /// Answer a ping with a pong carrying the same data.
    Pong(Vec<u8>),
    /// Send a close frame and stop the agent.
    CloseAndStop,
    /// An `open` command that does not read: log it and go on.
    Malformed,
    /// Nothing to do (log it and go on).
    Ignore,
}

/// The host's answer to one control-channel event, given the template
/// addresses and the game server's port.
pub fn on_channel_event(meta: PacketMeta, game_port: u16, event: ChannelEvent) -> (r: HostAction)
    ensures
        match event {
            ChannelEvent::Text(msg) => match open_target(msg@) {
                Some(t) => match r {
                    HostAction::Transmit(f) => udp_frame_layout(
                        f@,
                        meta.src_mac@,
                        meta.dst_mac@,
                        meta.src_ip@,
                        t.0,
                        FORGED_TTL,
                        game_port,
                        t.1,
                    ) && ipv4_checksum_ok(f@) && udp_checksum_ok(f@) && df_clear(f@),
                    _ => false,
                },
                None => if names_open(msg@) {
                    r is Malformed
                } else {
                    r is Ignore
                },
            },
            ChannelEvent::Ping(data) => r == HostAction::Pong(data),
            ChannelEvent::Close => r is CloseAndStop,
            ChannelEvent::Failed => r is CloseAndStop,
            ChannelEvent::Other => r is Ignore,
        },
{
    match event {
        ChannelEvent::Text(msg) => match parse_directive(msg.as_str()) {
            Directive::Open { ip, port } => HostAction::Transmit(
                spoof_packet(meta, game_port, ip, port).unwrap(),
            ),
            Directive::Malformed => HostAction::Malformed,
            Directive::Ignored => HostAction::Ignore,
        },
        ChannelEvent::Ping(data) => HostAction::Pong(data),
        ChannelEvent::Close => HostAction::CloseAndStop,
        ChannelEvent::Failed => HostAction::CloseAndStop,
        ChannelEvent::Other => HostAction::Ignore,
    }
}

} // verus!
