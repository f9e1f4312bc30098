use br_punch::frame::{
    capture_matches, get_packet_meta, is_probe_frame, meta_from_slices, pick_template, spoof_packet,
    template_from_capture, template_from_probe, PacketMeta, ProbeError, SlicedFrame,
};
use br_punch::host::{on_channel_event, ChannelEvent, HostAction};

fn meta() -> PacketMeta {
    PacketMeta { src_mac: [0x02, 0, 0, 0, 0, 0x01], dst_mac: [0x02, 0, 0, 0, 0, 0xfe], src_ip: [192, 168, 1, 20] }
}

fn sum16(words: &[u8]) -> u32 {
    let mut s: u32 = 0;
    for c in words.chunks(2) {
        s += ((c[0] as u32) << 8) | (*c.get(1).unwrap_or(&0) as u32);
    }
    while s > 0xffff {
        s = (s & 0xffff) + (s >> 16);
    }
    s
}

fn be16(b: &[u8], i: usize) -> u16 {
    ((b[i] as u16) << 8) | b[i + 1] as u16
}

#[test]
fn forged_frame_layout_and_checksums() {
    let m = meta();
    let f = spoof_packet(m, 7777, [5, 6, 7, 8], 51000).expect("frame");
    assert_eq!(f.len(), 42);
    assert_eq!(&f[0..6], &m.dst_mac);
    assert_eq!(&f[6..12], &m.src_mac);
    assert_eq!(&f[12..14], &[0x08, 0x00]);
    assert_eq!(f[14], 0x45);
    assert_eq!(be16(&f, 16), 28);
    // flags (don't-fragment clear) and fragment offset
    assert_eq!(&f[20..22], &[0, 0]);
    assert_eq!(f[22], 20);
    assert_eq!(f[23], 17);
    assert_eq!(&f[26..30], &m.src_ip);
    assert_eq!(&f[30..34], &[5, 6, 7, 8]);
    assert_eq!(be16(&f, 34), 7777);
    assert_eq!(be16(&f, 36), 51000);
    assert_eq!(be16(&f, 38), 8);
    // IPv4 header checksum
    assert_eq!(sum16(&f[14..34]), 0xffff);
    // UDP checksum over the pseudo-header
    let mut pseudo = Vec::new();
    pseudo.extend_from_slice(&f[26..34]);
    pseudo.extend_from_slice(&[0, 17, 0, 8]);
    pseudo.extend_from_slice(&f[34..42]);
    assert_eq!(sum16(&pseudo), 0xffff);
    assert_ne!(be16(&f, 40), 0);
}

#[test]
fn forged_frame_exact_bytes() {
    let m = PacketMeta { src_mac: [2, 0, 0, 0, 0, 1], dst_mac: [2, 0, 0, 0, 0, 0xfe], src_ip: [192, 168, 1, 10] };
    let f = spoof_packet(m, 7777, [5, 6, 7, 8], 51000).unwrap();
    assert_eq!(
        f,
        vec![
            2, 0, 0, 0, 0, 0xfe, 2, 0, 0, 0, 0, 1, 0x08, 0x00, // Ethernet II
            0x45, 0, 0, 28, 0, 0, 0, 0, 20, 17, 0xd9, 0x11, 192, 168, 1, 10, 5, 6, 7, 8, // IPv4
            0x1e, 0x61, 0xc7, 0x38, 0x00, 0x08, 0x4c, 0x84, // UDP
        ]
    );
}

#[test]
fn forged_frame_reads_back() {
    let m = meta();
    let f = spoof_packet(m, 3333, [10, 0, 0, 7], 44444).unwrap();
    let back = get_packet_meta(f.clone()).unwrap();
    assert_eq!(back.src_mac, m.src_mac);
    assert_eq!(back.dst_mac, m.dst_mac);
    assert_eq!(back.src_ip, m.src_ip);
    assert!(capture_matches(&f, 3333, [10, 0, 0, 7], 44444));
    assert!(!capture_matches(&f, 3334, [10, 0, 0, 7], 44444));
    assert!(!capture_matches(&f, 3333, [10, 0, 0, 8], 44444));
    assert!(!capture_matches(&f, 3333, [10, 0, 0, 7], 44445));
}

#[test]
fn garbage_is_no_template() {
    assert!(get_packet_meta(vec![]).is_none());
    assert!(get_packet_meta(vec![1, 2, 3]).is_none());
    assert!(!capture_matches(&[0u8; 10], 1, [1, 2, 3, 4], 2));
    // an Ethernet II frame that carries no IPv4
    let mut arp = vec![0u8; 42];
    arp[12] = 0x08;
    arp[13] = 0x06;
    assert!(get_packet_meta(arp).is_none());
}

#[test]
fn sliced_frame_decisions() {
    let f = SlicedFrame { src_mac: [1; 6], dst_mac: [2; 6], ipv4: Some(([3; 4], [4; 4])), udp: Some((5, 6)) };
    assert!(is_probe_frame(&f, 5, [4; 4], 6));
    assert!(!is_probe_frame(&f, 6, [4; 4], 5));
    let m = meta_from_slices(&f).unwrap();
    assert_eq!((m.src_mac, m.dst_mac, m.src_ip), ([1; 6], [2; 6], [3; 4]));
    let no_ip = SlicedFrame { ipv4: None, udp: None, ..f };
    assert!(meta_from_slices(&no_ip).is_none());
    assert!(!is_probe_frame(&no_ip, 5, [4; 4], 6));
}

#[test]
fn probe_picks_a_capture() {
    let f = spoof_packet(meta(), 3333, [172, 15, 200, 200], 44444).unwrap();
    let results = vec![
        ("lo".to_string(), None),
        ("eth0".to_string(), Some(f.clone())),
        ("wlan0".to_string(), None),
    ];
    assert_eq!(pick_template(results.clone()), Some(("eth0".to_string(), f.clone())));
    let (dev, m) = template_from_probe(results).unwrap();
    assert_eq!(dev, "eth0");
    assert_eq!(m.src_ip, [192, 168, 1, 20]);
    assert_eq!(m.dst_mac, meta().dst_mac);
}

#[test]
fn probe_without_capture_fails() {
    let results = vec![("lo".to_string(), None), ("eth0".to_string(), None)];
    assert_eq!(template_from_probe(results).unwrap_err(), ProbeError::NoRouteDiscovered);
    assert_eq!(template_from_probe(vec![]).unwrap_err(), ProbeError::NoRouteDiscovered);
    assert_eq!(pick_template(vec![]), None);
}

#[test]
fn probe_with_unreadable_capture_fails() {
    let results = vec![("eth0".to_string(), Some(vec![1u8, 2, 3]))];
    assert_eq!(template_from_probe(results).unwrap_err(), ProbeError::BadTemplate);
}

#[test]
fn probe_without_capture_privilege_fails() {
    assert_eq!(template_from_capture(0, vec![]).unwrap_err(), ProbeError::CaptureUnavailable);
    assert_eq!(
        template_from_capture(1, vec![("eth0".to_string(), None)]).unwrap_err(),
        ProbeError::NoRouteDiscovered
    );
    let f = spoof_packet(meta(), 3333, [172, 15, 200, 200], 44444).unwrap();
    let (dev, m) = template_from_capture(1, vec![("eth0".to_string(), Some(f))]).unwrap();
    assert_eq!(dev, "eth0");
    assert_eq!(m.src_mac, meta().src_mac);
}

#[test]
fn host_punches_on_open() {
    match on_channel_event(meta(), 7777, ChannelEvent::Text("open 5.6.7.8 51000".to_string())) {
        HostAction::Transmit(f) => {
            assert_eq!(be16(&f, 34), 7777);
            assert_eq!(be16(&f, 36), 51000);
            assert_eq!(&f[30..34], &[5, 6, 7, 8]);
            assert_eq!(&f[26..30], &meta().src_ip);
        }
        other => panic!("unexpected {:?}", other),
    }
}

#[test]
fn host_survives_malformed_directive() {
    assert!(matches!(
        on_channel_event(meta(), 7777, ChannelEvent::Text("open foo bar".to_string())),
        HostAction::Malformed
    ));
    assert!(matches!(
        on_channel_event(meta(), 7777, ChannelEvent::Text("open 1.2.3.4 80".to_string())),
        HostAction::Transmit(_)
    ));
}

#[test]
fn host_channel_control_frames() {
    match on_channel_event(meta(), 7777, ChannelEvent::Ping(vec![1, 2, 3])) {
        HostAction::Pong(d) => assert_eq!(d, vec![1, 2, 3]),
        other => panic!("unexpected {:?}", other),
    }
    assert!(matches!(on_channel_event(meta(), 7777, ChannelEvent::Close), HostAction::CloseAndStop));
    assert!(matches!(on_channel_event(meta(), 7777, ChannelEvent::Failed), HostAction::CloseAndStop));
    assert!(matches!(on_channel_event(meta(), 7777, ChannelEvent::Other), HostAction::Ignore));
    assert!(matches!(
        on_channel_event(meta(), 7777, ChannelEvent::Text("hello".to_string())),
        HostAction::Ignore
    ));
}
