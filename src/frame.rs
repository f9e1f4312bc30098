//! Ethernet II / IPv4 / UDP frames: reading the template captured by the
//! probe, choosing the probe's winner, and forging frames whose UDP source
//! port is the game server's listening port.
use vstd::prelude::*;
use etherparse::{
    InternetSlice, IpHeader, Ipv4Header, LinkSlice, PacketBuilder, SlicedPacket, TransportSlice,
};

verus! {

/// Link and network addresses taken from a real outbound frame of this host.
#[derive(Clone, Copy, Debug)]
pub struct PacketMeta {
    pub src_mac: [u8; 6],
    pub dst_mac: [u8; 6],
    pub src_ip: [u8; 4],
}

/// What the slicer read from a frame: the two MAC addresses, the IPv4
/// source and destination if the frame carries IPv4, and the UDP source and
/// destination ports if it carries UDP.
#[derive(Clone, Copy, Debug)]
pub struct SlicedFrame {
    pub src_mac: [u8; 6],
    pub dst_mac: [u8; 6],
    pub ipv4: Option<([u8; 4], [u8; 4])>,
    pub udp: Option<(u16, u16)>,
}

/// The IPv4 source and destination of a sliced frame.
pub struct IpPair {
    pub src: Seq<u8>,
    pub dst: Seq<u8>,
}

/// A sliced frame as plain values.
pub struct SlicedView {
    pub src_mac: Seq<u8>,
    pub dst_mac: Seq<u8>,
    pub ip: Option<IpPair>,
    pub udp: Option<(u16, u16)>,
}

impl SlicedFrame {
    pub open spec fn view(&self) -> SlicedView {
        SlicedView {
            src_mac: self.src_mac@,
            dst_mac: self.dst_mac@,
            ip: match self.ipv4 {
                Some(p) => Some(IpPair { src: p.0@, dst: p.1@ }),
                None => None,
            },
            udp: self.udp,
        }
    }
}

/// Which headers the slicer finds in a captured Ethernet II frame, and what
/// they hold.
pub uninterp spec fn ethernet_slices(b: Seq<u8>) -> Option<SlicedView>;

/// A big-endian 16-bit field.
pub open spec fn be16(b: Seq<u8>, i: int) -> int {
    b[i] as int * 256 + b[i + 1] as int
}

/// Ethertype IPv4 in an untagged Ethernet II frame.
pub open spec fn is_untagged_ipv4(b: Seq<u8>) -> bool {
    b.len() >= 14 && b[12] == 8 && b[13] == 0
}

/// An untagged Ethernet II frame with an unfragmented IPv4 header of no
/// options whose total length covers the header, carrying UDP, long enough
/// for the UDP header.
pub open spec fn plain_udp_frame(b: Seq<u8>) -> bool {
    &&& b.len() >= 42
    &&& is_untagged_ipv4(b)
    &&& b[14] == 0x45
    &&& be16(b, 16) >= 20
    &&& (b[20] == 0 || b[20] == 0x40)
    &&& b[21] == 0
    &&& b[23] == 17
}

/// The fields of a sliced frame stand where an untagged Ethernet II frame
/// with an IPv4 header puts them; the UDP ports where the IPv4 header has no
/// options and names UDP as its protocol.
pub open spec fn slices_agree_with_bytes(b: Seq<u8>, v: SlicedView) -> bool {
    &&& b.len() >= 14
    &&& plain_udp_frame(b) ==> v.ip is Some && v.udp is Some
    &&& v.dst_mac == b.subrange(0, 6)
    &&& v.src_mac == b.subrange(6, 12)
    &&& (v.ip is Some && is_untagged_ipv4(b)) ==> (b.len() >= 34 && v.ip->0.src == b.subrange(26, 30)
        && v.ip->0.dst == b.subrange(30, 34))
    &&& (v.udp is Some && is_untagged_ipv4(b) && b.len() >= 24 && b[14] == 0x45 && b[23] == 17) ==> (b.len() >= 42 && v.udp == Some(
        (be16(b, 34) as u16, be16(b, 36) as u16),
    ))
}

/// Relies on etherparse::SlicedPacket::from_ethernet: the frame is read as
/// Ethernet II, then VLAN, IPv4 or IPv6, then UDP or another transport; the
/// headers found and their addresses and ports are handed back. A plain
/// UDP frame passes every length, version and fragment check on the way.
#[verifier::external_body]
fn slice_ethernet(b: &[u8]) -> (r: Option<SlicedFrame>)
    ensures
        plain_udp_frame(b@) ==> r is Some,
        match r {
            Some(f) => ethernet_slices(b@) == Some(f@) && slices_agree_with_bytes(b@, f@),
            None => ethernet_slices(b@) is None,
        },
{
    let p = SlicedPacket::from_ethernet(b).ok()?;
    let Some(LinkSlice::Ethernet2(l)) = p.link else { return None };
    let ipv4 = match p.ip {
        Some(InternetSlice::Ipv4(h, _)) => Some((h.source().try_into().ok()?, h.destination().try_into().ok()?)),
        _ => None,
    };
    let udp = match p.transport {
        Some(TransportSlice::Udp(u)) => Some((u.source_port(), u.destination_port())),
        _ => None,
    };
    Some(SlicedFrame { src_mac: l.source().try_into().ok()?, dst_mac: l.destination().try_into().ok()?, ipv4, udp })
}

/// The addresses a template yields: present when the slicer found an
/// Ethernet II frame carrying IPv4.
pub open spec fn meta_of(v: SlicedView) -> Option<(Seq<u8>, Seq<u8>, Seq<u8>)> {
    match v.ip {
        Some(ip) => Some((v.src_mac, v.dst_mac, ip.src)),
        None => None,
    }
}

pub open spec fn meta_view(m: PacketMeta) -> (Seq<u8>, Seq<u8>, Seq<u8>) {
    (m.src_mac@, m.dst_mac@, m.src_ip@)
}

pub open spec fn opt_meta_view(r: Option<PacketMeta>) -> Option<(Seq<u8>, Seq<u8>, Seq<u8>)> {
    match r {
        Some(m) => Some(meta_view(m)),
        None => None,
    }
}

/// Takes the template addresses from what the slicer read.
pub fn meta_from_slices(f: &SlicedFrame) -> (r: Option<PacketMeta>)
    ensures
        opt_meta_view(r) == meta_of(f@),
{
    match f.ipv4 {
        Some(ip) => Some(PacketMeta { src_mac: f.src_mac, dst_mac: f.dst_mac, src_ip: ip.0 }),
        None => None,
    }
}

/// The template addresses of a captured frame: its source and destination
/// MAC and its IPv4 source, or `None` when it is not Ethernet II carrying
/// IPv4.
pub fn get_packet_meta(template: Vec<u8>) -> (r: Option<PacketMeta>)
    ensures
        opt_meta_view(r) == match ethernet_slices(template@) {
            Some(v) => meta_of(v),
            None => None,
        },
        r matches Some(m) ==> m.dst_mac@ == template@.subrange(0, 6) && m.src_mac@
            == template@.subrange(6, 12),
        r matches Some(m) ==> is_untagged_ipv4(template@) ==> m.src_ip@ == template@.subrange(26, 30),
        template@.len() < 14 ==> r is None,
        plain_udp_frame(template@) ==> r is Some,
{
    match slice_ethernet(template.as_slice()) {
        Some(f) => meta_from_slices(&f),
        None => None,
    }
}

/// A sliced frame is one of the probe's own: UDP over IPv4 from the probe's
/// source port to the fabricated destination.
pub open spec fn probe_accepts(v: SlicedView, src_port: u16, dst_ip: Seq<u8>, dst_port: u16) -> bool {
    &&& v.udp is Some
    &&& v.ip is Some
    &&& v.udp->0 == (src_port, dst_port)
    &&& v.ip->0.dst == dst_ip
}

/// Whether a sliced frame is one the probe sent.
pub fn is_probe_frame(f: &SlicedFrame, src_port: u16, dst_ip: [u8; 4], dst_port: u16) -> (r: bool)
    ensures
        r == probe_accepts(f@, src_port, dst_ip@, dst_port),
{
    match (f.ipv4, f.udp) {
        (Some(ip), Some(ports)) => {
            let d = ip.1;
            let same_ip = d[0] == dst_ip[0] && d[1] == dst_ip[1] && d[2] == dst_ip[2] && d[3]
                == dst_ip[3];
            assert(same_ip ==> d@ =~= dst_ip@);
            ports.0 == src_port && ports.1 == dst_port && same_ip
        },
        _ => false,
    }
}

/// Whether a captured frame is one the probe sent: it slices as IPv4 and UDP
/// with the probe's source port, destination address and destination port.
pub fn capture_matches(packet: &[u8], src_port: u16, dst_ip: [u8; 4], dst_port: u16) -> (r: bool)
    ensures
        r == match ethernet_slices(packet@) {
            Some(v) => probe_accepts(v, src_port, dst_ip@, dst_port),
            None => false,
        },
        plain_udp_frame(packet@) ==> r == (be16(packet@, 34) == src_port as int && be16(packet@, 36)
            == dst_port as int && packet@.subrange(30, 34) == dst_ip@),
{
    match slice_ethernet(packet) {
        Some(f) => is_probe_frame(&f, src_port, dst_ip, dst_port),
        None => false,
    }
}

/// Time to live of every forged frame.
pub const FORGED_TTL: u8 = 20;

/// The IPv4 flags byte of a forged frame: don't-fragment clear.
pub open spec fn df_clear(f: Seq<u8>) -> bool {
    f.len() > 20 && f[20] == 0
}

/// The layout of an untagged Ethernet II frame carrying an IPv4 header of no
/// options, with no fragment offset and more-fragments flag clear, and a
/// UDP header with no payload.
pub open spec fn udp_frame_layout(
    f: Seq<u8>,
    src_mac: Seq<u8>,
    dst_mac: Seq<u8>,
    src_ip: Seq<u8>,
    dst_ip: Seq<u8>,
    ttl: u8,
    src_port: u16,
    dst_port: u16,
) -> bool {
    &&& f.len() == 42
    &&& f.subrange(0, 6) == dst_mac
    &&& f.subrange(6, 12) == src_mac
    &&& f[12] == 8 && f[13] == 0
    &&& f[14] == 0x45
    &&& be16(f, 16) == 28
    &&& f[21] == 0
    &&& f[22] == ttl
    &&& f[23] == 17
    &&& f.subrange(26, 30) == src_ip
    &&& f.subrange(30, 34) == dst_ip
    &&& be16(f, 34) == src_port as int
    &&& be16(f, 36) == dst_port as int
    &&& be16(f, 38) == 8
}

/// One round of end-around carry of a ones' complement sum.
pub open spec fn fold16(x: int) -> int {
    x % 65536 + x / 65536
}

/// The sum of `n` big-endian 16-bit words of `b` from `lo` on.
pub open spec fn sum_words(b: Seq<u8>, lo: int, n: nat) -> int
    decreases n,
{
    if n == 0 {
        0
    } else {
        sum_words(b, lo, (n - 1) as nat) + be16(b, lo + 2 * (n - 1))
    }
}

/// The IPv4 header checksum of a frame laid out as `udp_frame_layout`
/// checks: the ones' complement sum of the header's ten words is all ones.
pub open spec fn ipv4_checksum_ok(f: Seq<u8>) -> bool {
    fold16(fold16(sum_words(f, 14, 10))) == 0xffff
}

/// The UDP checksum of such a frame checks over the pseudo-header (both
/// addresses, protocol 17, UDP length 8) and the UDP header.
pub open spec fn udp_checksum_ok(f: Seq<u8>) -> bool {
    &&& fold16(fold16(sum_words(f, 26, 4) + 17 + 8 + sum_words(f, 34, 4))) == 0xffff
    &&& be16(f, 40) != 0
}

/// Relies on etherparse::PacketBuilder (`ethernet2`, `ip`, `udp`, `write`)
/// with an `Ipv4Header` made as `PacketBuilder::ipv4` makes it, but with the
/// don't-fragment flag as given: an Ethernet II header (destination, source,
/// ethertype IPv4), an IPv4 header of 20 bytes with the given addresses and
/// time to live, flags and fragment offset zero, protocol UDP and total
/// length 28, and a UDP header with the given ports and length 8, written
/// with an empty payload. The builder fills in the IPv4 header checksum and
/// the UDP checksum over the IPv4 pseudo-header (never zero). Writing into a
/// `Vec` with an empty payload does not fail.
#[verifier::external_body]
fn build_udp_frame(
    src_mac: [u8; 6],
    dst_mac: [u8; 6],
    src_ip: [u8; 4],
    dst_ip: [u8; 4],
    ttl: u8,
    dont_fragment: bool,
    src_port: u16,
    dst_port: u16,
) -> (r: Option<Vec<u8>>)
    ensures
        r is Some,
        r matches Some(f) ==> f.len() > 20 && f@[20] == (if dont_fragment {
            0x40u8
        } else {
            0u8
        }),
        r matches Some(f) ==> udp_frame_layout(
            f@,
            src_mac@,
            dst_mac@,
            src_ip@,
            dst_ip@,
            ttl,
            src_port,
            dst_port,
        ) && ipv4_checksum_ok(f@) && udp_checksum_ok(f@),
{
    let mut ip = Ipv4Header::default();
    ip.source = src_ip;
    ip.destination = dst_ip;
    ip.time_to_live = ttl;
    ip.dont_fragment = dont_fragment;
    let builder = PacketBuilder::ethernet2(src_mac, dst_mac).ip(IpHeader::Version4(ip, Default::default())).udp(
        src_port,
        dst_port,
    );
    let mut buf = Vec::with_capacity(builder.size(0));
    match builder.write(&mut buf, &[]) {
        Ok(()) => Some(buf),
        Err(_) => None,
    }
}

/// The frame that punches toward `dst_ip:dst_port` from the template's
/// addresses and from `src_port`, the game server's port, with time to live
/// 20, the don't-fragment flag clear, no payload and valid checksums. A
/// frame is always returned.
pub fn spoof_packet(meta: PacketMeta, src_port: u16, dst_ip: [u8; 4], dst_port: u16) -> (r: Option<
    Vec<u8>,
>)
    ensures
        r is Some,
        r matches Some(f) ==> udp_frame_layout(
            f@,
            meta.src_mac@,
            meta.dst_mac@,
            meta.src_ip@,
            dst_ip@,
            FORGED_TTL,
            src_port,
            dst_port,
        ) && ipv4_checksum_ok(f@) && udp_checksum_ok(f@) && df_clear(f@),
{
    build_udp_frame(meta.src_mac, meta.dst_mac, meta.src_ip, dst_ip, FORGED_TTL, false, src_port, dst_port)
}

/// The last device in the list that captured a frame, with that frame.
pub open spec fn last_capture(s: Seq<(String, Option<Vec<u8>>)>) -> Option<(String, Vec<u8>)>
    decreases s.len(),
{
    if s.len() == 0 {
        None
    } else {
        match s.last().1 {
            Some(b) => Some((s.last().0, b)),
            None => last_capture(s.drop_last()),
        }
    }
}

/// Chooses the probe's winner among the capture workers' results (device
/// name, captured frame if any): the last device that captured a frame.
pub fn pick_template(results: Vec<(String, Option<Vec<u8>>)>) -> (r: Option<(String, Vec<u8>)>)
    ensures
        r == last_capture(results@),
{
    let mut rest = results;
    while rest.len() > 0
        invariant
            last_capture(rest@) == last_capture(results@),
        decreases rest@.len(),
    {
        let ghost before = rest@;
        match rest.pop() {
            Some(last) => {
                let (name, bytes) = last;
                match bytes {
                    Some(b) => {
                        return Some((name, b));
                    },
                    None => {
                        assert(rest@ == before.drop_last());
                    },
                }
            },
            None => {},
        }
    }
    None
}

/// Why the probe found no template.
#[derive(Clone, Copy, Debug, PartialEq, Eq, Structural)]
pub enum ProbeError {
    /// No device could be opened for capture.
    CaptureUnavailable,
    /// No device captured one of the probe's frames.
    NoRouteDiscovered,
    /// The captured frame is not Ethernet II carrying IPv4.
    BadTemplate,
}

/// What the probe yields, from the workers' results.
pub open spec fn probe_outcome(s: Seq<(String, Option<Vec<u8>>)>) -> Result<
    (String, (Seq<u8>, Seq<u8>, Seq<u8>)),
    ProbeError,
> {
    match last_capture(s) {
        None => Err(ProbeError::NoRouteDiscovered),
        Some(c) => match ethernet_slices(c.1@) {
            Some(v) => match meta_of(v) {
                Some(m) => Ok((c.0, m)),
                None => Err(ProbeError::BadTemplate),
            },
            None => Err(ProbeError::BadTemplate),
        },
    }
}

/// The transmit device and the template addresses that the probe found:
/// both together, or an error and neither.
pub fn template_from_probe(results: Vec<(String, Option<Vec<u8>>)>) -> (r: Result<
    (String, PacketMeta),
    ProbeError,
>)
    ensures
        match r {
            Ok(p) => probe_outcome(results@) == Ok::<_, ProbeError>((p.0, meta_view(p.1))),
            Err(e) => probe_outcome(results@) == Err::<(String, (Seq<u8>, Seq<u8>, Seq<u8>)), _>(e),
        },
{
    match pick_template(results) {
        None => Err(ProbeError::NoRouteDiscovered),
        Some(c) => {
            let (name, bytes) = c;
            match get_packet_meta(bytes) {
                Some(m) => Ok((name, m)),
                None => Err(ProbeError::BadTemplate),
            }
        },
    }
}

/// The probe's outcome when `opened` devices could be opened for capture and
/// `results` holds what those devices captured: `CaptureUnavailable` when
/// none could be opened, else as `template_from_probe`.
pub fn template_from_capture(opened: usize, results: Vec<(String, Option<Vec<u8>>)>) -> (r: Result<
    (String, PacketMeta),
    ProbeError,
>)
    ensures
        opened == 0 ==> r == Err::<(String, PacketMeta), _>(ProbeError::CaptureUnavailable),
        opened > 0 ==> match r {
            Ok(p) => probe_outcome(results@) == Ok::<_, ProbeError>((p.0, meta_view(p.1))),
            Err(e) => probe_outcome(results@) == Err::<(String, (Seq<u8>, Seq<u8>, Seq<u8>)), _>(e),
        },
{
    if opened == 0 {
        Err(ProbeError::CaptureUnavailable)
    } else {
        template_from_probe(results)
    }
}

/// The slicer reads a forged frame back as what it was forged from: both
/// MAC addresses, both IPv4 addresses and both ports come back unchanged.
pub proof fn lemma_forged_frame_reads_back(
    f: Seq<u8>,
    meta: PacketMeta,
    src_port: u16,
    dst_ip: Seq<u8>,
    dst_port: u16,
    v: SlicedView,
)
    requires
        udp_frame_layout(f, meta.src_mac@, meta.dst_mac@, meta.src_ip@, dst_ip, FORGED_TTL, src_port, dst_port),
        df_clear(f),
        slices_agree_with_bytes(f, v),
    ensures
        plain_udp_frame(f),
        meta_of(v) == Some(meta_view(meta)),
        v.ip->0.dst == dst_ip,
        v.udp == Some((src_port, dst_port)),
{
    assert(plain_udp_frame(f));
    assert(be16(f, 34) as u16 == src_port);
    assert(be16(f, 36) as u16 == dst_port);
}

} // verus!
