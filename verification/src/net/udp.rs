//! UDP headers, the UDP checksum over the IPv4 pseudo header, and whole UDP frames.
use vstd::prelude::*;
use crate::bytes::push_all;
use crate::checksum::{
    be_words_sum, fold_carries, fold_u32, add_be_words, lemma_fold_carries,
    lemma_be_words_sum_bound, lemma_complemented_sum_folds_to_ffff, lemma_sum_with_word,
    ones_complement,
};
use crate::net::ip::{Ipv4Header, ipv4_new, ipv4_bytes, swap16, swap_bytes16};

verus! {

/// A UDP header. Multi-byte fields hold the value whose little-endian
/// in-memory bytes are the wire bytes.
pub struct UdpHeader {
    pub src_port: u16,
    pub dst_port: u16,
    pub length: u16,
    pub checksum: u16,
}

pub fn truncate_to_u16(x: usize) -> (r: u16)
    ensures
        r == x % 0x10000,
{
    let r = x as u16;
    assert(r == x % 0x10000) by (bit_vector)
        requires
            r == x as u16,
    ;
    r
}

impl UdpHeader {
    /// A header for `data_len` payload bytes; the checksum is left zero.
    pub fn new(src_port: u16, dst_port: u16, data_len: usize) -> (h: Self)
        requires
            data_len % 0x10000 + 8 <= 0xFFFF,
        ensures
            h.src_port == swap16(src_port),
            h.dst_port == swap16(dst_port),
            h.length == swap16((8 + data_len % 0x10000) as u16),
            h.checksum == 0,
    {
        let low = truncate_to_u16(data_len);
        UdpHeader {
            src_port: swap_bytes16(src_port),
            dst_port: swap_bytes16(dst_port),
            length: swap_bytes16(8 + low),
            checksum: 0,
        }
    }
}

/// The IPv4 pseudo header's contribution to the UDP checksum sum.
pub open spec fn ip_pseudo_sum(src: [u8; 4], dst: [u8; 4], protocol: u8, len: nat) -> nat {
    (src[0] as nat) * 256 + src[1] as nat + (src[2] as nat) * 256 + src[3] as nat
        + (dst[0] as nat) * 256 + dst[1] as nat + (dst[2] as nat) * 256 + dst[3] as nat
        + protocol as nat + len % 0x10000
}

/// The unfolded sum of the pseudo header and the segment's words.
pub open spec fn udp_checksum_total(src: [u8; 4], dst: [u8; 4], protocol: u8, data: Seq<u8>) -> nat {
    ip_pseudo_sum(src, dst, protocol, data.len()) + be_words_sum(data)
}

/// The UDP checksum: the one's complement of the folded sum, with 0xFFFF in place of zero.
pub open spec fn udp_checksum_value(src: [u8; 4], dst: [u8; 4], protocol: u8, data: Seq<u8>) -> u16 {
    let f = fold_carries(udp_checksum_total(src, dst, protocol, data));
    if f == 0xFFFF {
        0xFFFF
    } else {
        (0xFFFF - f) as u16
    }
}

/// A segment of at most 131062 bytes never overflows the 32-bit running sum.
pub proof fn lemma_udp_total_fits(src: [u8; 4], dst: [u8; 4], protocol: u8, data: Seq<u8>)
    requires
        data.len() <= 131062,
    ensures
        udp_checksum_total(src, dst, protocol, data) <= u32::MAX,
{
    lemma_be_words_sum_bound(data);
    assert(0xFFFF * ((data.len() + 1) / 2) <= 0xFFFF * 65531) by (nonlinear_arith)
        requires
            data.len() <= 131062,
    ;
}

/// The UDP checksum of `udp_data` (header and payload) with the IPv4 pseudo header.
pub fn calc_udp_checksum(src_ip: &[u8; 4], dst_ip: &[u8; 4], protocol: u8, udp_data: &[u8]) -> (r: u16)
    requires
        udp_checksum_total(*src_ip, *dst_ip, protocol, udp_data@) <= u32::MAX,
    ensures
        r == udp_checksum_value(*src_ip, *dst_ip, protocol, udp_data@),
{
    let udp_len = truncate_to_u16(udp_data.len());
    let pseudo: u32 = (src_ip[0] as u32) * 256 + src_ip[1] as u32 + (src_ip[2] as u32) * 256
        + src_ip[3] as u32 + (dst_ip[0] as u32) * 256 + dst_ip[1] as u32
        + (dst_ip[2] as u32) * 256 + dst_ip[3] as u32 + protocol as u32 + udp_len as u32;
    let sum = add_be_words(pseudo, udp_data);
    let folded = fold_u32(sum);
    proof {
        lemma_fold_carries(sum as nat);
    }
    if folded == 0xFFFF {
        0xFFFF
    } else {
        0xFFFF - folded
    }
}

/// The UDP segment bytes of a frame built by `build_udp_packet`: ports,
/// length and checksum in network (big-endian) byte order, then the data.
pub open spec fn udp_segment(src_port: u16, dst_port: u16, data: Seq<u8>, checksum: u16) -> Seq<u8> {
    let len = 8 + data.len() % 0x10000;
    seq![
        (src_port as nat / 256) as u8, (src_port as nat % 256) as u8,
        (dst_port as nat / 256) as u8, (dst_port as nat % 256) as u8,
        (len / 256) as u8, (len % 256) as u8,
        (checksum as nat / 256) as u8, (checksum as nat % 256) as u8,
    ] + data
}

/// The checksum `build_udp_packet` puts into the segment.
pub open spec fn udp_frame_checksum(src_ip: [u8; 4], dst_ip: [u8; 4], src_port: u16, dst_port: u16, data: Seq<u8>) -> u16 {
    udp_checksum_value(src_ip, dst_ip, 17, udp_segment(src_port, dst_port, data, 0))
}

/// The Ethernet frame `build_udp_packet` returns.
pub open spec fn udp_frame(
    src_mac: [u8; 6],
    dst_mac: [u8; 6],
    src_ip: [u8; 4],
    dst_ip: [u8; 4],
    src_port: u16,
    dst_port: u16,
    data: Seq<u8>,
) -> Seq<u8> {
    dst_mac@ + src_mac@ + seq![0x08u8, 0x00u8]
        + ipv4_bytes(ipv4_new(src_ip, dst_ip, (8 + data.len()) as u16, 17))
        + udp_segment(src_port, dst_port, data, udp_frame_checksum(src_ip, dst_ip, src_port, dst_port, data))
}

proof fn lemma_swap16_bytes(x: u16)
    ensures
        swap16(x) as nat / 256 == x as nat % 256,
        swap16(x) as nat % 256 == x as nat / 256,
{
    let lo = x as nat % 256;
    let hi = x as nat / 256;
    assert(hi < 256);
    assert(lo * 256 + hi < 0x10000);
    assert(swap16(x) as nat == lo * 256 + hi);
    vstd::arithmetic::div_mod::lemma_fundamental_div_mod_converse((lo * 256 + hi) as int, 256, lo as int, hi as int);
}

/// Builds an Ethernet frame carrying an IPv4 UDP datagram with `data` as payload.
pub fn build_udp_packet(
    src_mac: [u8; 6],
    dst_mac: [u8; 6],
    src_ip: [u8; 4],
    dst_ip: [u8; 4],
    src_port: u16,
    dst_port: u16,
    data: &[u8],
) -> (pkt: Vec<u8>)
    requires
        data@.len() <= 0xFFFF - 28,
    ensures
        pkt@ == udp_frame(src_mac, dst_mac, src_ip, dst_ip, src_port, dst_port, data@),
{
    // The header's fields hold the network-order values, so their
    // in-memory (little-endian) bytes are the wire bytes.
    let udp = UdpHeader::new(src_port, dst_port, data.len());
    let sp = [(udp.src_port % 256) as u8, (udp.src_port / 256) as u8];
    let dp = [(udp.dst_port % 256) as u8, (udp.dst_port / 256) as u8];
    let ln = [(udp.length % 256) as u8, (udp.length / 256) as u8];
    proof {
        lemma_swap16_bytes(src_port);
        lemma_swap16_bytes(dst_port);
        lemma_swap16_bytes((8 + data@.len() % 0x10000) as u16);
    }
    let mut udp_buf: Vec<u8> = Vec::new();
    udp_buf.push(sp[0]);
    udp_buf.push(sp[1]);
    udp_buf.push(dp[0]);
    udp_buf.push(dp[1]);
    udp_buf.push(ln[0]);
    udp_buf.push(ln[1]);
    udp_buf.push(0);
    udp_buf.push(0);
    push_all(&mut udp_buf, data);
    assert(udp_buf@ =~= udp_segment(src_port, dst_port, data@, 0));
    proof {
        lemma_udp_total_fits(src_ip, dst_ip, 17, udp_buf@);
    }
    let checksum = calc_udp_checksum(&src_ip, &dst_ip, 17, udp_buf.as_slice());
    udp_buf.set(6, (checksum / 256) as u8);
    udp_buf.set(7, (checksum % 256) as u8);
    assert(udp_buf@ =~= udp_segment(src_port, dst_port, data@, checksum));
    let ip = Ipv4Header::new(src_ip, dst_ip, udp_buf.len() as u16, 17);
    let ip_bytes = ip.to_bytes();
    let mut pkt: Vec<u8> = Vec::new();
    push_all(&mut pkt, dst_mac.as_slice());
    push_all(&mut pkt, src_mac.as_slice());
    pkt.push(0x08);
    pkt.push(0x00);
    push_all(&mut pkt, ip_bytes.as_slice());
    push_all(&mut pkt, udp_buf.as_slice());
    assert(pkt@ =~= udp_frame(src_mac, dst_mac, src_ip, dst_ip, src_port, dst_port, data@));
    pkt
}

/// Recomputing the UDP checksum over the segment of a built frame, checksum
/// in place, gives 0xFFFF: the receiver's check succeeds.
pub proof fn law_udp_frame_checksum_verifies(
    src_ip: [u8; 4],
    dst_ip: [u8; 4],
    src_port: u16,
    dst_port: u16,
    data: Seq<u8>,
)
    requires
        data.len() <= 0xFFFF - 28,
    ensures
        fold_carries(udp_checksum_total(src_ip, dst_ip, 17,
            udp_segment(src_port, dst_port, data, udp_frame_checksum(src_ip, dst_ip, src_port, dst_port, data)))) == 0xFFFF,
{
    let seg0 = udp_segment(src_port, dst_port, data, 0);
    let c = udp_frame_checksum(src_ip, dst_ip, src_port, dst_port, data);
    let seg = udp_segment(src_port, dst_port, data, c);
    lemma_sum_with_word(seg0, seg, 6, c, 0);
    let s = udp_checksum_total(src_ip, dst_ip, 17, seg0);
    assert(udp_checksum_total(src_ip, dst_ip, 17, seg) == s + c);
    lemma_fold_carries(s);
    if fold_carries(s) == 0xFFFF {
        assert(c as nat % 0xFFFF == ones_complement(s) % 0xFFFF);
    }
    lemma_complemented_sum_folds_to_ffff(s, c as nat);
}

/// A datagram carrying its own checksum verifies: with the checksum of a
/// datagram whose checksum field is zero written into that field, the
/// checksum computed over the result is 0xFFFF.
pub proof fn law_udp_checksum_self_verifies(src: [u8; 4], dst: [u8; 4], protocol: u8, d: Seq<u8>)
    requires
        8 <= d.len() <= 0xFFFF,
        d[6] == 0,
        d[7] == 0,
    ensures
        ({
            let c = udp_checksum_value(src, dst, protocol, d);
            udp_checksum_value(src, dst, protocol, d.update(6, (c as nat / 256) as u8).update(7, (c as nat % 256) as u8)) == 0xFFFF
        }),
{
    let c = udp_checksum_value(src, dst, protocol, d);
    let d2 = d.update(6, (c as nat / 256) as u8).update(7, (c as nat % 256) as u8);
    lemma_sum_with_word(d, d2, 6, c, 0);
    let s = udp_checksum_total(src, dst, protocol, d);
    assert(udp_checksum_total(src, dst, protocol, d2) == s + c);
    lemma_fold_carries(s);
    if fold_carries(s) == 0xFFFF {
        assert(c as nat % 0xFFFF == ones_complement(s) % 0xFFFF);
    }
    lemma_complemented_sum_folds_to_ffff(s, c as nat);
    lemma_fold_carries((s + c) as nat);
}

} // verus!
