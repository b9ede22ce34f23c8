//! The IPv4 header as it lies in memory on the little-endian machine the kernel runs on.
use vstd::prelude::*;
use crate::checksum::{fold_carries, ones_complement, fold_u32, lemma_fold_carries, lemma_complemented_sum_folds_to_ffff};

verus! {

/// Swaps the two bytes of a 16-bit value: `to_be` on a little-endian machine.
pub open spec fn swap16(x: u16) -> u16 {
    ((x as nat % 256) * 256 + x as nat / 256) as u16
}

pub fn swap_bytes16(x: u16) -> (r: u16)
    ensures
        r == swap16(x),
{
    (x % 256) * 256 + x / 256
}

/// An IPv4 header without options. Multi-byte fields hold the value whose
/// little-endian in-memory bytes are the wire bytes.
#[derive(Clone, Copy)]
pub struct Ipv4Header {
    pub version_ihl: u8,
    pub dscp_ecn: u8,
    pub total_len: u16,
    pub id: u16,
    pub flags_offset: u16,
    pub ttl: u8,
    pub protocol: u8,
    pub checksum: u16,
    pub src_ip: [u8; 4],
    pub dst_ip: [u8; 4],
}

/// Sum of the ten little-endian 16-bit words of the header's memory image.
pub open spec fn ipv4_word_sum(h: Ipv4Header) -> nat {
    h.version_ihl as nat + (h.dscp_ecn as nat) * 256 + h.total_len as nat + h.id as nat
        + h.flags_offset as nat + h.ttl as nat + (h.protocol as nat) * 256 + h.checksum as nat
        + h.src_ip[0] as nat + (h.src_ip[1] as nat) * 256 + h.src_ip[2] as nat + (h.src_ip[3] as nat) * 256
        + h.dst_ip[0] as nat + (h.dst_ip[1] as nat) * 256 + h.dst_ip[2] as nat + (h.dst_ip[3] as nat) * 256
}

/// The header's twenty bytes in memory order.
pub open spec fn ipv4_bytes(h: Ipv4Header) -> Seq<u8> {
    seq![
        h.version_ihl, h.dscp_ecn,
        (h.total_len as nat % 256) as u8, (h.total_len as nat / 256) as u8,
        (h.id as nat % 256) as u8, (h.id as nat / 256) as u8,
        (h.flags_offset as nat % 256) as u8, (h.flags_offset as nat / 256) as u8,
        h.ttl, h.protocol,
        (h.checksum as nat % 256) as u8, (h.checksum as nat / 256) as u8,
        h.src_ip[0], h.src_ip[1], h.src_ip[2], h.src_ip[3],
        h.dst_ip[0], h.dst_ip[1], h.dst_ip[2], h.dst_ip[3],
    ]
}

/// The header `Ipv4Header::new` builds, checksum included.
pub open spec fn ipv4_new(src: [u8; 4], dst: [u8; 4], payload_len: u16, protocol: u8) -> Ipv4Header {
    let h0 = Ipv4Header {
        version_ihl: 0x45,
        dscp_ecn: 0,
        total_len: swap16((20 + payload_len) as u16),
        id: 0,
        flags_offset: 0,
        ttl: 64,
        protocol,
        checksum: 0,
        src_ip: src,
        dst_ip: dst,
    };
    Ipv4Header { checksum: ones_complement(ipv4_word_sum(h0)) as u16, ..h0 }
}

impl Ipv4Header {
    /// A version 4 header of 20 bytes with TTL 64, carrying `payload_len` bytes,
    /// with its checksum filled in.
    pub fn new(src: [u8; 4], dst: [u8; 4], payload_len: u16, protocol: u8) -> (hdr: Self)
        requires
            payload_len <= 0xFFFF - 20,
        ensures
            hdr.version_ihl == 0x45,
            hdr.dscp_ecn == 0,
            hdr.total_len == swap16((20 + payload_len) as u16),
            hdr.id == 0,
            hdr.flags_offset == 0,
            hdr.ttl == 64,
            hdr.protocol == protocol,
            hdr.src_ip == src,
            hdr.dst_ip == dst,
            hdr.checksum == ones_complement(ipv4_word_sum(Ipv4Header { checksum: 0, ..hdr })),
            hdr == ipv4_new(src, dst, payload_len, protocol),
    {
        let mut hdr = Ipv4Header {
            version_ihl: 0x45,
            dscp_ecn: 0,
            total_len: swap_bytes16(20 + payload_len),
            id: 0,
            flags_offset: 0,
            ttl: 64,
            protocol,
            checksum: 0,
            src_ip: src,
            dst_ip: dst,
        };
        let c = hdr.calc_checksum();
        proof {
            lemma_fold_carries(ipv4_word_sum(hdr));
        }
        hdr.checksum = c;
        hdr
    }

    /// The one's complement of the folded sum of the header's ten memory words.
    pub fn calc_checksum(&self) -> (r: u16)
        ensures
            r == ones_complement(ipv4_word_sum(*self)),
    {
        let sum: u32 = self.version_ihl as u32 + (self.dscp_ecn as u32) * 256
            + self.total_len as u32 + self.id as u32 + self.flags_offset as u32
            + self.ttl as u32 + (self.protocol as u32) * 256 + self.checksum as u32
            + self.src_ip[0] as u32 + (self.src_ip[1] as u32) * 256
            + self.src_ip[2] as u32 + (self.src_ip[3] as u32) * 256
            + self.dst_ip[0] as u32 + (self.dst_ip[1] as u32) * 256
            + self.dst_ip[2] as u32 + (self.dst_ip[3] as u32) * 256;
        let folded = fold_u32(sum);
        proof {
            lemma_fold_carries(sum as nat);
        }
        0xFFFF - folded
    }

    /// The header's twenty bytes in memory order.
    pub fn to_bytes(&self) -> (b: Vec<u8>)
        ensures
            b@ == ipv4_bytes(*self),
    {
        let mut b: Vec<u8> = Vec::new();
        b.push(self.version_ihl);
        b.push(self.dscp_ecn);
        b.push((self.total_len % 256) as u8);
        b.push((self.total_len / 256) as u8);
        b.push((self.id % 256) as u8);
        b.push((self.id / 256) as u8);
        b.push((self.flags_offset % 256) as u8);
        b.push((self.flags_offset / 256) as u8);
        b.push(self.ttl);
        b.push(self.protocol);
        b.push((self.checksum % 256) as u8);
        b.push((self.checksum / 256) as u8);
        b.push(self.src_ip[0]);
        b.push(self.src_ip[1]);
        b.push(self.src_ip[2]);
        b.push(self.src_ip[3]);
        b.push(self.dst_ip[0]);
        b.push(self.dst_ip[1]);
        b.push(self.dst_ip[2]);
        b.push(self.dst_ip[3]);
        assert(b@ =~= ipv4_bytes(*self));
        b
    }
}

/// A header that `Ipv4Header::new` built checks out: recomputing its checksum
/// with the checksum field in place gives zero.
pub proof fn law_new_header_checksum_verifies(src: [u8; 4], dst: [u8; 4], payload_len: u16, protocol: u8)
    ensures
        ones_complement(ipv4_word_sum(ipv4_new(src, dst, payload_len, protocol))) == 0,
{
    let h = ipv4_new(src, dst, payload_len, protocol);
    let h0 = Ipv4Header { checksum: 0, ..h };
    let s = ipv4_word_sum(h0);
    lemma_fold_carries(s);
    assert(ipv4_word_sum(h) == s + h.checksum);
    lemma_complemented_sum_folds_to_ffff(s, h.checksum as nat);
}

} // verus!
