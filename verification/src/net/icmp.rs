//! ICMP echo replies.
use vstd::prelude::*;
use crate::bytes::push_all;
use crate::checksum::{
    be_words_sum, internet_checksum, lemma_fold_carries, lemma_be_words_sum_bound,
    lemma_sum_with_word, lemma_complement_closes, ones_complement,
};
use crate::net::ip::{Ipv4Header, ipv4_new, ipv4_bytes};

verus! {

/// The ICMP checksum: one's complement of the folded sum of the big-endian words.
pub fn calc_icmp_checksum(data: &[u8]) -> (r: u16)
    requires
        be_words_sum(data@) <= u32::MAX,
    ensures
        r == ones_complement(be_words_sum(data@)),
{
    internet_checksum(data)
}

/// The IPv4 source address of a request frame.
pub open spec fn request_src_ip(req: Seq<u8>) -> [u8; 4] {
    [req[26], req[27], req[28], req[29]]
}

/// The IPv4 destination address of a request frame.
pub open spec fn request_dst_ip(req: Seq<u8>) -> [u8; 4] {
    [req[30], req[31], req[32], req[33]]
}

/// The reply's ICMP message before its checksum is set: type and code zero,
/// identifier, sequence number and data copied from the request up to byte 62
/// of the message, zeros after that.
pub open spec fn echo_reply_body0(req: Seq<u8>) -> Seq<u8> {
    let msg_len = req.len() - 34;
    let copy_len = if msg_len < 62 { msg_len } else { 62 };
    seq![0u8, 0u8, 0u8, 0u8] + req.subrange(38, 34 + copy_len) + Seq::new((msg_len - copy_len) as nat, |i: int| 0u8)
}

/// The reply's ICMP message with its checksum.
pub open spec fn echo_reply_body(req: Seq<u8>) -> Seq<u8> {
    let c = ones_complement(be_words_sum(echo_reply_body0(req)));
    echo_reply_body0(req).update(2, (c / 256) as u8).update(3, (c % 256) as u8)
}

/// The frame `build_echo_reply` returns for `req`.
pub open spec fn echo_reply_frame(req: Seq<u8>, our_mac: [u8; 6], dst_mac: [u8; 6]) -> Seq<u8> {
    if req.len() < 42 {
        Seq::empty()
    } else {
        dst_mac@ + our_mac@ + seq![0x08u8, 0x00u8]
            + ipv4_bytes(ipv4_new(request_dst_ip(req), request_src_ip(req), (req.len() - 34) as u16, 1))
            + echo_reply_body(req)
    }
}

/// Builds the Ethernet frame answering an ICMP echo request frame; an empty
/// frame when the request is too short to hold an ICMP header.
pub fn build_echo_reply(request: &[u8], our_mac: [u8; 6], dst_mac: [u8; 6]) -> (pkt: Vec<u8>)
    requires
        request@.len() <= 14 + 20 + 64,
    ensures
        pkt@ == echo_reply_frame(request@, our_mac, dst_mac),
{
    let ip_off: usize = 14;
    let msg_off: usize = ip_off + 20;
    if request.len() < msg_off + 8 {
        return Vec::new();
    }
    let src_ip: [u8; 4] = [request[ip_off + 12], request[ip_off + 13], request[ip_off + 14], request[ip_off + 15]];
    let dst_ip: [u8; 4] = [request[ip_off + 16], request[ip_off + 17], request[ip_off + 18], request[ip_off + 19]];
    let msg_len = request.len() - msg_off;
    let ip = Ipv4Header::new(dst_ip, src_ip, msg_len as u16, 1);
    let copy_len = if msg_len < 62 { msg_len } else { 62 };
    let mut msg: Vec<u8> = Vec::new();
    msg.push(0);
    msg.push(0);
    msg.push(0);
    msg.push(0);
    let mut k: usize = 4;
    while k < copy_len
        invariant
            4 <= k <= copy_len,
            copy_len <= msg_len,
            msg_off == 34,
            request@.len() <= 98,
            msg_len == request@.len() - 34,
            msg@ =~= seq![0u8, 0u8, 0u8, 0u8] + request@.subrange(38, 34 + k as int),
        decreases copy_len - k,
    {
        msg.push(request[msg_off + k]);
        k = k + 1;
    }
    while k < msg_len
        invariant
            copy_len <= k <= msg_len,
            msg_len == request@.len() - 34,
            copy_len == if msg_len < 62 { msg_len } else { 62 },
            msg@ =~= seq![0u8, 0u8, 0u8, 0u8] + request@.subrange(38, 34 + copy_len as int)
                + Seq::new((k - copy_len) as nat, |i: int| 0u8),
        decreases msg_len - k,
    {
        msg.push(0);
        k = k + 1;
    }
    let ghost body0 = msg@;
    assert(body0 =~= echo_reply_body0(request@));
    proof {
        lemma_be_words_sum_bound(body0);
    }
    let checksum = internet_checksum(msg.as_slice());
    msg.set(2, (checksum / 256) as u8);
    msg.set(3, (checksum % 256) as u8);
    assert(msg@ =~= echo_reply_body(request@));
    let ip_bytes = ip.to_bytes();
    let mut pkt: Vec<u8> = Vec::new();
    push_all(&mut pkt, dst_mac.as_slice());
    push_all(&mut pkt, our_mac.as_slice());
    pkt.push(0x08);
    pkt.push(0x00);
    push_all(&mut pkt, ip_bytes.as_slice());
    push_all(&mut pkt, msg.as_slice());
    assert(request_src_ip(request@) == src_ip);
    assert(request_dst_ip(request@) == dst_ip);
    assert(pkt@ =~= echo_reply_frame(request@, our_mac, dst_mac));
    pkt
}

/// The ICMP message of a built reply checks out: its checksum over itself is zero.
pub proof fn law_echo_reply_checksum_verifies(req: Seq<u8>)
    requires
        42 <= req.len() <= 14 + 20 + 64,
    ensures
        ones_complement(be_words_sum(echo_reply_body(req))) == 0,
{
    let body0 = echo_reply_body0(req);
    let s = be_words_sum(body0);
    let c = ones_complement(s);
    lemma_fold_carries(s);
    lemma_sum_with_word(body0, echo_reply_body(req), 2, c as u16, 0);
    lemma_complement_closes(s);
}

/// An echo reply returns the request's message: for a request frame whose
/// ICMP message `m` (from byte 34) has 8 to 62 bytes, the reply frame is as
/// long as the request, its message is type 0, code 0, and every byte of
/// `m` from the identifier on (id, sequence number and data) comes back
/// unchanged at the same place.
pub proof fn law_echo_reply_returns_message(req: Seq<u8>, our_mac: [u8; 6], dst_mac: [u8; 6])
    requires
        42 <= req.len() <= 34 + 62,
    ensures
        echo_reply_frame(req, our_mac, dst_mac).len() == req.len(),
        echo_reply_frame(req, our_mac, dst_mac)[34] == 0,
        echo_reply_frame(req, our_mac, dst_mac)[35] == 0,
        forall|k: int| 38 <= k < req.len() ==> #[trigger] echo_reply_frame(req, our_mac, dst_mac)[k] == req[k],
{
    let f = echo_reply_frame(req, our_mac, dst_mac);
    let h = ipv4_bytes(ipv4_new(request_dst_ip(req), request_src_ip(req), (req.len() - 34) as u16, 1));
    assert(h.len() == 20);
    let b0 = echo_reply_body0(req);
    let b = echo_reply_body(req);
    assert(b0.len() == req.len() - 34);
    assert forall|k: int| 38 <= k < req.len() implies #[trigger] f[k] == req[k] by {
        assert(f[k] == b[k - 34]);
        assert(b[k - 34] == b0[k - 34]);
        assert(b0[k - 34] == req[k]);
    }
    assert(f[34] == b[0]);
    assert(f[35] == b[1]);
}

} // verus!
