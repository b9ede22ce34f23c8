//! ARP requests and replies on the kernel's fixed QEMU user network.
use vstd::prelude::*;
use crate::bytes::push_all;

verus! {

/// The broadcast "who has 10.0.2.2, tell 10.0.2.15" frame sent from `mac`.
pub open spec fn arp_request_frame(mac: [u8; 6]) -> Seq<u8> {
    seq![
        0xffu8, 0xff, 0xff, 0xff, 0xff, 0xff,
        mac[0], mac[1], mac[2], mac[3], mac[4], mac[5],
        0x08, 0x06,
        0x00, 0x01, 0x08, 0x00,
        0x06, 0x04, 0x00, 0x01,
        mac[0], mac[1], mac[2], mac[3], mac[4], mac[5],
        0x0a, 0x00, 0x02, 0x0f,
        0x00, 0x00, 0x00, 0x00, 0x00, 0x00,
        0x0a, 0x00, 0x02, 0x02,
    ]
}

/// Builds the ARP request frame for the host at 10.0.2.2.
pub fn build_arp_request(our_mac: [u8; 6]) -> (pkt: Vec<u8>)
    ensures
        pkt@ == arp_request_frame(our_mac),
{
    let m = our_mac;
    let frame: [u8; 42] = [
        0xff, 0xff, 0xff, 0xff, 0xff, 0xff,
        m[0], m[1], m[2], m[3], m[4], m[5],
        0x08, 0x06,
        0x00, 0x01, 0x08, 0x00,
        0x06, 0x04, 0x00, 0x01,
        m[0], m[1], m[2], m[3], m[4], m[5],
        0x0a, 0x00, 0x02, 0x0f,
        0x00, 0x00, 0x00, 0x00, 0x00, 0x00,
        0x0a, 0x00, 0x02, 0x02,
    ];
    let mut pkt: Vec<u8> = Vec::new();
    push_all(&mut pkt, frame.as_slice());
    assert(pkt@ =~= arp_request_frame(our_mac));
    pkt
}

/// Whether `pkt` is an ARP reply: long enough, EtherType 0x0806, opcode 2.
pub open spec fn is_arp_reply(pkt: Seq<u8>) -> bool {
    pkt.len() >= 42 && pkt[12] == 0x08 && pkt[13] == 0x06 && pkt[20] == 0x00 && pkt[21] == 0x02
}

/// The sender hardware address of an ARP reply, or `None` for any other frame.
pub fn arp_reply_sender_mac(pkt: &[u8]) -> (mac: Option<[u8; 6]>)
    ensures
        mac.is_some() <==> is_arp_reply(pkt@),
        mac.is_some() ==> mac.unwrap()@ == pkt@.subrange(22, 28),
{
    if pkt.len() >= 42 && pkt[12] == 0x08 && pkt[13] == 0x06 && pkt[20] == 0x00 && pkt[21] == 0x02 {
        let mac = [pkt[22], pkt[23], pkt[24], pkt[25], pkt[26], pkt[27]];
        assert(mac@ =~= pkt@.subrange(22, 28));
        Some(mac)
    } else {
        None
    }
}

} // verus!
