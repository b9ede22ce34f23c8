use forward_os::checksum::internet_checksum;
use forward_os::net::arp::{arp_reply_sender_mac, build_arp_request};
use forward_os::net::icmp::{build_echo_reply, calc_icmp_checksum};
use forward_os::net::ip::Ipv4Header;
use forward_os::net::udp::{build_udp_packet, calc_udp_checksum, UdpHeader};
use forward_os::net::e1000::{mac_from_regs, receive, rx_next_index, send_plan, E1000, RxPacket, SendPlan};

#[test]
fn internet_checksum_of_textbook_header() {
    let hdr = [
        0x45, 0x00, 0x00, 0x73, 0x00, 0x00, 0x40, 0x00, 0x40, 0x11, 0x00, 0x00, 0xc0, 0xa8, 0x00, 0x01, 0xc0,
        0xa8, 0x00, 0xc7,
    ];
    assert_eq!(internet_checksum(&hdr), 0xb861);
    assert_eq!(calc_icmp_checksum(&hdr), 0xb861);
}

#[test]
fn internet_checksum_odd_length_pads_last_byte() {
    // 0x0102 + 0x0300 = 0x0402, complemented.
    assert_eq!(internet_checksum(&[1, 2, 3]), !0x0402u16);
    assert_eq!(internet_checksum(&[]), 0xFFFF);
}

#[test]
fn ipv4_header_new_fills_fields_and_checksum() {
    let h = Ipv4Header::new([10, 0, 2, 15], [10, 0, 2, 2], 8, 17);
    assert_eq!(h.to_bytes(), vec![69, 0, 0, 28, 0, 0, 0, 0, 64, 17, 98, 193, 10, 0, 2, 15, 10, 0, 2, 2]);
    assert_eq!(h.checksum, u16::from_le_bytes([98, 193]));
}

#[test]
fn ipv4_header_checksum_verifies() {
    // The header's own checksum makes the complemented word sum zero.
    let h = Ipv4Header::new([192, 168, 1, 7], [8, 8, 8, 8], 1234, 6);
    assert_eq!(h.calc_checksum(), 0);
    assert_eq!(internet_checksum(&h.to_bytes()), 0);
}

#[test]
fn udp_header_new_swaps_fields() {
    let u = UdpHeader::new(0x1234, 0x5678, 4);
    assert_eq!(u.src_port, 0x3412);
    assert_eq!(u.dst_port, 0x7856);
    assert_eq!(u.length, 0x0C00);
    assert_eq!(u.checksum, 0);
}

#[test]
fn udp_checksum_exact_value() {
    let data = [0x12, 0x34, 0x56, 0x78, 0, 12, 0, 0, 1, 2, 3, 4];
    assert_eq!(calc_udp_checksum(&[10, 0, 2, 15], &[10, 0, 2, 2], 17, &data), 0x7b13);
}

#[test]
fn udp_checksum_of_all_ones_sum_is_ffff() {
    // Addresses 0, protocol 0xFD, length 2, data word 0xFF00: the sum is 0xFFFF.
    let data = [0xFF, 0x00];
    assert_eq!(calc_udp_checksum(&[0, 0, 0, 0], &[0, 0, 0, 0], 0xFD, &data), 0xFFFF);
}

#[test]
fn udp_packet_frame_bytes() {
    // Ports and length go out in network byte order.
    let p = build_udp_packet(
        [2, 0, 0, 0, 0, 1],
        [0x52, 0x54, 0, 0x12, 0x35, 2],
        [10, 0, 2, 15],
        [10, 0, 2, 2],
        1234,
        5678,
        b"hi!",
    );
    assert_eq!(
        p,
        vec![
            82, 84, 0, 18, 53, 2, 2, 0, 0, 0, 0, 1, 8, 0, 69, 0, 0, 31, 0, 0, 0, 0, 64, 17, 98, 190, 10, 0, 2, 15, 10, 0,
            2, 2, 4, 210, 22, 46, 0, 11, 67, 94, 104, 105, 33
        ]
    );
}

#[test]
fn any_datagram_with_its_checksum_verifies() {
    let mut d = vec![0x30, 0x39, 0x00, 0x35, 0x00, 0x0D, 0, 0, 0xAB, 0xCD, 0xEF, 0x01, 0x7F];
    let c = calc_udp_checksum(&[192, 168, 1, 1], &[8, 8, 8, 8], 17, &d);
    d[6] = (c >> 8) as u8;
    d[7] = (c & 0xFF) as u8;
    assert_eq!(calc_udp_checksum(&[192, 168, 1, 1], &[8, 8, 8, 8], 17, &d), 0xFFFF);
}

#[test]
fn udp_packet_checksum_verifies() {
    let p = build_udp_packet([1; 6], [2; 6], [10, 0, 0, 1], [10, 0, 0, 2], 7, 9, b"payload");
    let udp = &p[34..];
    // Recomputing over the datagram with its checksum in place folds to all ones.
    assert_eq!(calc_udp_checksum(&[10, 0, 0, 1], &[10, 0, 0, 2], 17, udp), 0xFFFF);
}

fn echo_request() -> Vec<u8> {
    let mut req = vec![2, 0, 0, 0, 0, 1, 0x52, 0x54, 0, 0x12, 0x35, 2, 8, 0];
    req.extend_from_slice(&[0x45, 0, 0, 0x24, 0, 0, 0, 0, 64, 1, 0, 0, 10, 0, 2, 2, 10, 0, 2, 15]);
    req.extend_from_slice(&[8, 0, 0xaa, 0xbb, 0x12, 0x34, 0, 1]);
    req.extend_from_slice(b"abcdefgh");
    req
}

#[test]
fn echo_reply_frame_bytes() {
    let r = build_echo_reply(&echo_request(), [2, 0, 0, 0, 0, 1], [0x52, 0x54, 0, 0x12, 0x35, 2]);
    assert_eq!(
        r,
        vec![
            82, 84, 0, 18, 53, 2, 2, 0, 0, 0, 0, 1, 8, 0, 69, 0, 0, 36, 0, 0, 0, 0, 64, 1, 98, 201, 10, 0, 2, 15, 10, 0,
            2, 2, 0, 0, 92, 53, 18, 52, 0, 1, 97, 98, 99, 100, 101, 102, 103, 104
        ]
    );
}

#[test]
fn echo_reply_checksum_verifies() {
    let r = build_echo_reply(&echo_request(), [9; 6], [8; 6]);
    assert_eq!(calc_icmp_checksum(&r[34..]), 0);
}

#[test]
fn echo_reply_to_short_request_is_empty() {
    assert!(build_echo_reply(&[0u8; 41], [0; 6], [0; 6]).is_empty());
}

#[test]
fn arp_request_and_reply() {
    let mac = [0x52, 0x54, 0x00, 0x12, 0x34, 0x56];
    let req = build_arp_request(mac);
    assert_eq!(req.len(), 42);
    assert_eq!(&req[0..6], &[0xff; 6]);
    assert_eq!(&req[6..12], &mac);
    assert_eq!(&req[12..14], &[0x08, 0x06]);
    assert_eq!(&req[28..32], &[10, 0, 2, 15]);
    assert_eq!(&req[38..42], &[10, 0, 2, 2]);
    // A request is not a reply.
    assert_eq!(arp_reply_sender_mac(&req), None);
    let mut reply = req.clone();
    reply[21] = 2;
    reply[22..28].copy_from_slice(&[1, 2, 3, 4, 5, 6]);
    assert_eq!(arp_reply_sender_mac(&reply), Some([1, 2, 3, 4, 5, 6]));
    assert_eq!(arp_reply_sender_mac(&reply[..41]), None);
}

#[test]
fn e1000_mac_and_rings() {
    assert_eq!(mac_from_regs(0x1200_5452, 0x8000_5634), [0x52, 0x54, 0x00, 0x12, 0x34, 0x56]);
    let mut nic = E1000::new(0xFEB8_0000, 0x1200_5452, 0x5634);
    assert_eq!(nic.mac, [0x52, 0x54, 0x00, 0x12, 0x34, 0x56]);
    assert_eq!(nic.reg(0x2818), 0xFEB8_2818);
    let rx = nic.setup_rx(0x10_0000, 0x20_0000);
    // Zero, 32 pairs of descriptor writes, 5 register writes.
    assert_eq!(rx.len(), 1 + 64 + 5);
    assert_eq!(nic.rx_descs, 0x10_0000);
    let tx = nic.setup_tx(0x30_0000, 0x40_0000);
    assert_eq!(tx.len(), 1 + 16 + 5);
    assert_eq!(nic.tx_buffers, 0x40_0000);
}

#[test]
fn e1000_receive_and_send_decisions() {
    assert_eq!(rx_next_index(31), 0);
    assert_eq!(rx_next_index(4), 5);
    assert_eq!(receive(31, 0, 60), None);
    assert_eq!(receive(4, 0x3, 1514), Some(RxPacket { index: 5, len: 1514, cleared_status: 0, new_tail: 5 }));
    assert_eq!(receive(31, 1, 60), Some(RxPacket { index: 0, len: 60, cleared_status: 0, new_tail: 0 }));
    assert_eq!(send_plan(2049, 0, 1), SendPlan::Refuse);
    assert_eq!(send_plan(42, 0, 0), SendPlan::Refuse);
    assert_eq!(send_plan(42, 8, 1), SendPlan::Refuse);
    assert_eq!(send_plan(42, 7, 0x11), SendPlan::Transmit { slot: 7, cmd: 0x0B, status: 0x10, new_tail: 0 });
}
