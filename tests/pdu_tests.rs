use netbricks::headers::{IpHeader, MacAddress, MacHeader, TcpHeader};
use netbricks::mbuf::MBuf;
use netbricks::pdu::{Header, HeaderKind, Pdu};

fn frame(bytes: &[u8]) -> MBuf {
    let mut m = MBuf::new(2176, 128);
    m.add_data_end(bytes.len());
    for (i, b) in bytes.iter().enumerate() {
        m.buf[128 + i] = *b;
    }
    m
}

fn data_of(p: &Pdu) -> Vec<u8> {
    let off = p.mbuf.data_off as usize;
    p.mbuf.buf[off..off + p.data_len()].to_vec()
}

fn tcp_frame(dst_port: u16, payload: &[u8]) -> Vec<u8> {
    let mut f = vec![0xaa; 6];
    f.extend_from_slice(&[0xbb; 6]);
    f.extend_from_slice(&[0x08, 0x00]);
    let ip_len = (40 + payload.len()) as u16;
    f.extend_from_slice(&[0x45, 0x00, (ip_len >> 8) as u8, ip_len as u8, 0, 0, 0x40, 0, 64, 6, 0, 0]);
    f.extend_from_slice(&[10, 0, 0, 1, 10, 0, 0, 2]);
    f.extend_from_slice(&[0x04, 0xd2, (dst_port >> 8) as u8, dst_port as u8, 0, 0, 0, 1, 0, 0, 0, 0, 0x50, 0x02, 0xff, 0xff, 0, 0, 0, 0]);
    f.extend_from_slice(payload);
    f
}

#[test]
fn parse_ethernet_ipv4_tcp() {
    let pdu = Pdu::pdu_from_mbuf_no_increment(frame(&tcp_frame(80, &[1, 2, 3])));
    assert_eq!(pdu.header_count(), 3);
    assert_eq!(pdu.headers().get(0).kind, HeaderKind::Mac);
    assert_eq!(pdu.headers().get(1).kind, HeaderKind::Ip);
    assert_eq!(pdu.headers().get(2).kind, HeaderKind::Tcp);
    assert_eq!(pdu.payload_size(0), 43);
    assert_eq!(pdu.payload_size(1), 23);
    assert_eq!(pdu.payload_size(2), 3);
    assert_eq!(pdu.get_payload(2), vec![1, 2, 3]);
    let tcp = pdu.get_header(2).as_tcp().unwrap();
    assert_eq!(tcp.dst_port(), 80);
    assert_eq!(tcp.src_port(), 1234);
    let ip = pdu.get_header(1).as_ip().unwrap();
    assert_eq!(ip.src(), 0x0a000001);
    assert_eq!(ip.ttl(), 64);
    assert!(pdu.get_header(1).as_mac().is_none());
}

#[test]
fn parse_truncated_and_unknown_frames() {
    let short = Pdu::pdu_from_mbuf_no_increment(frame(&[0u8; 10]));
    assert_eq!(short.header_count(), 0);
    let mut f = vec![0u8; 12];
    f.extend_from_slice(&[0x86, 0xdd, 1, 2]);
    let v6 = Pdu::pdu_from_mbuf_no_increment(frame(&f));
    assert_eq!(v6.header_count(), 1);
    // an 802.1Q frame too short for its tag records nothing
    let mut q = vec![0u8; 12];
    q.extend_from_slice(&[0x81, 0x00, 0, 0]);
    assert_eq!(Pdu::pdu_from_mbuf_no_increment(frame(&q)).header_count(), 0);
    // IPv4 ethertype, but the IP header does not fit
    let mut t = vec![0u8; 12];
    t.extend_from_slice(&[0x08, 0x00, 0x45]);
    assert_eq!(Pdu::pdu_from_mbuf_no_increment(frame(&t)).header_count(), 1);
}

#[test]
fn push_headers_build_a_packet() {
    let mut pdu = Pdu::new_pdu(MBuf::new(2176, 128));
    let mac = MacHeader::from_parts(MacAddress::new([1; 6]), MacAddress::new([2; 6]), 0x0800);
    let mut ip = IpHeader::new();
    ip.set_version_ihl(4, 5);
    ip.set_protocol(6);
    ip.set_length(40);
    let mut tcp = TcpHeader::new();
    tcp.set_data_offset(5);
    tcp.set_src_port(80);
    assert!(pdu.push_header(&Header::Mac(mac)));
    assert!(pdu.push_header(&Header::Ip(ip)));
    assert!(pdu.push_header(&Header::Tcp(tcp)));
    assert_eq!(pdu.data_len(), 54);
    assert_eq!(pdu.header_count(), 3);
    assert_eq!(pdu.get_header(2).as_tcp().unwrap().src_port(), 80);
    assert!(!pdu.push_header(&Header::Null));
    // a reparse finds the same stack
    pdu.parse();
    assert_eq!(pdu.header_count(), 3);
    assert_eq!(pdu.get_header(0).as_mac().unwrap().etype(), 0x0800);
}

#[test]
fn push_header_moves_payload_back() {
    let mut pdu = Pdu::pdu_from_mbuf_no_increment(frame(&tcp_frame(80, &[9, 8, 7])));
    let before = pdu.get_payload(2);
    let mut inner = TcpHeader::new();
    inner.set_data_offset(6);
    inner.set_dst_port(443);
    assert!(pdu.push_header(&Header::Tcp(inner)));
    assert_eq!(pdu.header_count(), 4);
    assert_eq!(pdu.get_payload(3), before);
    assert_eq!(pdu.payload_size(3), 3);
    assert_eq!(pdu.get_header(3).as_tcp().unwrap().dst_port(), 443);
    assert_eq!(pdu.data_len(), 57 + 24);
}

#[test]
fn push_header_without_tailroom_fails() {
    let mut m = MBuf::new(20, 0);
    m.add_data_end(10);
    let mut pdu = Pdu::new_pdu(m);
    assert!(!pdu.push_header(&Header::Mac(MacHeader::new())));
    assert_eq!(pdu.data_len(), 10);
    assert_eq!(pdu.header_count(), 0);
}

#[test]
fn replace_header_checks_kind() {
    let mut pdu = Pdu::pdu_from_mbuf_no_increment(frame(&tcp_frame(80, &[])));
    let tcp = TcpHeader::new();
    assert_eq!(pdu.replace_header(0, &Header::Tcp(tcp)), Err(netbricks::errors::ErrorKind::HeaderMismatch));
    let mut mac = pdu.get_header(0).as_mac().unwrap();
    mac.swap_addresses();
    assert_eq!(pdu.replace_header(0, &Header::Mac(mac)), Ok(()));
    let d = data_of(&pdu);
    assert_eq!(&d[0..6], &[0xbb; 6]);
    assert_eq!(&d[6..12], &[0xaa; 6]);
}

#[test]
fn write_from_tail_down_fills_the_end() {
    let mut pdu = Pdu::pdu_from_mbuf_no_increment(frame(&tcp_frame(80, &[1, 2, 3, 4, 5])));
    assert_eq!(pdu.write_from_tail_down(2, 0xee), 2);
    assert_eq!(pdu.get_payload(2), vec![1, 2, 3, 0xee, 0xee]);
    assert_eq!(pdu.write_from_tail_down(100, 0), 5);
    assert_eq!(pdu.get_payload(2), vec![0, 0, 0, 0, 0]);
}

#[test]
fn copy_payload_grows_when_needed() {
    let mut pdu = Pdu::pdu_from_mbuf_no_increment(frame(&tcp_frame(80, &[1, 2])));
    assert_eq!(pdu.copy_payload_from_u8_slice(&[7, 7, 7, 7], 2), 4);
    assert_eq!(pdu.get_payload(2), vec![7, 7, 7, 7]);
    assert_eq!(pdu.copy_payload_from_u8_slice(&[5], 2), 1);
    assert_eq!(pdu.get_payload(2), vec![5, 7, 7, 7]);
    assert_eq!(pdu.copy_payload_from_u8_slice(&[], 2), 0);
}

#[test]
fn payload_size_changes() {
    let mut pdu = Pdu::pdu_from_mbuf_no_increment(frame(&tcp_frame(80, &[1, 2])));
    assert_eq!(pdu.increase_payload_size(6), 6);
    assert_eq!(pdu.payload_size(2), 8);
    assert_eq!(pdu.trim_payload_size(3), 3);
    assert_eq!(pdu.payload_size(2), 5);
    assert_eq!(pdu.trim_payload_size(6), 0);
    assert_eq!(pdu.add_to_payload_tail(1), Ok(()));
    assert_eq!(pdu.add_padding(100000), 0);
    assert!(pdu.add_to_payload_tail(100000).is_err());
}

#[test]
fn pdu_offload_and_refcount() {
    let mut pdu = Pdu::pdu_from_mbuf(frame(&tcp_frame(80, &[])));
    assert_eq!(pdu.refcnt(), 2);
    assert_eq!(pdu.dereference_mbuf(), 1);
    pdu.set_tcp_ipv4_checksum_tx_offload();
    assert!(pdu.ipv4_checksum_tx_offload());
    assert!(pdu.tcp_checksum_tx_offload());
    pdu.set_l2_len(14);
    pdu.set_l3_len(20);
    pdu.set_l4_len(20);
    assert_eq!((pdu.l2_len(), pdu.l3_len(), pdu.l4_len()), (14, 20, 20));
    pdu.clear_offload_flags();
    assert_eq!(pdu.ol_flags(), 0);
    let copy = pdu.copy_use_mbuf(MBuf::new(2176, 0));
    assert_eq!(data_of(&copy), data_of(&pdu));
    assert_eq!(copy.header_count(), 3);
    let m = pdu.get_mbuf();
    assert_eq!(m.data_len(), 54);
}

#[test]
fn test_headers() {
    let ip_header = IpHeader::new();
    println!("ip_header= {:?}", ip_header);
    let header = Header::Ip(ip_header);
    println!("header= {:?}, header.kind= {:?}", header, header.kind());
    assert_eq!(header.kind(), HeaderKind::Ip);
    assert!(header.as_ip().is_some());
    assert!(header.as_mac().is_none());
    assert!(header.as_tcp().is_none());
    assert!(header.as_udp().is_none());
}
