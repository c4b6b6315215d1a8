use netbricks::context::{active_cores, associated_port, is_port_type_kni_or_virtio, port_type_of, queue_assignment, register_port, PortType};
use netbricks::errors::check_os_error;
use netbricks::port::rss_flow_name;
use netbricks::errors::ErrorKind;
use netbricks::mbuf::{L234len, MBuf};
use netbricks::operators::{ReceiveBatch, SendBatch};
use netbricks::packet_batch::PacketBatch;
use netbricks::pdu::{update_tcp_checksum, update_tcp_checksum_, Header, Pdu};
use netbricks::headers::TcpHeader;
use netbricks::check::ipv4_checksum;
use netbricks::port::VirtualQueue;
use netbricks::scheduler::Executable;

#[test]
fn kni_and_virtio_tags() {
    assert!(is_port_type_kni_or_virtio("kni:vEth0"));
    assert!(is_port_type_kni_or_virtio("virtio:net0,iface=tap0"));
    assert!(is_port_type_kni_or_virtio("kni"));
    assert!(!is_port_type_kni_or_virtio("dpdk:0000:01:00.0"));
    assert!(!is_port_type_kni_or_virtio("knii:x"));
    assert!(!is_port_type_kni_or_virtio("0000:01:00.0"));
    assert!(!is_port_type_kni_or_virtio(""));
}

#[test]
fn queues_truncate_to_driver_support() {
    let cores = vec![1, 2, 3];
    assert_eq!(queue_assignment(&cores, 2), vec![(1, 0), (2, 1)]);
    assert_eq!(queue_assignment(&cores, 8), vec![(1, 0), (2, 1), (3, 2)]);
    assert_eq!(queue_assignment(&cores, 0), vec![]);
}

#[test]
fn strict_and_lax_core_lists() {
    let cores = vec![0, 1];
    assert_eq!(active_cores(&cores, &vec![1, 0, 1], true), Ok(vec![0, 1]));
    assert_eq!(active_cores(&cores, &vec![1, 3, 3, 2], false), Ok(vec![0, 1, 3, 2]));
    match active_cores(&cores, &vec![1, 3], true) {
        Err(ErrorKind::ConfigurationError(_)) => {}
        other => panic!("expected a configuration error, got {:?}", other),
    }
}

#[test]
fn bitfield_constructor_packs_lengths() {
    let u = L234len::new_bitfield_1(14, 20, 32, 1460, 0, 0);
    let l = L234len { _bitfield_1: u, __bindgen_align: [] };
    assert_eq!(l.l2_len(), 14);
    assert_eq!(l.l3_len(), 20);
    assert_eq!(l.l4_len(), 32);
    assert_eq!(l.tso_segsz(), 1460);
    assert_eq!(l.outer_l3_len(), 0);
    let wide = L234len::new_bitfield_1(0x1ff, 0, 0, 0, 0, 0x1ff);
    let w = L234len { _bitfield_1: wide, __bindgen_align: [] };
    assert_eq!(w.l2_len(), 0x7f);
    assert_eq!(w.l3_len(), 0);
    assert_eq!(w.outer_l2_len(), 0x7f);
}

#[test]
fn drop_all_frees_unless_kept() {
    let mut b = PacketBatch::new(4, false);
    b.allocate_batch_with_size().unwrap();
    assert_eq!(b.drop_packets_all(), Some(4));
    assert_eq!(b.available(), 0);
    let mut k = PacketBatch::new(4, true);
    k.allocate_batch_with_size().unwrap();
    assert_eq!(k.drop_packets_all(), Some(0));
    assert_eq!(k.available(), 4);
}

#[test]
fn send_batch_runs_a_virtual_pipeline() {
    let rx = ReceiveBatch::new(VirtualQueue::new());
    let mut task = SendBatch::new(rx, VirtualQueue::new());
    assert_eq!(task.execute(), (32, 0));
    assert_eq!(task.execute(), (32, 0));
    assert_eq!(task.sent, 64);
    assert_eq!(task.parent.received, 64);
    assert_eq!(task.parent.packet_rx.stats(), (64, 0));
    assert_eq!(task.port.stats(), (0, 64));
    assert_eq!(task.parent.parent.available(), 0);
}

fn tcp_packet() -> Vec<u8> {
    let mut f = vec![0xaa; 6];
    f.extend_from_slice(&[0xbb; 6]);
    f.extend_from_slice(&[0x08, 0x00]);
    f.extend_from_slice(&[0x45, 0x00, 0, 44, 0, 0, 0x40, 0, 64, 6, 0, 0, 10, 0, 0, 1, 10, 0, 0, 2]);
    f.extend_from_slice(&[0x04, 0xd2, 0, 80, 0, 0, 0, 1, 0, 0, 0, 0, 0x50, 0x02, 0xff, 0xff, 0x12, 0x34, 0, 0]);
    f.extend_from_slice(&[1, 2, 3, 4]);
    f
}

#[test]
fn tcp_checksum_of_a_segment() {
    let f = tcp_packet();
    let mut seg = f[34..].to_vec();
    update_tcp_checksum_(&mut seg, 24, 0x0a000001, 0x0a000002);
    let mut zeroed = f[34..].to_vec();
    zeroed[16] = 0;
    zeroed[17] = 0;
    let expected = ipv4_checksum(&zeroed, 8, &[], 0x0a000001, 0x0a000002, 6);
    assert_eq!(u16::from_be_bytes([seg[16], seg[17]]), expected);
    assert_ne!(expected, 0x1234);
    assert_eq!(&seg[18..], &f[52..]);
}

#[test]
fn tcp_checksum_in_a_packet() {
    let f = tcp_packet();
    let mut m = MBuf::new(2176, 128);
    m.add_data_end(f.len());
    for (i, b) in f.iter().enumerate() {
        m.buf[128 + i] = *b;
    }
    let mut pdu = Pdu::pdu_from_mbuf_no_increment(m);
    update_tcp_checksum(&mut pdu, 2, 24, 0x0a000001, 0x0a000002);
    let mut seg = f[34..].to_vec();
    update_tcp_checksum_(&mut seg, 24, 0x0a000001, 0x0a000002);
    let tcp = pdu.get_header(2).as_tcp().unwrap();
    assert_eq!(tcp.checksum(), u16::from_be_bytes([seg[16], seg[17]]));
}

#[test]
fn replace_header_outside_data_is_bad_offset() {
    let f = tcp_packet();
    let mut m = MBuf::new(2176, 128);
    m.add_data_end(f.len());
    for (i, b) in f.iter().enumerate() {
        m.buf[128 + i] = *b;
    }
    let mut pdu = Pdu::pdu_from_mbuf_no_increment(m);
    assert_eq!(pdu.trim_payload_size(4), 4);
    // the data now ends right after the TCP header; cut into it by hand
    pdu.mbuf.data_len -= 10;
    pdu.mbuf.pkt_len -= 10;
    pdu.header_stack.stack.truncate(2);
    let mut tcp = TcpHeader::new();
    tcp.set_data_offset(5);
    pdu.header_stack.stack.push(netbricks::pdu::HeaderEntry { kind: netbricks::pdu::HeaderKind::Tcp, len: 8 });
    let mut short = TcpHeader::new();
    short.set_data_offset(2);
    short.set_src_port(7);
    assert_eq!(pdu.replace_header(2, &Header::Tcp(short)), Err(ErrorKind::BadOffset(34)));
    assert_eq!(pdu.replace_header(2, &Header::Tcp(tcp)), Err(ErrorKind::HeaderMismatch));
}

#[test]
fn port_kind_from_name_tag() {
    assert_eq!(port_type_of("dpdk:0000:01:00.0"), PortType::Physical);
    assert_eq!(port_type_of("0000:01:00.0"), PortType::Physical);
    assert_eq!(port_type_of("kni:vEth0"), PortType::Kni);
    assert_eq!(port_type_of("virtio:net0"), PortType::Virtio);
    assert_eq!(port_type_of("bess:p0"), PortType::Bess);
    assert_eq!(port_type_of("ovs:p1"), PortType::Ovs);
    assert_eq!(port_type_of("null:"), PortType::Null);
    assert_eq!(port_type_of("nul:x"), PortType::Physical);
}

#[test]
fn duplicate_port_names_are_refused() {
    let mut names = Vec::new();
    assert_eq!(register_port(&mut names, String::from("dpdk:0")), Ok(()));
    assert_eq!(register_port(&mut names, String::from("kni:k0")), Ok(()));
    match register_port(&mut names, String::from("dpdk:0")) {
        Err(ErrorKind::ConfigurationError(_)) => {}
        other => panic!("expected a configuration error, got {:?}", other),
    }
    assert_eq!(names.len(), 2);
}

#[test]
fn kernel_interface_finds_its_device_port() {
    let siblings = vec![(String::from("vEth0"), 3u16), (String::from("vEth1"), 5u16), (String::from("vEth0"), 9u16)];
    assert_eq!(associated_port(&siblings, &String::from("vEth0")), Some(3));
    assert_eq!(associated_port(&siblings, &String::from("vEth1")), Some(5));
    assert_eq!(associated_port(&siblings, &String::from("vEth2")), None);
}

#[test]
fn flow_type_names() {
    assert_eq!(rss_flow_name(0), "Unknown");
    assert_eq!(rss_flow_name(2), "Ipv4");
    assert_eq!(rss_flow_name(23), "GTPU");
    assert_eq!(rss_flow_name(24), "Max");
    assert_eq!(rss_flow_name(25), "Unknown");
}

#[test]
fn os_error_codes() {
    assert_eq!(check_os_error(7).unwrap(), 7);
    assert_eq!(check_os_error(0).unwrap(), 0);
    assert_eq!(check_os_error(-2).unwrap_err().raw_os_error(), Some(2));
}
