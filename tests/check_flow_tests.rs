use netbricks::check::{checksum, finalize_checksum, ipv4_checksum, update_checksum_incremental};
use netbricks::flow::{flow_as_u8, flow_hash, ipv4_extract_flow, ipv4_flow_hash, FiveTupleV4, Ipv4Prefix};
use std::hash::Hasher;

const IP_HEADER: [u8; 20] = [
    0x45, 0x00, 0x00, 0x73, 0x00, 0x00, 0x40, 0x00, 0x40, 0x11, 0xb8, 0x61, 0xc0, 0xa8, 0x00, 0x01, 0xc0, 0xa8, 0x00,
    0xc7,
];

#[test]
fn ipv4_header_checksum() {
    assert_eq!(checksum(&IP_HEADER, 5), 0xb861);
    let mut zeroed = IP_HEADER;
    zeroed[10] = 0;
    zeroed[11] = 0;
    assert_eq!(checksum(&zeroed, 5), 0xb861);
    assert_eq!(checksum(&IP_HEADER, 100), 0);
}

#[test]
fn checksum_of_odd_length() {
    assert_eq!(checksum(&[0x12, 0x34, 0x56], 9), !(0x1234u16 + 0x5600));
}

#[test]
fn finalize_folds_carries() {
    assert_eq!(finalize_checksum(0), 0xffff);
    assert_eq!(finalize_checksum(0x1_fffe), 0);
    assert_eq!(finalize_checksum(0x2_0001), !0x0003u16);
}

#[test]
fn incremental_update_matches_recomputation() {
    let mut h = IP_HEADER;
    let old_check = 0xb861u16;
    let old_word = 0x4011u16;
    h[8] = 0x3f;
    let new_word = 0x3f11u16;
    let updated = update_checksum_incremental(old_check, old_word, new_word);
    assert_eq!(updated, checksum(&h, 5));
}

#[test]
fn ipv4_pseudo_header_checksum() {
    let segment = [0x00u8, 0x50, 0x00, 0x51, 0, 0, 0, 0];
    let r = ipv4_checksum(&segment, 8, &[], 0x0a000001, 0x0a000002, 6);
    let expected = finalize_checksum(0x0a00 + 0x0001 + 0x0a00 + 0x0002 + 6 + 8 + 0x0050 + 0x0051);
    assert_eq!(r, expected);
}

fn ip_with_ports() -> Vec<u8> {
    let mut b = IP_HEADER.to_vec();
    b.extend_from_slice(&[0x1f, 0x90, 0x00, 0x50]);
    b
}

#[test]
fn extract_flow_reads_addresses_and_ports() {
    let f = ipv4_extract_flow(&ip_with_ports());
    assert_eq!(f.src_ip, 0xc0a80001);
    assert_eq!(f.dst_ip, 0xc0a800c7);
    assert_eq!(f.src_port, 8080);
    assert_eq!(f.dst_port, 80);
    assert_eq!(f.proto, 0x11);
}

#[test]
fn stamp_then_extract_round_trip() {
    let mut b = ip_with_ports();
    let f = FiveTupleV4 { src_ip: 0x01020304, dst_ip: 0x05060708, src_port: 1, dst_port: 2, proto: 0x11 };
    f.ipv4_stamp_flow(&mut b);
    assert_eq!(ipv4_extract_flow(&b), f);
    let g = FiveTupleV4 { proto: 6, ..f };
    g.ipv4_stamp_flow(&mut b);
    assert_eq!(ipv4_extract_flow(&b), g);
    assert_eq!(b[9], 6);
    assert_eq!(checksum(&b[0..20], 5), u16::from_be_bytes([b[10], b[11]]));
}

#[test]
fn reverse_flow_swaps_ends() {
    let f = FiveTupleV4 { src_ip: 1, dst_ip: 2, src_port: 3, dst_port: 4, proto: 6 };
    let r = f.reverse_flow();
    assert_eq!(r, FiveTupleV4 { src_ip: 2, dst_ip: 1, src_port: 4, dst_port: 3, proto: 6 });
    assert_eq!(r.reverse_flow(), f);
}

#[test]
fn prefix_membership() {
    let p = Ipv4Prefix::new(0xc0a80123, 24);
    assert_eq!(p.ip_address, 0xc0a80100);
    assert!(p.in_range(0xc0a801ff));
    assert!(!p.in_range(0xc0a802ff));
    let all = Ipv4Prefix::new(0x12345678, 0);
    assert!(all.in_range(0xffffffff));
    let host = Ipv4Prefix::new(0x12345678, 32);
    assert!(host.in_range(0x12345678));
    assert!(!host.in_range(0x12345679));
}

#[test]
fn flow_hash_is_fnv_of_the_flow_bytes() {
    let f = FiveTupleV4 { src_ip: 0x0a000001, dst_ip: 0x0a000002, src_port: 1234, dst_port: 80, proto: 6 };
    let bytes = flow_as_u8(&f);
    assert_eq!(bytes, vec![1, 0, 0, 10, 2, 0, 0, 10, 0xd2, 0x04, 80, 0, 6]);
    let mut h = fnv::FnvHasher::default();
    h.write(&bytes);
    assert_eq!(flow_hash(&f), h.finish() as usize);
    assert_ne!(flow_hash(&f), flow_hash(&f.reverse_flow()));
    let pkt = ip_with_ports();
    assert_eq!(ipv4_flow_hash(&pkt, 0), flow_hash(&ipv4_extract_flow(&pkt)));
}
