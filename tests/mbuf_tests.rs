use netbricks::bitfield::__BindgenBitfieldUnit;
use netbricks::mbuf::{MBuf, PKT_TX_IPV4, PKT_TX_IP_CKSUM, PKT_TX_TCP_CKSUM};

#[test]
fn mbuf_headroom_and_tailroom() {
    let mut m = MBuf::new(256, 128);
    assert_eq!(m.data_len(), 0);
    assert_eq!(m.pkt_headroom(), 128);
    assert_eq!(m.pkt_tailroom(), 128);
    assert_eq!(m.add_data_end(100), 100);
    assert_eq!(m.data_len(), 100);
    assert_eq!(m.pkt_len(), 100);
    assert_eq!(m.pkt_tailroom(), 28);
    assert_eq!(m.add_data_end(29), 0);
    assert_eq!(m.data_len(), 100);
    assert_eq!(m.add_data_beginning(20), 20);
    assert_eq!(m.pkt_headroom(), 108);
    assert_eq!(m.data_len(), 120);
    assert_eq!(m.add_data_beginning(109), 0);
    assert_eq!(m.remove_data_beginning(10), 10);
    assert_eq!(m.data_len(), 110);
    assert_eq!(m.remove_data_end(111), 0);
    assert_eq!(m.remove_data_end(110), 110);
    assert_eq!(m.data_len(), 0);
    assert_eq!(m.buf_len(), 256);
}

#[test]
fn mbuf_reference_counting() {
    let mut m = MBuf::new(64, 0);
    assert_eq!(m.refcnt(), 1);
    m.reference();
    assert_eq!(m.refcnt(), 2);
    m.dereference();
    m.dereference();
    assert_eq!(m.refcnt(), 0);
    m.set_refcnt(5);
    assert_eq!(m.refcnt(), 5);
}

#[test]
fn mbuf_offload_flags() {
    let mut m = MBuf::new(64, 0);
    assert!(!m.ipv4_checksum_tx_offload());
    assert!(!m.tcp_checksum_tx_offload());
    m.set_tcp_ipv4_checksum_tx_offload();
    assert!(m.ipv4_checksum_tx_offload());
    assert!(m.tcp_checksum_tx_offload());
    assert_eq!(m.ol_flags, PKT_TX_IPV4 | PKT_TX_IP_CKSUM | PKT_TX_TCP_CKSUM);
    m.ol_flags |= 0x3;
    assert_eq!(m.clear_rx_offload_flags(), PKT_TX_IPV4 | PKT_TX_IP_CKSUM | PKT_TX_TCP_CKSUM);
    m.clear_offload_flags();
    assert_eq!(m.ol_flags, 0);
}

#[test]
fn mbuf_tx_lengths() {
    let mut m = MBuf::new(64, 0);
    m.set_l2_len(14);
    m.set_l3_len(20);
    m.set_l4_len(32);
    assert_eq!(m.l2_len(), 14);
    assert_eq!(m.l3_len(), 20);
    assert_eq!(m.l4_len(), 32);
    // l2_len is seven bits wide: higher bits are cut.
    m.set_l2_len(0xff);
    assert_eq!(m.l2_len(), 0x7f);
    assert_eq!(m.l3_len(), 20);
    assert_eq!(m.tx_offload._bitfield_1.storage[0], 0x7f);
}

#[test]
fn mbuf_metadata_slots() {
    let mut m = MBuf::new(64, 0);
    assert_eq!(m.read_metadata_slot(3), 0);
    m.write_metadata_slot(3, 77);
    assert_eq!(m.read_metadata_slot(3), 77);
    assert_eq!(m.read_metadata_slot(4), 0);
}

#[test]
fn bitfield_unit_bits() {
    let mut u = __BindgenBitfieldUnit::new([0u8; 8]);
    u.set_bit(9, true);
    assert!(u.get_bit(9));
    assert_eq!(u.storage[1], 0x02);
    u.set(4, 8, 0xab);
    assert_eq!(u.get(4, 8), 0xab);
    assert_eq!(u.storage[0], 0xb0);
    assert_eq!(u.storage[1], 0x0a);
    u.set_bit(9, false);
    assert_eq!(u.get(4, 8), 0xab & !0x20);
}

#[test]
fn mbuf_copy_to() {
    let mut a = MBuf::new(64, 8);
    a.add_data_end(4);
    a.buf[8] = 1;
    a.buf[11] = 4;
    let mut b = MBuf::new(64, 0);
    a.copy_to(&mut b);
    assert_eq!(b.data_len(), 4);
    assert_eq!(b.data_off, 8);
    assert_eq!(b.buf[8], 1);
    assert_eq!(b.buf[11], 4);
}
