use netbricks::mbuf::MBuf;
use netbricks::operators::{Act, DropBatch, FilterBatch, MapBatch, ReceiveBatch, SendBatch, TransformBatch};
use netbricks::port::PacketTx;
use netbricks::scheduler::Executable;
use std::cell::Cell;
use netbricks::pdu::{Header, Pdu};
use netbricks::port::PacketRx;

struct FrameRx {
    frames: Vec<Vec<u8>>,
}

impl PacketRx for FrameRx {
    fn recv(&mut self, pkts: &mut Vec<MBuf>, max: usize) -> (u32, i32) {
        let n = self.frames.len().min(max);
        for f in self.frames.drain(0..n) {
            let mut m = MBuf::new(2176, 128);
            m.add_data_end(f.len());
            for (i, b) in f.iter().enumerate() {
                m.buf[128 + i] = *b;
            }
            pkts.push(m);
        }
        (n as u32, self.frames.len() as i32)
    }

    fn queued(&self) -> usize {
        self.frames.len()
    }
}

fn tcp_frame(ttl: u8, dst_port: u16) -> Vec<u8> {
    let mut f = vec![0xaa; 6];
    f.extend_from_slice(&[0xbb; 6]);
    f.extend_from_slice(&[0x08, 0x00]);
    f.extend_from_slice(&[0x45, 0x00, 0, 40, 0, 0, 0x40, 0, ttl, 6, 0, 0, 10, 0, 0, 1, 10, 0, 0, 2]);
    f.extend_from_slice(&[0x04, 0xd2, (dst_port >> 8) as u8, dst_port as u8, 0, 0, 0, 1, 0, 0, 0, 0, 0x50, 0x02, 0xff, 0xff, 0, 0, 0, 0]);
    f
}

fn ttl_of(m: &MBuf) -> u8 {
    m.buf[m.data_off as usize + 14 + 8]
}

#[test]
fn transform_applies_once_per_batch() {
    let rx = ReceiveBatch::new(FrameRx { frames: vec![tcp_frame(5, 80), tcp_frame(9, 80)] });
    let dec = |mut p: Pdu| {
        let mut ip = p.get_header(1).as_ip().unwrap();
        ip.set_ttl(ip.ttl() - 1);
        p.replace_header(1, &Header::Ip(ip)).unwrap();
        p
    };
    let mut t = TransformBatch::new(rx, dec);
    assert_eq!(t.act(), (2, 0));
    assert_eq!(ttl_of(&t.parent.parent.array[0]), 4);
    assert_eq!(ttl_of(&t.parent.parent.array[1]), 8);
    assert_eq!(t.act(), (0, 0));
    assert_eq!(ttl_of(&t.parent.parent.array[0]), 4);
    t.done();
    assert!(!t.applied);
    assert_eq!(t.parent.parent.available(), 0);
}

#[test]
fn filter_stage_keeps_matching_packets() {
    let rx = ReceiveBatch::new(FrameRx { frames: vec![tcp_frame(64, 80), tcp_frame(64, 81), tcp_frame(63, 80)] });
    let port80 = |p: &Pdu| p.get_header(2).as_tcp().unwrap().dst_port() == 80;
    let mut f = FilterBatch::new(rx, port80);
    assert_eq!(f.act(), (3, 0));
    assert_eq!(f.parent.parent.available(), 2);
    assert_eq!(ttl_of(&f.parent.parent.array[0]), 64);
    assert_eq!(ttl_of(&f.parent.parent.array[1]), 63);
}

#[test]
fn map_sees_each_packet_once_per_batch() {
    let rx = ReceiveBatch::new(FrameRx { frames: vec![tcp_frame(5, 80), tcp_frame(6, 80)] });
    let seen = Cell::new(0u32);
    let mut m = MapBatch::new(rx, |p: &Pdu| seen.set(seen.get() + p.get_header(1).as_ip().unwrap().ttl() as u32));
    assert_eq!(m.act(), (2, 0));
    assert_eq!(m.act(), (0, 0));
    assert_eq!(seen.get(), 11);
    assert_eq!(ttl_of(&m.parent.parent.array[1]), 6);
    m.done();
    assert_eq!(m.parent.parent.available(), 0);
}

#[test]
fn drop_stage_discards_everything() {
    let rx = ReceiveBatch::new(FrameRx { frames: vec![tcp_frame(5, 80), tcp_frame(6, 80)] });
    let mut d = DropBatch::new(rx);
    assert_eq!(d.act(), (2, 0));
    assert_eq!(d.parent.parent.available(), 0);
    assert_eq!(d.parent.received, 2);
}

struct CaptureTx {
    sent: Vec<MBuf>,
}

impl PacketTx for CaptureTx {
    fn send(&mut self, pkts: &mut Vec<MBuf>) -> u32 {
        let n = pkts.len();
        self.sent.extend(pkts.drain(..));
        n as u32
    }
}

#[test]
fn composed_ttl_pipeline() {
    let rx = ReceiveBatch::new(FrameRx { frames: vec![tcp_frame(1, 80), tcp_frame(2, 80)] });
    let dec = |mut p: Pdu| {
        let mut ip = p.get_header(1).as_ip().unwrap();
        ip.set_ttl(ip.ttl().wrapping_sub(1));
        p.replace_header(1, &Header::Ip(ip)).unwrap();
        p
    };
    let alive = |p: &Pdu| p.get_header(1).as_ip().unwrap().ttl() != 0;
    let filtered = FilterBatch::new(TransformBatch::new(rx, dec), alive);
    let mut pipeline = SendBatch::new(filtered, CaptureTx { sent: Vec::new() });
    assert_eq!(pipeline.execute(), (2, 0));
    assert_eq!(pipeline.sent, 1);
    assert_eq!(pipeline.port.sent.len(), 1);
    assert_eq!(ttl_of(&pipeline.port.sent[0]), 1);
    assert_eq!(pipeline.parent.parent.parent.received, 2);
}

#[test]
fn composed_mac_swap_pipeline() {
    let mut f = vec![0xaa; 6];
    f.extend_from_slice(&[0xbb; 6]);
    f.extend_from_slice(&[0x08, 0x00, 1, 2, 3, 4]);
    let rx = ReceiveBatch::new(FrameRx { frames: vec![f] });
    let swap = |mut p: Pdu| {
        let mut mac = p.get_header(0).as_mac().unwrap();
        mac.swap_addresses();
        p.replace_header(0, &Header::Mac(mac)).unwrap();
        p
    };
    let mut pipeline = SendBatch::new(TransformBatch::new(rx, swap), CaptureTx { sent: Vec::new() });
    assert_eq!(pipeline.run(), (1, 0));
    let m = &pipeline.port.sent[0];
    let d = m.buf[m.data_off as usize..m.data_off as usize + m.data_len()].to_vec();
    let mut expected = vec![0xbb; 6];
    expected.extend_from_slice(&[0xaa; 6]);
    expected.extend_from_slice(&[0x08, 0x00, 1, 2, 3, 4]);
    assert_eq!(d, expected);
    assert_eq!(pipeline.parent.parent.received, 1);
    assert_eq!(pipeline.sent, 1);
}
