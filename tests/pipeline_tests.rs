use netbricks::mbuf::MBuf;
use netbricks::operators::{group_by_distribute, new_group_queues, Act, GroupBy, MergeBatchAuto, ReceiveBatch, SchedulingPolicy};
use netbricks::packet_batch::PacketBatch;
use netbricks::pdu::Header;
use netbricks::port::{PacketRx, PacketTx};
use netbricks::scheduler::{Clock, Executable, Runnable, SchedulerCommand, SchedulerReply, StandaloneScheduler};

fn frame(bytes: &[u8]) -> MBuf {
    let mut m = MBuf::new(2176, 128);
    m.add_data_end(bytes.len());
    for (i, b) in bytes.iter().enumerate() {
        m.buf[128 + i] = *b;
    }
    m
}

fn data_of(m: &MBuf) -> Vec<u8> {
    let off = m.data_off as usize;
    m.buf[off..off + m.data_len()].to_vec()
}

fn ipv4_frame(ttl: u8, proto: u8, id: u8, dst_port: u16) -> Vec<u8> {
    let mut f = vec![0xaa; 6];
    f.extend_from_slice(&[0xbb; 6]);
    f.extend_from_slice(&[0x08, 0x00]);
    f.extend_from_slice(&[0x45, 0x00, 0, 40, 0, 0, 0x40, 0, ttl, proto, 0, 0]);
    f.extend_from_slice(&[10, 0, 0, id, 10, 0, 0, 2]);
    f.extend_from_slice(&[0x04, 0xd2, (dst_port >> 8) as u8, dst_port as u8, 0, 0, 0, 1, 0, 0, 0, 0, 0x50, 0x02, 0xff, 0xff, 0, 0, 0, 0]);
    f
}

/// A receive queue that hands out prepared frames.
struct FrameRx {
    frames: Vec<Vec<u8>>,
}

impl PacketRx for FrameRx {
    fn recv(&mut self, pkts: &mut Vec<MBuf>, max: usize) -> (u32, i32) {
        let n = self.frames.len().min(max);
        for f in self.frames.drain(0..n) {
            pkts.push(frame(&f));
        }
        (n as u32, self.frames.len() as i32)
    }

    fn queued(&self) -> usize {
        self.frames.len()
    }
}

/// A transmit queue that keeps what it is given.
struct CaptureTx {
    sent: Vec<MBuf>,
}

impl PacketTx for CaptureTx {
    fn send(&mut self, pkts: &mut Vec<MBuf>) -> u32 {
        let n = pkts.len();
        self.sent.extend(pkts.drain(..));
        n as u32
    }
}

fn ids(v: &[MBuf]) -> Vec<u32> {
    v.iter().map(|m| m.hash_rss).collect()
}

#[test]
fn drop_packets_keeps_survivors_in_order() {
    let mut b = PacketBatch::new(8, false);
    b.allocate_partial_batch_with_size(5).unwrap();
    for i in 0..5 {
        b.array[i].hash_rss = i as u32;
    }
    assert_eq!(b.drop_packets(&[1, 3]), Some(2));
    assert_eq!(ids(&b.array), vec![0, 2, 4]);
    assert_eq!(b.drop_packets(&[2, 0]), None);
    assert_eq!(b.drop_packets(&[1, 1]), None);
    assert_eq!(b.drop_packets(&[3]), None);
    assert_eq!(ids(&b.array), vec![0, 2, 4]);
    assert_eq!(b.drop_packets(&[]), Some(0));
    assert_eq!(b.available(), 3);
}

#[test]
fn batch_allocation_respects_capacity() {
    let mut b = PacketBatch::new(4, false);
    assert!(b.allocate_partial_batch_with_size(5).is_err());
    assert_eq!(b.available(), 0);
    b.allocate_batch_with_size().unwrap();
    assert_eq!(b.available(), 4);
    b.deallocate_batch().unwrap();
    assert_eq!(b.available(), 0);
    let mut keep = PacketBatch::new(4, true);
    keep.allocate_batch_with_size().unwrap();
    keep.deallocate_batch().unwrap();
    assert_eq!(keep.available(), 4);
    assert_eq!(keep.clear_packets().len(), 4);
    assert_eq!(keep.available(), 0);
}

#[test]
fn mac_swap_pipeline() {
    let mut f = vec![0xaa; 6];
    f.extend_from_slice(&[0xbb; 6]);
    f.extend_from_slice(&[0x08, 0x00, 1, 2, 3, 4]);
    let mut rx = ReceiveBatch::new(FrameRx { frames: vec![f] });
    let mut tx = CaptureTx { sent: Vec::new() };
    let (n, _) = rx.act();
    assert_eq!(n, 1);
    for i in 0..rx.parent.available() {
        let mut pdu = rx.parent.take_pdu(i);
        let mut mac = pdu.get_header(0).as_mac().unwrap();
        mac.swap_addresses();
        pdu.replace_header(0, &Header::Mac(mac)).unwrap();
        rx.parent.put_pdu(i, pdu);
    }
    assert_eq!(rx.parent.send_q(&mut tx), 1);
    rx.done();
    assert_eq!(rx.received, 1);
    assert_eq!(tx.sent.len(), 1);
    let mut expected = vec![0xbb; 6];
    expected.extend_from_slice(&[0xaa; 6]);
    expected.extend_from_slice(&[0x08, 0x00, 1, 2, 3, 4]);
    assert_eq!(data_of(&tx.sent[0]), expected);
}

fn ttl_pipeline(ttl: u8) -> (u64, Vec<MBuf>) {
    let mut rx = ReceiveBatch::new(FrameRx { frames: vec![ipv4_frame(ttl, 6, 1, 80)[..34].to_vec()] });
    let mut tx = CaptureTx { sent: Vec::new() };
    rx.act();
    let mut keep = Vec::new();
    for i in 0..rx.parent.available() {
        let mut pdu = rx.parent.take_pdu(i);
        let mut ip = pdu.get_header(1).as_ip().unwrap();
        if ip.ttl() <= 1 {
            keep.push(false);
        } else {
            ip.set_ttl(ip.ttl() - 1);
            pdu.replace_header(1, &Header::Ip(ip)).unwrap();
            keep.push(true);
        }
        rx.parent.put_pdu(i, pdu);
    }
    rx.parent.filter_packets(&keep);
    rx.parent.send_q(&mut tx);
    (rx.received, tx.sent)
}

#[test]
fn ttl_decrement_drops_at_zero() {
    let (rx, tx) = ttl_pipeline(1);
    assert_eq!(rx, 1);
    assert_eq!(tx.len(), 0);
    let (rx, tx) = ttl_pipeline(2);
    assert_eq!(rx, 1);
    assert_eq!(tx.len(), 1);
    assert_eq!(data_of(&tx[0])[14 + 8], 1);
}

#[test]
fn filter_by_destination_port() {
    let mut rx = ReceiveBatch::new(FrameRx { frames: vec![ipv4_frame(64, 6, 1, 80), ipv4_frame(64, 6, 2, 81)] });
    let mut tx = CaptureTx { sent: Vec::new() };
    rx.act();
    let mut keep = Vec::new();
    for i in 0..rx.parent.available() {
        let pdu = rx.parent.take_pdu(i);
        keep.push(pdu.get_header(2).as_tcp().unwrap().dst_port() == 80);
        rx.parent.put_pdu(i, pdu);
    }
    assert_eq!(rx.parent.filter_packets(&keep), 1);
    assert_eq!(rx.parent.send_q(&mut tx), 1);
    assert_eq!(data_of(&tx.sent[0])[14 + 15], 1);
}

#[test]
fn group_by_protocol_parity() {
    let protos = [6u8, 17, 6, 6, 17];
    let frames: Vec<Vec<u8>> = protos.iter().enumerate().map(|(i, p)| ipv4_frame(64, *p, i as u8, 80)).collect();
    let mut rx = ReceiveBatch::new(FrameRx { frames });
    rx.act();
    let mut groups = Vec::new();
    for i in 0..rx.parent.available() {
        let pdu = rx.parent.take_pdu(i);
        groups.push((pdu.get_header(1).as_ip().unwrap().protocol() % 2) as usize);
        rx.parent.put_pdu(i, pdu);
    }
    let mut queues = new_group_queues(2, 64).unwrap();
    assert_eq!(queues[0].n_producers, 1);
    assert_eq!(group_by_distribute(&mut rx.parent, &groups, &mut queues), 0);
    assert_eq!(rx.parent.available(), 0);
    let mut g0 = Vec::new();
    let mut g1 = Vec::new();
    assert_eq!(queues[0].dequeue(&mut g0, 32), 3);
    assert_eq!(queues[1].dequeue(&mut g1, 32), 2);
    let id = |m: &MBuf| data_of(m)[14 + 15];
    assert_eq!(g0.iter().map(id).collect::<Vec<u8>>(), vec![0, 2, 3]);
    assert_eq!(g1.iter().map(id).collect::<Vec<u8>>(), vec![1, 4]);
}

fn rx_with(n: usize) -> ReceiveBatch<FrameRx> {
    ReceiveBatch::new(FrameRx { frames: (0..n).map(|i| ipv4_frame(64, 6, i as u8, 80)).collect() })
}

#[test]
fn round_robin_merge_visits_each_parent_once() {
    let parents = vec![rx_with(3), rx_with(3), rx_with(3)];
    let mut m = MergeBatchAuto::new(parents, SchedulingPolicy::RoundRobin);
    let mut order = Vec::new();
    for _ in 0..3 {
        assert_eq!(m.merge_act().0, 3);
        order.push(m.which);
        m.merge_done();
    }
    order.sort();
    assert_eq!(order, vec![0, 1, 2]);
    assert!(m.parents.iter().all(|p| p.received == 3));
    assert_eq!(m.merge_act(), (0, 0));
}

#[test]
fn round_robin_skips_empty_parents() {
    let parents = vec![rx_with(0), rx_with(0), rx_with(4)];
    let mut m = MergeBatchAuto::new(parents, SchedulingPolicy::RoundRobin);
    m.update_state();
    assert_eq!(m.state, vec![0, 0, 4]);
    assert_eq!(m.round_robin(), 4);
    assert_eq!(m.which, 2);
    m.state = vec![0, 0, 0];
    assert_eq!(m.round_robin(), 0);
    assert_eq!(m.which, 2);
    m.update_state();
    assert_eq!(m.longest_queue(), 4);
    assert_eq!(m.which, 2);
    let mut lq = MergeBatchAuto::new(vec![rx_with(1), rx_with(5)], SchedulingPolicy::LongestQueue);
    assert_eq!(lq.merge_act().0, 5);
    assert_eq!(lq.which, 1);
}

struct Counter {
    work: u32,
}

impl Executable for Counter {
    fn execute(&mut self) -> (u32, i32) {
        (self.work, 0)
    }
}

struct Ticks {
    now: u64,
}

impl Clock for Ticks {
    fn rdtsc(&mut self) -> u64 {
        self.now += 10;
        self.now
    }
}

#[test]
fn scheduler_skips_tasks_that_are_not_ready() {
    let mut s: StandaloneScheduler<Counter> = StandaloneScheduler::new_with_capacity(0, 4);
    let mut clock = Ticks { now: 0 };
    s.handle_request(SchedulerCommand::Add(1, String::from("a"), Counter { work: 3 }), 0);
    s.handle_request(SchedulerCommand::Add(2, String::from("b"), Counter { work: 2 }), 0);
    s.handle_request(SchedulerCommand::SetTaskStateAll(true), 0);
    for _ in 0..4 {
        s.execute_one(&mut clock);
    }
    assert_eq!(s.run_q[0].count, 6);
    assert_eq!(s.run_q[1].count, 4);
    assert_eq!(s.set_task_state(1, false), Some(true));
    for _ in 0..6 {
        s.execute_one(&mut clock);
    }
    assert_eq!(s.run_q[0].count, 6);
    assert_eq!(s.run_q[1].count, 10);
    assert_eq!(s.set_task_state(1, true), Some(false));
    s.execute_one(&mut clock);
    s.execute_one(&mut clock);
    assert_eq!(s.run_q[0].count, 9);
    assert_eq!(s.set_task_state(7, true), None);
    assert!(s.run_q[0].cycles > 0);
    match s.handle_request(SchedulerCommand::GetPerformance, 0) {
        Some(SchedulerReply::PerformanceData(core, data)) => {
            assert_eq!(core, 0);
            assert_eq!(data.len(), 2);
            assert_eq!(data[0].0, 1);
            assert_eq!(data[0].3, 9);
        },
        _ => panic!("no performance data"),
    }
    s.handle_request(SchedulerCommand::Execute, 0);
    assert!(s.execute_loop);
    s.handle_request(SchedulerCommand::Shutdown, 0);
    assert!(!s.execute_loop && s.shutdown);
}

#[test]
fn runnable_ready_flag() {
    let r = Runnable::from_task(5, String::from("t"), Counter { work: 1 }, 100);
    assert!(!r.is_ready());
    assert_eq!(r.last_run, 100);
    let mut r = r.move_ready();
    assert!(r.is_ready());
    r.unready();
    assert!(!r.is_ready());
    r.ready();
    assert!(r.move_unready().is_ready() == false);
}

#[test]
fn group_by_stage_splits_by_protocol() {
    let protos = [6u8, 17, 6, 6, 17];
    let frames: Vec<Vec<u8>> = protos.iter().enumerate().map(|(i, p)| ipv4_frame(64, *p, i as u8, 80)).collect();
    let rx = ReceiveBatch::new(FrameRx { frames });
    let parity = |p: &netbricks::pdu::Pdu| (p.get_header(1).as_ip().unwrap().protocol() % 2) as usize;
    let mut gb = GroupBy::new(rx, 2, parity, 64).unwrap();
    assert_eq!(gb.execute(), (5, 0));
    assert_eq!(gb.dropped, 0);
    assert_eq!(gb.get_group(0).used_slots(), 3);
    let mut g0 = Vec::new();
    let mut g1 = Vec::new();
    gb.queues[0].dequeue(&mut g0, 32);
    gb.queues[1].dequeue(&mut g1, 32);
    let id = |m: &MBuf| data_of(m)[14 + 15];
    assert_eq!(g0.iter().map(id).collect::<Vec<u8>>(), vec![0, 2, 3]);
    assert_eq!(g1.iter().map(id).collect::<Vec<u8>>(), vec![1, 4]);
    assert_eq!(gb.parent.parent.available(), 0);
}
