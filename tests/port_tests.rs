use netbricks::mbuf::MBuf;
use netbricks::port::{i32_from_bool, PacketRx, PacketTx, PortQueueTxBuffered, PortStats, TxQueue, VirtualPort};

fn tagged(id: u32) -> MBuf {
    let mut m = MBuf::new(0, 0);
    m.hash_rss = id;
    m
}

/// A driver that takes at most `limit` packets per call.
struct LimitedTx {
    limit: usize,
    log: Vec<u32>,
}

impl PacketTx for LimitedTx {
    fn send(&mut self, pkts: &mut Vec<MBuf>) -> u32 {
        let n = pkts.len().min(self.limit);
        for m in pkts.drain(0..n) {
            self.log.push(m.hash_rss);
        }
        n as u32
    }
}

#[test]
fn port_stats_track_queue_depth() {
    let mut s = PortStats::new();
    assert_eq!(s.get_q_len(), 1);
    assert_eq!(s.get_max_q_len(), 1);
    assert_eq!(s.set_q_len(7), 1);
    assert_eq!(s.set_q_len(3), 7);
    assert_eq!(s.get_q_len(), 3);
    assert_eq!(s.get_max_q_len(), 7);
    assert_eq!(s.cycles(), 0);
}

#[test]
fn tx_queue_keeps_batches_in_order() {
    let mut q = TxQueue::with_capacity(4);
    assert!(q.is_empty());
    q.push_back(vec![tagged(1), tagged(2)]);
    q.push_front(vec![tagged(0)]);
    q.push_back(vec![tagged(3)]);
    assert_eq!(q.len(), 4);
    assert_eq!(q.batches(), 3);
    let ids: Vec<u32> = q.pop_front().unwrap().iter().map(|m| m.hash_rss).collect();
    assert_eq!(ids, vec![0]);
    assert_eq!(q.len(), 3);
    q.pop_front();
    q.pop_front();
    assert!(q.pop_front().is_none());
    assert_eq!(q.len(), 0);
}

#[test]
fn tx_back_pressure_keeps_order() {
    let mut port = PortQueueTxBuffered::new(LimitedTx { limit: 10, log: Vec::new() });
    let mut burst: Vec<MBuf> = (0..32).map(tagged).collect();
    assert_eq!(port.send_queue(&mut burst), 32);
    assert!(burst.is_empty());
    assert_eq!(port.port_queue.log.len(), 10);
    assert_eq!(port.tx_queue.len(), 22);
    assert_eq!(port.stats_tx.queued, 22);
    let waiting: Vec<u32> = port.tx_queue.tx_buffer.iter().flat_map(|b| b.iter().map(|m| m.hash_rss)).collect();
    assert_eq!(waiting, (10..32).collect::<Vec<u32>>());
    assert!(port.stats_tx.get_max_q_len() >= 22);
    let mut fresh: Vec<MBuf> = (32..64).map(tagged).collect();
    assert_eq!(port.send_queue(&mut fresh), 32);
    // the 22 waiting packets go first
    assert_eq!(port.port_queue.log[10..20].to_vec(), (10..20).collect::<Vec<u32>>());
    let mut none: Vec<MBuf> = Vec::new();
    let mut rounds = 0;
    while port.tx_queue.len() > 0 && rounds < 100 {
        port.send_queue(&mut none);
        rounds += 1;
    }
    assert_eq!(port.port_queue.log, (0..64).collect::<Vec<u32>>());
    assert!(port.stats_tx.get_max_q_len() >= 22);
    assert_eq!(port.stats_tx.get_q_len(), 0);
}

#[test]
fn virtual_queue_allocates_and_frees() {
    let vp = VirtualPort::new().unwrap();
    let mut q = vp.new_virtual_queue().unwrap();
    let mut pkts = Vec::new();
    assert_eq!(q.recv(&mut pkts, 4), (4, 0));
    assert_eq!(pkts.len(), 4);
    assert_eq!(q.queued(), 1);
    assert_eq!(q.send(&mut pkts), 4);
    assert!(pkts.is_empty());
    assert_eq!(q.stats(), (4, 4));
    let mut port = vp;
    port.collect(&q);
    assert_eq!(port.stats(), (4, 4));
}

#[test]
fn bool_to_c_int() {
    assert_eq!(i32_from_bool(true), 1);
    assert_eq!(i32_from_bool(false), 0);
}
