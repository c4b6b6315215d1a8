//! Port queues: the transmit and receive capabilities of a queue pair, their
//! statistics, and a transmit queue that buffers what the driver could not
//! take yet, keeping the order in which packets were handed to it.
use vstd::prelude::*;
use std::collections::VecDeque;
use crate::errors::ErrorKind;
use crate::mbuf::{MBuf, PKTMBUF_HEADROOM};

verus! {

/// Something packets can be sent to. The driver takes a prefix of the
/// packets handed to it and leaves the rest with the caller.
pub trait PacketTx {
    /// The packets this transmitter has taken, in the order taken.
    closed spec fn sent_log(&self) -> Seq<MBuf> {
        Seq::empty()
    }

    /// Takes the first `r` packets of `pkts`, leaving the rest there.
    fn send(&mut self, pkts: &mut Vec<MBuf>) -> (r: u32)
        ensures
            r <= old(pkts)@.len(),
            final(pkts)@ == old(pkts)@.skip(r as int),
            final(self).sent_log() == old(self).sent_log() + old(pkts)@.take(r as int),
    ;
}

/// Something packets can be received from.
pub trait PacketRx {
    /// Receives up to `max` packets, appended to `pkts`; returns how many and
    /// the queue depth observed.
    fn recv(&mut self, pkts: &mut Vec<MBuf>, max: usize) -> (r: (u32, i32))
        ensures
            r.0 <= max,
            final(pkts)@.len() == old(pkts)@.len() + r.0,
            final(pkts)@.take(old(pkts)@.len() as int) == old(pkts)@,
            forall|i: int| old(pkts)@.len() <= i < final(pkts)@.len() ==> (#[trigger] final(pkts)@[i]).wf(),
    ;

    /// Packets waiting to be received.
    fn queued(&self) -> usize;
}

/// A queue pair: something packets can be both received from and sent to.
pub trait PacketRxTx: PacketRx + PacketTx {}

/// `new_log` is `old_log` with something appended.
pub open spec fn log_extends(old_log: Seq<MBuf>, new_log: Seq<MBuf>) -> bool {
    &&& new_log.len() >= old_log.len()
    &&& new_log.take(old_log.len() as int) == old_log
}

pub proof fn lemma_log_extends_trans(a: Seq<MBuf>, b: Seq<MBuf>, c: Seq<MBuf>)
    requires
        log_extends(a, b),
        log_extends(b, c),
    ensures
        log_extends(a, c),
{
    assert(c.take(a.len() as int) =~= c.take(b.len() as int).take(a.len() as int));
}

/// Per-queue statistics.
pub struct PortStats {
    /// Packets processed.
    pub stats: usize,
    /// Packets queued in software.
    pub queued: usize,
    /// Last observed queue depth.
    pub q_len: usize,
    /// Largest observed queue depth.
    pub max_q_len: usize,
    /// Cycles spent receiving.
    pub cycles: u64,
}

/// `a + b`, wrapping around at the width of `usize`.
pub open spec fn wrapping_add_usize(a: usize, b: usize) -> usize {
    if a + b > usize::MAX {
        (a + b - usize::MAX - 1) as usize
    } else {
        (a + b) as usize
    }
}

impl PortStats {
    /// Fresh statistics. Queue depths start at one, since some queues
    /// cannot report theirs.
    pub fn new() -> (r: PortStats)
        ensures
            r.stats == 0,
            r.queued == 0,
            r.q_len == 1,
            r.max_q_len == 1,
            r.cycles == 0,
    {
        PortStats { stats: 0, queued: 0, q_len: 1, max_q_len: 1, cycles: 0 }
    }

    pub fn get_q_len(&self) -> (r: usize)
        ensures
            r == self.q_len,
    {
        self.q_len
    }

    pub fn get_max_q_len(&self) -> (r: usize)
        ensures
            r == self.max_q_len,
    {
        self.max_q_len
    }

    pub fn cycles(&self) -> (r: u64)
        ensures
            r == self.cycles,
    {
        self.cycles
    }

    /// Records an observed queue depth; returns the previous one.
    pub fn set_q_len(&mut self, len: usize) -> (r: usize)
        ensures
            r == old(self).q_len,
            final(self).q_len == len,
            final(self).max_q_len == if len > old(self).max_q_len {
                len
            } else {
                old(self).max_q_len
            },
            final(self).stats == old(self).stats,
            final(self).queued == old(self).queued,
            final(self).cycles == old(self).cycles,
    {
        if len > self.max_q_len {
            self.max_q_len = len;
        }
        let prev = self.q_len;
        self.q_len = len;
        prev
    }

    /// Counts `n` more packets processed.
    pub fn add_packets(&mut self, n: usize)
        ensures
            final(self).stats == wrapping_add_usize(old(self).stats, n),
            final(self).queued == old(self).queued,
            final(self).q_len == old(self).q_len,
            final(self).max_q_len == old(self).max_q_len,
            final(self).cycles == old(self).cycles,
    {
        self.stats = self.stats.wrapping_add(n);
    }

    /// Counts `n` more packets queued in software.
    pub fn add_queued(&mut self, n: usize)
        ensures
            final(self).queued == wrapping_add_usize(old(self).queued, n),
            final(self).stats == old(self).stats,
            final(self).q_len == old(self).q_len,
            final(self).max_q_len == old(self).max_q_len,
            final(self).cycles == old(self).cycles,
    {
        self.queued = self.queued.wrapping_add(n);
    }
}

/// The packets of a sequence of batches, in order.
pub open spec fn flatten(s: Seq<Seq<MBuf>>) -> Seq<MBuf>
    decreases s.len(),
{
    if s.len() == 0 {
        Seq::empty()
    } else {
        s[0] + flatten(s.drop_first())
    }
}

pub proof fn lemma_flatten_push(s: Seq<Seq<MBuf>>, b: Seq<MBuf>)
    ensures
        flatten(s.push(b)) == flatten(s) + b,
    decreases s.len(),
{
    if s.len() == 0 {
        assert(s.push(b).drop_first() =~= Seq::<Seq<MBuf>>::empty());
        assert(flatten(Seq::<Seq<MBuf>>::empty()) == Seq::<MBuf>::empty());
        assert(s.push(b)[0] == b);
        assert(flatten(s.push(b)) == b + flatten(s.push(b).drop_first()));
        assert(flatten(s.push(b)) =~= b + Seq::<MBuf>::empty());
        assert(flatten(s) + b =~= b);
    } else {
        lemma_flatten_push(s.drop_first(), b);
        assert(s.push(b).drop_first() =~= s.drop_first().push(b));
        assert(s.push(b)[0] == s[0]);
        assert(flatten(s.push(b)) =~= flatten(s) + b);
    }
}

/// Packets the driver has not taken yet, held as batches in arrival order.
pub struct TxQueue {
    pub tx_buffer: VecDeque<Vec<MBuf>>,
    pub tx_queue_len: usize,
}

impl TxQueue {
    /// The batches, as sequences.
    pub open spec fn batches_spec(&self) -> Seq<Seq<MBuf>> {
        self.tx_buffer@.map_values(|v: Vec<MBuf>| v@)
    }

    /// The queued packets, oldest first.
    pub open spec fn view(&self) -> Seq<MBuf> {
        flatten(self.batches_spec())
    }

    /// The running total matches what is queued, and no batch is empty.
    pub open spec fn wf(&self) -> bool {
        &&& self.tx_queue_len == self.view().len()
        &&& forall|i: int| 0 <= i < self.tx_buffer@.len() ==> #[trigger] self.tx_buffer@[i]@.len() > 0
    }

    pub fn with_capacity(capacity: usize) -> (r: TxQueue)
        ensures
            r.wf(),
            r.view() == Seq::<MBuf>::empty(),
            r.tx_buffer@.len() == 0,
    {
        let r = TxQueue { tx_buffer: VecDeque::with_capacity(capacity), tx_queue_len: 0 };
        assert(r.batches_spec() =~= Seq::<Seq<MBuf>>::empty());
        r
    }

    /// Queues a non-empty batch behind everything queued.
    pub fn push_back(&mut self, pkts: Vec<MBuf>)
        requires
            old(self).wf(),
            pkts@.len() > 0,
            old(self).tx_queue_len + pkts@.len() <= usize::MAX,
        ensures
            final(self).wf(),
            final(self).view() == old(self).view() + pkts@,
            final(self).tx_buffer@.len() == old(self).tx_buffer@.len() + 1,
    {
        let len = pkts.len();
        let ghost b = pkts@;
        self.tx_buffer.push_back(pkts);
        self.tx_queue_len = self.tx_queue_len + len;
        proof {
            assert(self.batches_spec() =~= old(self).batches_spec().push(b));
            lemma_flatten_push(old(self).batches_spec(), b);
        }
    }

    /// Queues a non-empty batch in front of everything queued.
    pub fn push_front(&mut self, pkts: Vec<MBuf>)
        requires
            old(self).wf(),
            pkts@.len() > 0,
            old(self).tx_queue_len + pkts@.len() <= usize::MAX,
        ensures
            final(self).wf(),
            final(self).view() == pkts@ + old(self).view(),
            final(self).tx_buffer@.len() == old(self).tx_buffer@.len() + 1,
    {
        let len = pkts.len();
        let ghost b = pkts@;
        self.tx_buffer.push_front(pkts);
        self.tx_queue_len = self.tx_queue_len + len;
        proof {
            assert(self.batches_spec().drop_first() =~= old(self).batches_spec());
            assert(self.batches_spec()[0] == b);
        }
    }

    /// Takes the oldest batch, if any.
    pub fn pop_front(&mut self) -> (r: Option<Vec<MBuf>>)
        requires
            old(self).wf(),
        ensures
            final(self).wf(),
            old(self).tx_buffer@.len() == 0 ==> r is None && final(self).view() == old(self).view()
                && final(self).tx_buffer@.len() == 0,
            old(self).tx_buffer@.len() > 0 ==> ({
                &&& r is Some
                &&& r->0@.len() > 0
                &&& old(self).view() == r->0@ + final(self).view()
                &&& final(self).tx_buffer@.len() == old(self).tx_buffer@.len() - 1
            }),
    {
        let r = self.tx_buffer.pop_front();
        match r {
            Some(v) => {
                proof {
                    assert(self.batches_spec() =~= old(self).batches_spec().drop_first());
                    assert(old(self).batches_spec()[0] == v@);
                }
                self.tx_queue_len = self.tx_queue_len - v.len();
                Some(v)
            },
            None => None,
        }
    }

    /// Number of queued packets.
    pub fn len(&self) -> (r: usize)
        requires
            self.wf(),
        ensures
            r == self.view().len(),
    {
        self.tx_queue_len
    }

    /// Number of queued batches.
    pub fn batches(&self) -> (r: usize)
        ensures
            r == self.tx_buffer@.len(),
    {
        self.tx_buffer.len()
    }

    pub fn is_empty(&self) -> (r: bool)
        ensures
            r == (self.tx_buffer@.len() == 0),
    {
        self.batches() == 0
    }
}

/// Over any sequence of `send_queue` calls starting from an empty software
/// queue (each step as its contract states: the driver's record only grows,
/// and record followed by queue grew by the burst handed in), the driver
/// took a prefix of all bursts in the order given, and all of them once the
/// queue is empty again.
pub proof fn lemma_transmit_order(logs: Seq<Seq<MBuf>>, queues: Seq<Seq<MBuf>>, bursts: Seq<Seq<MBuf>>)
    requires
        logs.len() == bursts.len() + 1,
        queues.len() == bursts.len() + 1,
        queues[0] == Seq::<MBuf>::empty(),
        forall|i: int|
            0 <= i < bursts.len() ==> #[trigger] logs[i + 1] + queues[i + 1] == logs[i] + queues[i] + bursts[i],
    ensures
        logs.last() + queues.last() == logs[0] + flatten(bursts),
        (logs.last() + queues.last()).take(logs.last().len() as int) == logs.last(),
        queues.last() == Seq::<MBuf>::empty() ==> logs.last() == logs[0] + flatten(bursts),
    decreases bursts.len(),
{
    if bursts.len() == 0 {
        assert(logs[0] + queues[0] =~= logs[0]);
        assert(logs[0] + flatten(bursts) =~= logs[0]);
    } else {
        let n = bursts.len() - 1;
        let l2 = logs.drop_last();
        let q2 = queues.drop_last();
        let b2 = bursts.drop_last();
        assert forall|i: int| 0 <= i < b2.len() implies #[trigger] l2[i + 1] + q2[i + 1] == l2[i] + q2[i] + b2[i] by {
            assert(logs[i + 1] + queues[i + 1] == logs[i] + queues[i] + bursts[i]);
        }
        lemma_transmit_order(l2, q2, b2);
        assert(bursts =~= b2.push(bursts[n]));
        lemma_flatten_push(b2, bursts[n]);
        assert(logs[n + 1] + queues[n + 1] == logs[n] + queues[n] + bursts[n]);
        assert(logs.last() + queues.last() =~= logs[0] + flatten(bursts));
    }
    assert((logs.last() + queues.last()).take(logs.last().len() as int) =~= logs.last());
    if queues.last() == Seq::<MBuf>::empty() {
        assert(logs.last() + queues.last() =~= logs.last());
    }
}

/// Buffer size of the segments a virtual queue hands out.
pub const VIRTUAL_BUF_LEN: u16 = 2176;

/// A transmit/receive queue with no device behind it: receiving allocates
/// fresh buffers, sending frees them.
pub struct VirtualQueue {
    pub stats_rx: PortStats,
    pub stats_tx: PortStats,
    pub sent: Ghost<Seq<MBuf>>,
}

impl PacketTx for VirtualQueue {
    closed spec fn sent_log(&self) -> Seq<MBuf> {
        self.sent@
    }

    /// Takes every packet and frees it.
    fn send(&mut self, pkts: &mut Vec<MBuf>) -> (r: u32)
        ensures
            r == old(pkts)@.len() || old(pkts)@.len() > u32::MAX,
    {
        let n = if pkts.len() > u32::MAX as usize {
            u32::MAX as usize
        } else {
            pkts.len()
        };
        let ghost before = pkts@;
        let rest = pkts.split_off(n);
        self.sent = Ghost(self.sent@ + pkts@);
        *pkts = rest;
        self.stats_tx.add_packets(n);
        assert(before.take(n as int) =~= before.subrange(0, n as int));
        n as u32
    }
}

impl PacketRx for VirtualQueue {
    /// Allocates `max` fresh packets.
    fn recv(&mut self, pkts: &mut Vec<MBuf>, max: usize) -> (r: (u32, i32))
        ensures
            r.0 == max || max > u32::MAX || old(pkts)@.len() + max > usize::MAX,
            r.1 == 0,
    {
        let mut n = if max > u32::MAX as usize {
            u32::MAX as usize
        } else {
            max
        };
        if n > usize::MAX - pkts.len() {
            n = usize::MAX - pkts.len();
        }
        let ghost start = pkts@;
        let mut i: usize = 0;
        while i < n
            invariant
                i <= n,
                start.len() + n <= usize::MAX,
                pkts@.len() == start.len() + i,
                pkts@.take(start.len() as int) == start,
                forall|k: int| start.len() <= k < pkts@.len() ==> (#[trigger] pkts@[k]).wf(),
            decreases n - i,
        {
            pkts.push(MBuf::new(VIRTUAL_BUF_LEN, PKTMBUF_HEADROOM));
            i += 1;
            assert(pkts@.take(start.len() as int) =~= start);
        }
        self.stats_rx.add_packets(i);
        (i as u32, 0)
    }

    /// A virtual queue always has something to receive.
    fn queued(&self) -> (r: usize)
        ensures
            r == 1,
    {
        1
    }
}

impl VirtualQueue {
    pub fn new() -> (r: VirtualQueue)
        ensures
            r.stats_rx.stats == 0,
            r.stats_tx.stats == 0,
    {
        VirtualQueue { stats_rx: PortStats::new(), stats_tx: PortStats::new(), sent: Ghost(Seq::empty()) }
    }

    /// Packets received and sent through this queue.
    pub fn stats(&self) -> (r: (usize, usize))
        ensures
            r == (self.stats_rx.stats, self.stats_tx.stats),
    {
        (self.stats_rx.stats, self.stats_tx.stats)
    }
}

/// A queue pair whose transmit side buffers, in software and in order, what
/// the driver does not take at once.
pub struct PortQueueTxBuffered<T: PacketTx> {
    pub port_queue: T,
    pub tx_queue: TxQueue,
    pub stats_tx: PortStats,
}

impl<T: PacketTx> PortQueueTxBuffered<T> {
    pub open spec fn wf(&self) -> bool {
        self.tx_queue.wf()
    }

    /// What has been handed over: what the driver took, then what waits.
    pub open spec fn accepted(&self) -> Seq<MBuf> {
        self.port_queue.sent_log() + self.tx_queue.view()
    }

    pub fn new(port_queue: T) -> (r: Self)
        ensures
            r.wf(),
            r.tx_queue.view() == Seq::<MBuf>::empty(),
            r.port_queue == port_queue,
    {
        PortQueueTxBuffered {
            port_queue,
            tx_queue: TxQueue::with_capacity(4096),
            stats_tx: PortStats::new(),
        }
    }

    /// Queues all of `pkts` behind what waits.
    fn queue(&mut self, pkts: &mut Vec<MBuf>)
        requires
            old(self).wf(),
            old(self).tx_queue.view().len() + old(pkts)@.len() <= usize::MAX,
        ensures
            final(self).wf(),
            final(pkts)@ == Seq::<MBuf>::empty(),
            final(self).tx_queue.view() == old(self).tx_queue.view() + old(pkts)@,
            final(self).port_queue == old(self).port_queue,
            final(self).stats_tx.max_q_len == old(self).stats_tx.max_q_len,
    {
        let len = pkts.len();
        if len > 0 {
            let mut batch: Vec<MBuf> = Vec::new();
            std::mem::swap(pkts, &mut batch);
            self.tx_queue.push_back(batch);
            self.stats_tx.add_queued(len);
        } else {
            assert(old(self).tx_queue.view() + old(pkts)@ =~= old(self).tx_queue.view());
        }
    }

    /// Hands the fresh packets to the driver and queues what it leaves.
    fn send_fresh(&mut self, pkts: &mut Vec<MBuf>)
        requires
            old(self).wf(),
            old(self).tx_queue.tx_buffer@.len() == 0,
            old(self).tx_queue.view().len() + old(pkts)@.len() <= usize::MAX,
        ensures
            final(self).wf(),
            final(pkts)@ == Seq::<MBuf>::empty(),
            final(self).accepted() == old(self).accepted() + old(pkts)@,
            final(self).stats_tx.max_q_len == old(self).stats_tx.max_q_len,
            log_extends(old(self).port_queue.sent_log(), final(self).port_queue.sent_log()),
    {
        let ghost p0 = pkts@;
        proof {
            assert(self.tx_queue.batches_spec() =~= Seq::<Seq<MBuf>>::empty());
            assert(self.tx_queue.view() == Seq::<MBuf>::empty());
        }
        let _sent = self.port_queue.send(pkts);
        self.queue(pkts);
        proof {
            assert(p0 =~= p0.take(_sent as int) + p0.skip(_sent as int));
            assert(self.accepted() =~= old(self).accepted() + p0);
            let l0 = old(self).port_queue.sent_log();
            assert(self.port_queue.sent_log().take(l0.len() as int) =~= l0);
        }
    }

    /// Accepts every packet of `pkts`: waiting packets go to the driver
    /// first, and fresh ones are sent only once nothing waits; whatever the
    /// driver leaves is queued in order. Returns how many were accepted and
    /// records the queue length in the statistics.
    pub fn send_queue(&mut self, pkts: &mut Vec<MBuf>) -> (r: usize)
        requires
            old(self).wf(),
            old(self).tx_queue.view().len() + old(pkts)@.len() <= usize::MAX,
        ensures
            final(self).wf(),
            r == old(pkts)@.len(),
            final(pkts)@ == Seq::<MBuf>::empty(),
            final(self).accepted() == old(self).accepted() + old(pkts)@,
            log_extends(old(self).port_queue.sent_log(), final(self).port_queue.sent_log()),
            ({
                let taken = final(self).port_queue.sent_log().len() - old(self).port_queue.sent_log().len();
                let offered = old(self).tx_queue.view() + old(pkts)@;
                &&& final(self).port_queue.sent_log() == old(self).port_queue.sent_log() + offered.take(taken)
                &&& final(self).tx_queue.view() == offered.skip(taken)
            }),
            final(self).stats_tx.q_len == final(self).tx_queue.view().len(),
            final(self).stats_tx.queued == final(self).tx_queue.view().len(),
            final(self).stats_tx.max_q_len >= final(self).tx_queue.view().len(),
            final(self).stats_tx.max_q_len >= old(self).stats_tx.max_q_len,
    {
        let to_send = pkts.len();
        if self.tx_queue.is_empty() {
            self.send_fresh(pkts);
        } else {
            proof {
                let l0 = old(self).port_queue.sent_log();
                assert(l0.take(l0.len() as int) =~= l0);
            }
            loop
                invariant_except_break
                    self.wf(),
                    self.tx_queue.tx_buffer@.len() > 0,
                    pkts@ == old(pkts)@,
                    self.accepted() == old(self).accepted(),
                    log_extends(old(self).port_queue.sent_log(), self.port_queue.sent_log()),
                    self.tx_queue.view().len() + pkts@.len() <= usize::MAX,
                    self.stats_tx.max_q_len == old(self).stats_tx.max_q_len,
                ensures
                    self.wf(),
                    pkts@ == Seq::<MBuf>::empty(),
                    self.accepted() == old(self).accepted() + old(pkts)@,
                    log_extends(old(self).port_queue.sent_log(), self.port_queue.sent_log()),
                    self.stats_tx.max_q_len == old(self).stats_tx.max_q_len,
                decreases self.tx_queue.tx_buffer@.len(),
            {
                let ghost q0 = self.tx_queue.view();
                let mut batch = match self.tx_queue.pop_front() {
                    Some(b) => b,
                    None => {
                        assert(false);
                        break;
                    },
                };
                let ghost b0 = batch@;
                let ghost lg = self.port_queue.sent_log();
                let len = batch.len();
                let sent = self.port_queue.send(&mut batch);
                proof {
                    assert(b0 =~= b0.take(sent as int) + b0.skip(sent as int));
                    let l0 = old(self).port_queue.sent_log();
                    assert(self.port_queue.sent_log().take(l0.len() as int) =~= lg.take(l0.len() as int));
                }
                if (sent as usize) < len {
                    self.tx_queue.push_front(batch);
                    proof {
                        assert(self.accepted() =~= old(self).accepted());
                    }
                    self.queue(pkts);
                    break;
                }
                proof {
                    assert(self.accepted() =~= old(self).accepted());
                }
                if self.tx_queue.is_empty() {
                    let ghost lb = self.port_queue.sent_log();
                    self.send_fresh(pkts);
                    proof {
                        lemma_log_extends_trans(old(self).port_queue.sent_log(), lb, self.port_queue.sent_log());
                    }
                    break;
                }
            }
        }
        let qlen = self.tx_queue.len();
        self.stats_tx.set_q_len(qlen);
        self.stats_tx.queued = qlen;
        proof {
            let l0 = old(self).port_queue.sent_log();
            let l1 = self.port_queue.sent_log();
            let taken = l1.len() - l0.len();
            let offered = old(self).tx_queue.view() + old(pkts)@;
            let d = l1.skip(l0.len() as int);
            assert(l1 =~= l0 + d);
            assert(l0 + offered =~= l1 + self.tx_queue.view());
            assert(offered =~= d + self.tx_queue.view()) by {
                assert((l0 + offered).skip(l0.len() as int) =~= offered);
                assert((l1 + self.tx_queue.view()).skip(l0.len() as int) =~= d + self.tx_queue.view());
            }
            assert(offered.take(taken) =~= d);
            assert(offered.skip(taken) =~= self.tx_queue.view());
        }
        to_send
    }
}

/// A port with no device behind it, whose queues are virtual.
pub struct VirtualPort {
    pub stats_rx: PortStats,
    pub stats_tx: PortStats,
}

impl VirtualPort {
    pub fn new() -> (r: Result<VirtualPort, ErrorKind>)
        ensures
            r matches Ok(p) && p.stats_rx.stats == 0 && p.stats_tx.stats == 0,
    {
        Ok(VirtualPort { stats_rx: PortStats::new(), stats_tx: PortStats::new() })
    }

    /// A fresh virtual queue pair of this port.
    pub fn new_virtual_queue(&self) -> (r: Result<VirtualQueue, ErrorKind>)
        ensures
            r matches Ok(q) && q.stats_rx.stats == 0 && q.stats_tx.stats == 0,
    {
        Ok(VirtualQueue::new())
    }

    /// Packets received and sent through the port.
    pub fn stats(&self) -> (r: (usize, usize))
        ensures
            r == (self.stats_rx.stats, self.stats_tx.stats),
    {
        (self.stats_rx.stats, self.stats_tx.stats)
    }

    /// Adds the counts of a queue of this port to the port's.
    pub fn collect(&mut self, q: &VirtualQueue)
        ensures
            final(self).stats_rx.stats == wrapping_add_usize(old(self).stats_rx.stats, q.stats_rx.stats),
            final(self).stats_tx.stats == wrapping_add_usize(old(self).stats_tx.stats, q.stats_tx.stats),
    {
        self.stats_rx.add_packets(q.stats_rx.stats);
        self.stats_tx.add_packets(q.stats_tx.stats);
    }
}

/// C-style truth value of a flag.
pub fn i32_from_bool(x: bool) -> (r: i32)
    ensures
        r == if x {
            1i32
        } else {
            0i32
        },
{
    match x {
        true => 1,
        false => 0,
    }
}

/// Largest receive-side-scaling flow type id.
pub const RTE_ETH_FLOW_MAX: usize = 24;

/// The name of a receive-side-scaling flow type; ids beyond the last
/// one are unknown.
pub open spec fn rss_flow_name_spec(rss_flow_id: usize) -> Seq<char> {
    match rss_flow_id {
        1usize => "Raw"@,
        2usize => "Ipv4"@,
        3usize => "FragIpv4"@,
        4usize => "NonFragIpv4Tcp"@,
        5usize => "NonFragIpv4Udp"@,
        6usize => "NonFragIpv4Sctp"@,
        7usize => "NonFragIpv4Other"@,
        8usize => "IPv6"@,
        9usize => "FragIpv6"@,
        10usize => "NonFragIpv6Tcp"@,
        11usize => "NonFragIpv6Udp"@,
        12usize => "NonFragIpv6Sctp"@,
        13usize => "NonFragIpv6Other"@,
        14usize => "L2Payload"@,
        15usize => "Ipv6Ex"@,
        16usize => "Ipv6TcpEx"@,
        17usize => "Ipv6UdpEx"@,
        18usize => "Port"@,
        19usize => "Vxlan"@,
        20usize => "Geneve"@,
        21usize => "Nvgre"@,
        22usize => "VxlanGpe"@,
        23usize => "GTPU"@,
        24usize => "Max"@,
        _ => "Unknown"@,
    }
}

/// The name of a receive-side-scaling flow type.
pub fn rss_flow_name(rss_flow_id: usize) -> (r: &'static str)
    ensures
        r@ == rss_flow_name_spec(rss_flow_id),
{
    match rss_flow_id {
        1usize => "Raw",
        2usize => "Ipv4",
        3usize => "FragIpv4",
        4usize => "NonFragIpv4Tcp",
        5usize => "NonFragIpv4Udp",
        6usize => "NonFragIpv4Sctp",
        7usize => "NonFragIpv4Other",
        8usize => "IPv6",
        9usize => "FragIpv6",
        10usize => "NonFragIpv6Tcp",
        11usize => "NonFragIpv6Udp",
        12usize => "NonFragIpv6Sctp",
        13usize => "NonFragIpv6Other",
        14usize => "L2Payload",
        15usize => "Ipv6Ex",
        16usize => "Ipv6TcpEx",
        17usize => "Ipv6UdpEx",
        18usize => "Port",
        19usize => "Vxlan",
        20usize => "Geneve",
        21usize => "Nvgre",
        22usize => "VxlanGpe",
        23usize => "GTPU",
        24usize => "Max",
        _ => "Unknown",
    }
}

} // verus!
