//! Batch operators: receiving into a batch, merging several upstream
//! batches, and fanning a batch out to per-group queues.
use vstd::prelude::*;
use crate::mbuf::MBuf;
use crate::mpsc::MpscQueue;
use crate::packet_batch::{ascending, rejected, without, PacketBatch};
use crate::pdu::{parse_spec, Pdu};
use crate::port::{PacketRx, PacketTx};
use crate::scheduler::wrapping_add_u64;

verus! {

/// A node of a pipeline: it drives its upstream and exposes the batch in
/// flight, which nodes further down read, edit, filter and send.
pub trait Act {
    /// The node's own consistency.
    closed spec fn inv(&self) -> bool {
        true
    }

    /// The packets of the batch in flight.
    closed spec fn packets(&self) -> Seq<MBuf> {
        Seq::empty()
    }

    /// What one `act` may do: from this state to `after`, reporting `r`.
    closed spec fn acted(&self, after: Self, r: (u32, i32)) -> bool where Self: Sized {
        true
    }

    /// Does this node's work on a new batch; returns the packets processed
    /// and the queue depth seen at the source.
    fn act(&mut self) -> (r: (u32, i32)) where Self: Sized
        requires
            old(self).inv(),
        ensures
            final(self).inv(),
            old(self).acted(*final(self), r),
    ;

    /// Ends the current batch.
    fn done(&mut self)
        requires
            old(self).inv(),
        ensures
            final(self).inv(),
    ;

    /// Number of packets in flight.
    fn count(&self) -> (r: usize)
        requires
            self.inv(),
        ensures
            r == self.packets().len(),
    ;

    /// Packet `i`, parsed and taken out; `put_pdu` returns it.
    fn take_pdu(&mut self, i: usize) -> (r: Pdu)
        requires
            old(self).inv(),
            i < old(self).packets().len(),
        ensures
            final(self).inv(),
            r.wf(),
            r.mbuf == old(self).packets()[i as int],
            r.headers_spec() == parse_spec(old(self).packets()[i as int].data()),
            final(self).packets().len() == old(self).packets().len(),
            forall|k: int| 0 <= k < old(self).packets().len() && k != i ==> final(self).packets()[k] == old(self).packets()[k],
    ;

    /// Puts the buffer of `p` at position `i`.
    fn put_pdu(&mut self, i: usize, p: Pdu)
        requires
            old(self).inv(),
            i < old(self).packets().len(),
            p.mbuf.wf(),
        ensures
            final(self).inv(),
            final(self).packets() == old(self).packets().update(i as int, p.mbuf),
    ;

    /// Drops the packets at the strictly ascending positions `idxes`.
    fn drop_packets(&mut self, idxes: &[usize]) -> (r: Option<usize>)
        requires
            old(self).inv(),
        ensures
            final(self).inv(),
            r is Some <==> (ascending(idxes@) && forall|k: int|
                0 <= k < idxes@.len() ==> #[trigger] idxes@[k] < old(self).packets().len()),
            r is None ==> final(self).packets() == old(self).packets(),
            r is Some ==> final(self).packets() == without(old(self).packets(), idxes@) && final(self).packets().len()
                == old(self).packets().len() - idxes@.len(),
    ;

    /// Hands the batch to `port`; what it does not take stays in flight.
    fn send_q<Tx: PacketTx>(&mut self, port: &mut Tx) -> (r: u32)
        requires
            old(self).inv(),
        ensures
            final(self).inv(),
            r <= old(self).packets().len(),
            final(self).packets() == old(self).packets().skip(r as int),
            final(port).sent_log() == old(port).sent_log() + old(self).packets().take(r as int),
    ;
}

/// A node of a pipeline that reports how much work waits upstream.
pub trait Batch: Act {
    fn queued(&self) -> usize;
}

/// Queue depth reported by an urgent source that has work waiting.
pub const URGENT_QUEUE_LEN: usize = 10000;

/// The head of a pipeline: a batch filled from a receive queue.
pub struct ReceiveBatch<T: PacketRx> {
    pub parent: PacketBatch,
    pub packet_rx: T,
    pub received: u64,
    pub urgent: bool,
}

impl<T: PacketRx> ReceiveBatch<T> {
    pub open spec fn wf(&self) -> bool {
        self.parent.wf()
    }

    pub fn new_with_parent(parent: PacketBatch, packet_rx: T) -> (r: ReceiveBatch<T>)
        ensures
            r.parent == parent,
            r.packet_rx == packet_rx,
            r.received == 0,
            !r.urgent,
    {
        ReceiveBatch { parent, packet_rx, received: 0, urgent: false }
    }

    /// A receiving head with a batch of 32 that frees each batch before the next.
    pub fn new(packet_rx: T) -> (r: ReceiveBatch<T>)
        ensures
            r.wf(),
            r.parent.capacity == 32,
            r.parent.array@ == Seq::<MBuf>::empty(),
            r.packet_rx == packet_rx,
            r.received == 0,
            !r.urgent,
    {
        ReceiveBatch { parent: PacketBatch::new(32, false), packet_rx, received: 0, urgent: false }
    }

    /// A receiving head with a batch of 32 whose buffers downstream takes over.
    pub fn new_keep_mbuf(packet_rx: T) -> (r: ReceiveBatch<T>)
        ensures
            r.parent.wf(),
            r.parent.b_keep_mbuf,
            r.parent.capacity == 32,
            r.parent.array@ == Seq::<MBuf>::empty(),
            r.packet_rx == packet_rx,
            r.received == 0,
            !r.urgent,
    {
        ReceiveBatch { parent: PacketBatch::new(32, true), packet_rx, received: 0, urgent: false }
    }

    /// Marks the source urgent: it reports a large queue whenever it has
    /// anything, so that a longest-queue merge prefers it.
    pub fn set_urgent(self) -> (r: ReceiveBatch<T>)
        ensures
            r.urgent,
            r.parent == self.parent,
            r.packet_rx == self.packet_rx,
            r.received == self.received,
    {
        let mut s = self;
        s.urgent = true;
        s
    }

    /// Frees the previous batch and receives a new one; returns how many
    /// packets came and the depth the source reported.
    pub fn receive(&mut self) -> (r: (u32, i32))
        requires
            old(self).wf(),
        ensures
            final(self).wf(),
            final(self).parent.array@.len() == r.0,
            final(self).parent.capacity == old(self).parent.capacity,
            final(self).parent.b_keep_mbuf == old(self).parent.b_keep_mbuf,
            final(self).received == (old(self).received + r.0) % 0x1_0000_0000_0000_0000,
            final(self).urgent == old(self).urgent,
    {
        let r = self.parent.recv(&mut self.packet_rx);
        self.received = self.received.wrapping_add(r.0 as u64);
        r
    }

    /// How much waits at the source (see `set_urgent`).
    pub fn queued(&self) -> (r: usize) {
        let q = self.packet_rx.queued();
        if self.urgent {
            if q > 0 {
                URGENT_QUEUE_LEN
            } else {
                0
            }
        } else {
            q
        }
    }
}

impl<T: PacketRx> Act for ReceiveBatch<T> {
    open spec fn inv(&self) -> bool {
        self.parent.wf()
    }

    open spec fn packets(&self) -> Seq<MBuf> {
        self.parent.array@
    }

    /// A new batch of `r.0` packets arrived, in a batch of the same shape.
    open spec fn acted(&self, after: Self, r: (u32, i32)) -> bool {
        &&& after.packets().len() == r.0
        &&& after.parent.capacity == self.parent.capacity
        &&& after.parent.b_keep_mbuf == self.parent.b_keep_mbuf
    }

    /// Receives a new batch (see `receive`).
    fn act(&mut self) -> (r: (u32, i32)) {
        self.receive()
    }

    /// Frees the current batch, unless downstream took its buffers over.
    fn done(&mut self)
        ensures
            !old(self).parent.b_keep_mbuf ==> final(self).packets() == Seq::<MBuf>::empty(),
    {
        let _ = self.parent.deallocate_batch();
    }

    fn count(&self) -> (r: usize) {
        self.parent.available()
    }

    fn take_pdu(&mut self, i: usize) -> (r: Pdu) {
        self.parent.take_pdu(i)
    }

    fn put_pdu(&mut self, i: usize, p: Pdu) {
        self.parent.put_pdu(i, p)
    }

    fn drop_packets(&mut self, idxes: &[usize]) -> (r: Option<usize>) {
        self.parent.drop_packets(idxes)
    }

    fn send_q<Tx: PacketTx>(&mut self, port: &mut Tx) -> (r: u32) {
        self.parent.send_q(port)
    }
}

impl<T: PacketRx> Batch for ReceiveBatch<T> {
    fn queued(&self) -> usize {
        ReceiveBatch::queued(self)
    }
}

impl<T: Batch> MergeBatchAuto<T> {
    /// Refreshes the depths, picks an upstream by the policy, and drives it
    /// when it has work; returns what it reported, or `(0, 0)`.
    pub fn merge_act(&mut self) -> (r: (u32, i32))
        requires
            old(self).wf(),
        ensures
            final(self).wf(),
            final(self).policy == old(self).policy,
            final(self).parents@.len() == old(self).parents@.len(),
            final(self).parents@.len() > 0 && final(self).policy == SchedulingPolicy::RoundRobin ==> rr_choice(
                final(self).state@,
                old(self).which as int,
                final(self).which as int,
            ),
            final(self).policy == SchedulingPolicy::LongestQueue ==> final(self).which == final(self).queue_max,
            (final(self).parents@.len() > 0 && final(self).policy == SchedulingPolicy::RoundRobin && forall|i: int|
                0 <= i < final(self).state@.len() ==> #[trigger] final(self).state@[i] > 0) ==> final(self).which == (
            old(self).which + 1) % (old(self).parents@.len() as int),
            forall|k: int|
                0 <= k < old(self).parents@.len() && k != final(self).which ==> #[trigger] final(self).parents@[k]
                    == old(self).parents@[k],
            final(self).parents@.len() == 0 || final(self).chosen_depth() == 0 ==> r == (0u32, 0i32)
                && final(self).parents@ == old(self).parents@,
            final(self).parents@.len() > 0 && final(self).chosen_depth() > 0 ==> old(self).parents@[final(self).which as int].acted(final(self).parents@[final(self).which as int], r),
    {
        self.update_state();
        let ghost st = self.state@;
        let q = match self.policy {
            SchedulingPolicy::RoundRobin => {
                let d = self.round_robin();
                proof {
                    if self.parents@.len() > 0 && d == 0 {
                        let len = st.len() as int;
                        let w = old(self).which as int;
                        assert(rr_at(st, w, len) == 0);
                        assert((w + len) % len == w) by (nonlinear_arith)
                            requires len > 0, 0 <= w < len;
                    }
                    if self.parents@.len() > 0 && forall|i: int| 0 <= i < st.len() ==> #[trigger] st[i] > 0 {
                        assert(forall|i: int| 0 <= i < old(self).state@.len() ==> st[i] > 0);
                        assert(self.which == (old(self).which + 1) % (st.len() as int));
                    }
                }
                d
            },
            SchedulingPolicy::LongestQueue => self.longest_queue(),
        };
        let ghost chosen = self.which;
        let ghost all_busy = self.parents@.len() > 0 && self.policy == SchedulingPolicy::RoundRobin && forall|i: int|
            0 <= i < st.len() ==> #[trigger] st[i] > 0;
        assert(all_busy ==> chosen == (old(self).which + 1) % (old(self).parents@.len() as int));
        if q > 0 && self.which < self.parents.len() {
            let w = self.which;
            let ghost before_w = self.parents@[w as int];
            let r = self.parents[w].act();
            assert(self.which == chosen && self.state@ == st);
            assert(before_w == old(self).parents@[w as int]);
            assert(before_w.acted(self.parents@[w as int], r));
            r
        } else {
            (0, 0)
        }
    }

    /// Ends the batch of the upstream driven last.
    pub fn merge_done(&mut self)
        requires
            old(self).wf(),
        ensures
            final(self).wf(),
            final(self).parents@.len() == old(self).parents@.len(),
    {
        if self.which < self.parents.len() {
            let w = self.which;
            self.parents[w].done();
        }
    }
}

/// The packets of `s` classified into group `g`, in order.
pub open spec fn select_group(s: Seq<MBuf>, groups: Seq<usize>, g: int) -> Seq<MBuf>
    decreases s.len(),
{
    if s.len() == 0 {
        s
    } else if groups[s.len() - 1] == g {
        select_group(s.drop_last(), groups, g).push(s.last())
    } else {
        select_group(s.drop_last(), groups, g)
    }
}

/// A longer prefix selects at least as many packets of a group.
pub proof fn lemma_select_group_prefix(s: Seq<MBuf>, groups: Seq<usize>, g: int, i: int)
    requires
        0 <= i <= s.len(),
    ensures
        select_group(s.take(i), groups, g).len() <= select_group(s, groups, g).len(),
    decreases s.len() - i,
{
    if i < s.len() {
        lemma_select_group_prefix(s, groups, g, i + 1);
        assert(s.take(i + 1).drop_last() =~= s.take(i));
    } else {
        assert(s.take(i) =~= s);
    }
}

/// `n` empty queues of (at least) `size` slots each, each with one producer:
/// the queues a group-by stage fans out to.
pub fn new_group_queues(n: usize, size: usize) -> (r: Option<Vec<MpscQueue>>)
    requires
        size >= 1,
    ensures
        r is None ==> n > 0 && size > usize::MAX / 2 + 1,
        r matches Some(v) ==> v@.len() == n && forall|g: int|
            0 <= g < n ==> (#[trigger] v@[g]).wf() && v@[g].view() == Seq::<MBuf>::empty() && v@[g].n_producers == 1
                && v@[g].slots >= size,
{
    let mut v: Vec<MpscQueue> = Vec::with_capacity(n);
    let mut i: usize = 0;
    while i < n
        invariant
            size >= 1,
            i <= n,
            v@.len() == i,
            forall|g: int|
                0 <= g < i ==> (#[trigger] v@[g]).wf() && v@[g].view() == Seq::<MBuf>::empty() && v@[g].n_producers == 1
                    && v@[g].slots >= size,
        decreases n - i,
    {
        match MpscQueue::new(size) {
            Some(mut q) => {
                q.reference_producers();
                v.push(q);
            },
            None => {
                return None;
            },
        }
        i += 1;
    }
    Some(v)
}

/// `f` put a parsed packet over `m` into group `g`.
pub open spec fn classified_by<F: Fn(&Pdu) -> usize>(f: F, m: MBuf, g: usize) -> bool {
    exists|p: Pdu| p.mbuf == m && p.headers_spec() == parse_spec(m.data()) && #[trigger] f.ensures((&p,), g)
}

impl<V: Act, F: Fn(&Pdu) -> usize> crate::scheduler::Executable for GroupBy<V, F> {
    open spec fn exec_inv(&self) -> bool {
        self.wf()
    }

    /// One pass of `run`.
    open spec fn ran(&self, after: Self, r: (u32, i32)) -> bool {
        &&& after.parent.packets() == Seq::<MBuf>::empty()
        &&& exists|mid: V, pr: (u32, i32), groups: Seq<usize>|
            #[trigger] self.parent.acted(mid, pr) && r == (mid.packets().len() as u32, pr.1) && #[trigger] grouped(
                self.classifier,
                self.queues@,
                after.queues@,
                mid.packets(),
                groups,
            )
    }

    /// Runs one pass (see `run`).
    fn execute(&mut self) -> (r: (u32, i32)) {
        self.run()
    }
}

/// `f` classified each packet of `received` into `groups`, and each queue
/// gained, behind what it held, a prefix of its group's packets in order.
pub open spec fn grouped<F: Fn(&Pdu) -> usize>(
    f: F,
    before: Seq<MpscQueue>,
    after: Seq<MpscQueue>,
    received: Seq<MBuf>,
    groups: Seq<usize>,
) -> bool {
    &&& groups.len() == received.len()
    &&& forall|i: int| 0 <= i < groups.len() ==> classified_by(f, #[trigger] received[i], groups[i])
    &&& forall|g: int| 0 <= g < before.len() ==> #[trigger] gained_some(before[g], after[g], select_group(received, groups, g))
}

/// Fan-out: each upstream batch is split by `classifier` over one queue per
/// group, in order within each group. Runs as a task of its own.
pub struct GroupBy<V: Act, F: Fn(&Pdu) -> usize> {
    pub parent: V,
    pub classifier: F,
    pub queues: Vec<MpscQueue>,
    /// Packets dropped because their group's queue was full.
    pub dropped: u64,
}

impl<V: Act, F: Fn(&Pdu) -> usize> GroupBy<V, F> {
    /// The upstream is consistent, every queue is, and the classifier takes
    /// any packet and names one of the groups.
    pub open spec fn wf(&self) -> bool {
        &&& self.parent.inv()
        &&& forall|g: int| 0 <= g < self.queues@.len() ==> (#[trigger] self.queues@[g]).wf() && self.queues@[g].n_producers >= 1
        &&& forall|p: &Pdu| #[trigger] self.classifier.requires((p,))
        &&& forall|p: &Pdu, g: usize| #[trigger] self.classifier.ensures((p,), g) ==> g < self.queues@.len()
    }

    /// A fan-out over `groups` empty queues of (at least) `size` slots,
    /// each with this stage as its producer.
    pub fn new(parent: V, groups: usize, classifier: F, size: usize) -> (r: Option<GroupBy<V, F>>)
        requires
            size >= 1,
        ensures
            r matches Some(gb) ==> gb.parent == parent && gb.classifier == classifier && gb.queues@.len() == groups
                && gb.dropped == 0 && forall|g: int| 0 <= g < groups ==> (#[trigger] gb.queues@[g]).view() == Seq::<MBuf>::empty(),
            r is None ==> groups > 0 && size > usize::MAX / 2 + 1,
    {
        match new_group_queues(groups, size) {
            Some(queues) => Some(GroupBy { parent, classifier, queues, dropped: 0 }),
            None => None,
        }
    }

    /// The queue of group `g`.
    pub fn get_group(&self, g: usize) -> (r: &MpscQueue)
        requires
            g < self.queues@.len(),
        ensures
            *r == self.queues@[g as int],
    {
        &self.queues[g]
    }

    /// One pass: the upstream acts, each packet of its batch is classified
    /// and moved to its group's queue (dropped when that queue is full), and
    /// the upstream's batch ends up empty. Returns the packets handled and
    /// the source's depth.
    pub fn run(&mut self) -> (r: (u32, i32))
        requires
            old(self).wf(),
        ensures
            final(self).wf(),
            final(self).queues@.len() == old(self).queues@.len(),
            final(self).parent.packets() == Seq::<MBuf>::empty(),
            exists|mid: V, pr: (u32, i32), groups: Seq<usize>|
                #[trigger] old(self).parent.acted(mid, pr) && r == (mid.packets().len() as u32, pr.1) && #[trigger] grouped(
                    old(self).classifier,
                    old(self).queues@,
                    final(self).queues@,
                    mid.packets(),
                    groups,
                ),
    {
        let q = self.parent.act();
        let ghost mid = self.parent;
        let n = self.parent.count();
        let mut groups: Vec<usize> = Vec::with_capacity(n);
        let mut taken: Vec<MBuf> = Vec::with_capacity(n);
        let mut i: usize = 0;
        while i < n
            invariant
                self.wf(),
                self.classifier == old(self).classifier,
                self.queues == old(self).queues,
                i <= n,
                n == mid.packets().len(),
                self.parent.packets().len() == n,
                forall|k: int| i <= k < n ==> self.parent.packets()[k] == mid.packets()[k],
                groups@.len() == i,
                taken@ == mid.packets().take(i as int),
                forall|k: int| 0 <= k < i ==> classified_by(self.classifier, #[trigger] mid.packets()[k], groups@[k]),
                forall|k: int| 0 <= k < i ==> #[trigger] groups@[k] < self.queues@.len(),
                forall|k: int| 0 <= k < i ==> (#[trigger] taken@[k]).wf(),
            decreases n - i,
        {
            let p = self.parent.take_pdu(i);
            let g = (self.classifier)(&p);
            assert(classified_by(self.classifier, mid.packets()[i as int], g));
            groups.push(g);
            taken.push(p.get_mbuf());
            assert(taken@ =~= mid.packets().take(i + 1));
            i += 1;
        }
        let all = all_positions(n);
        let d = self.parent.drop_packets(all.as_slice());
        assert(d is Some);
        assert(self.parent.packets() =~= Seq::<MBuf>::empty());
        assert(mid.packets().take(n as int) =~= mid.packets());
        let mut batch = PacketBatch { array: taken, capacity: n, b_keep_mbuf: false };
        let lost = group_by_distribute(&mut batch, groups.as_slice(), &mut self.queues);
        self.dropped = self.dropped.wrapping_add(lost as u64);
        let cnt: u32 = #[verifier::truncate] (n as u32);
        assert(cnt == mid.packets().len() as u32);
        assert(old(self).parent.acted(mid, q));
        assert(grouped(old(self).classifier, old(self).queues@, self.queues@, mid.packets(), groups@));
        (cnt, q.1)
    }
}

/// Queue `g` gained, behind what it held, the first `n` packets of its
/// group, and it is full if it did not gain them all.
pub open spec fn gained_prefix(before: MpscQueue, after: MpscQueue, sel: Seq<MBuf>, n: int) -> bool {
    &&& 0 <= n <= sel.len()
    &&& after.view() == before.view() + sel.take(n)
    &&& n < sel.len() ==> after.free_spec() == 0
}

/// Queue `after` gained some prefix of `sel` (see `gained_prefix`).
pub open spec fn gained_some(before: MpscQueue, after: MpscQueue, sel: Seq<MBuf>) -> bool {
    exists|n: int| gained_prefix(before, after, sel, n)
}

/// Moves every packet of `batch` to the queue of its group (`groups[i]` for
/// the packet at `i`), in order. A packet whose queue is full is dropped;
/// returns how many were dropped.
pub fn group_by_distribute(batch: &mut PacketBatch, groups: &[usize], queues: &mut Vec<MpscQueue>) -> (r: usize)
    requires
        old(batch).wf(),
        groups@.len() == old(batch).array@.len(),
        forall|i: int| 0 <= i < groups@.len() ==> #[trigger] groups@[i] < old(queues)@.len(),
        forall|g: int| 0 <= g < old(queues)@.len() ==> (#[trigger] old(queues)@[g]).wf() && old(queues)@[g].n_producers >= 1,
    ensures
        final(batch).wf(),
        final(batch).array@ == Seq::<MBuf>::empty(),
        final(batch).capacity == old(batch).capacity,
        final(queues)@.len() == old(queues)@.len(),
        forall|g: int| 0 <= g < final(queues)@.len() ==> (#[trigger] final(queues)@[g]).wf() && final(queues)@[g].n_producers
            == old(queues)@[g].n_producers,
        forall|g: int|
            0 <= g < final(queues)@.len() ==> #[trigger] gained_some(
                old(queues)@[g],
                final(queues)@[g],
                select_group(old(batch).array@, groups@, g),
            ),
        r <= old(batch).array@.len(),
        (forall|g: int|
            0 <= g < old(queues)@.len() ==> (#[trigger] old(queues)@[g]).free_spec() >= select_group(old(batch).array@, groups@, g).len())
            ==> r == 0,
        (forall|g: int|
            0 <= g < old(queues)@.len() ==> (#[trigger] old(queues)@[g]).free_spec() >= select_group(old(batch).array@, groups@, g).len())
            ==> forall|g: int|
            0 <= g < final(queues)@.len() ==> (#[trigger] final(queues)@[g]).view() == old(queues)@[g].view() + select_group(
                old(batch).array@,
                groups@,
                g,
            ),
{
    let mut pkts = batch.clear_packets();
    let ghost s = pkts@;
    assert(s == old(batch).array@);
    let nq = queues.len();
    let n = pkts.len();
    assert forall|k: int| 0 <= k < n implies (#[trigger] s[k]).wf() by {
        assert(s[k] == old(batch).array@[k]);
    }
    let mut dropped: usize = 0;
    let mut i: usize = 0;
    let ghost mut acc: Seq<int> = Seq::new(nq as nat, |g: int| 0int);
    proof {
        assert forall|g: int| 0 <= g < nq implies gained_prefix(old(queues)@[g], #[trigger] queues@[g], select_group(s.take(0), groups@, g), acc[g]) by {
            assert(s.take(0).len() == 0);
            assert(select_group(s.take(0), groups@, g) =~= Seq::<MBuf>::empty());
            assert(queues@[g].view() + Seq::<MBuf>::empty().take(0) =~= queues@[g].view());
        }
    }
    while i < n
        invariant
            n == s.len(),
            nq == queues@.len(),
            nq == old(queues)@.len(),
            groups@.len() == n,
            i <= n,
            dropped <= i,
            (forall|g: int| 0 <= g < nq ==> (#[trigger] old(queues)@[g]).free_spec() >= select_group(s, groups@, g).len())
                ==> dropped == 0,
            pkts@ == s.skip(i as int),
            forall|k: int| 0 <= k < n ==> (#[trigger] s[k]).wf(),
            acc.len() == nq,
            forall|k: int| 0 <= k < groups@.len() ==> #[trigger] groups@[k] < nq,
            forall|g: int| 0 <= g < nq ==> (#[trigger] queues@[g]).wf() && queues@[g].n_producers == old(queues)@[g].n_producers
                && queues@[g].slots == old(queues)@[g].slots,
            forall|g: int| 0 <= g < nq ==> old(queues)@[g].n_producers >= 1 && old(queues)@[g].wf(),
            forall|g: int| 0 <= g < nq ==> gained_prefix(old(queues)@[g], #[trigger] queues@[g], select_group(s.take(i as int), groups@, g), acc[g]),
            forall|g: int| 0 <= g < nq && old(queues)@[g].free_spec() >= select_group(s, groups@, g).len() ==> acc[g] == select_group(s.take(i as int), groups@, g).len(),
        decreases n - i,
    {
        let m = pkts.remove(0);
        let g = groups[i];
        let ghost before = queues@;
        let ghost sel_g_prev = select_group(s.take(i as int), groups@, g as int);
        proof {
            assert(s.take(i + 1).drop_last() =~= s.take(i as int));
            assert(s.take(i + 1).last() == s[i as int]);
            assert(m == s[i as int]) by {
                assert(s.skip(i as int)[0] == s[i as int]);
            }
            assert(pkts@ =~= s.skip(i + 1));
        }
        assert(m.wf());
        let res = queues[g].enqueue_one(m);
        let ghost sel_new = select_group(s.take(i + 1), groups@, g as int);
        proof {
            assert(sel_new == sel_g_prev.push(s[i as int]));
            lemma_select_group_prefix(s, groups@, g as int, i + 1);
        }
        match res {
            Ok(()) => {
                proof {
                    assert(before[g as int].free_spec() > 0);
                    assert(acc[g as int] == sel_g_prev.len());
                    assert(sel_new.take(acc[g as int] + 1) =~= sel_g_prev.take(acc[g as int]).push(s[i as int]));
                    assert(queues@[g as int].view() =~= old(queues)@[g as int].view() + sel_new.take(acc[g as int] + 1));
                    acc = acc.update(g as int, acc[g as int] + 1);
                    assert(gained_prefix(old(queues)@[g as int], queues@[g as int], sel_new, acc[g as int]));
                }
            },
            Err(_) => {
                dropped = dropped + 1;
                proof {
                    assert(before[g as int].free_spec() == 0);
                    assert(sel_new.take(acc[g as int]) =~= sel_g_prev.take(acc[g as int]));
                    assert(queues@[g as int].view() == before[g as int].view());
                    assert(queues@[g as int].view().len() == before[g as int].view().len());
                    assert(queues@[g as int].count == before[g as int].count);
                    assert(queues@[g as int].mask == before[g as int].mask);
                    assert(queues@[g as int].free_spec() == 0);
                    assert(gained_prefix(old(queues)@[g as int], queues@[g as int], sel_new, acc[g as int]));
                    if old(queues)@[g as int].free_spec() >= select_group(s, groups@, g as int).len()
                        || (forall|h: int| 0 <= h < nq ==> (#[trigger] old(queues)@[h]).free_spec() >= select_group(s, groups@, h).len()) {
                        assert(old(queues)@[g as int].free_spec() >= select_group(s, groups@, g as int).len());
                        assert(acc[g as int] == sel_g_prev.len());
                        assert(before[g as int].view().len() == old(queues)@[g as int].view().len() + sel_g_prev.len());
                        assert(false);
                    }
                }
            },
        }
        proof {
            assert forall|h: int| 0 <= h < nq && h != g implies select_group(s.take(i + 1), groups@, h) == select_group(s.take(i as int), groups@, h) by {
            }
            assert forall|h: int| 0 <= h < nq && h != g implies queues@[h] == before[h] by {
            }
            assert forall|h: int| 0 <= h < nq implies gained_prefix(old(queues)@[h], #[trigger] queues@[h], select_group(s.take(i + 1), groups@, h), acc[h]) by {
                if h != g {
                    assert(queues@[h] == before[h]);
                }
            }
        }
        i += 1;
    }
    proof {
        assert(s.take(n as int) =~= s);
        assert forall|g: int| 0 <= g < nq implies #[trigger] gained_some(old(queues)@[g], queues@[g], select_group(s, groups@, g)) by {
            assert(gained_prefix(old(queues)@[g], queues@[g], select_group(s, groups@, g), acc[g]));
        }
        if forall|g: int| 0 <= g < nq ==> (#[trigger] old(queues)@[g]).free_spec() >= select_group(s, groups@, g).len() {
            assert forall|g: int| 0 <= g < nq implies (#[trigger] queues@[g]).view() == old(queues)@[g].view() + select_group(s, groups@, g) by {
                assert(select_group(s, groups@, g).take(acc[g]) =~= select_group(s, groups@, g));
            }
        }
    }
    dropped
}

/// `after` is what `f` made of a parsed packet over `before`.
pub open spec fn transformed_by<F: Fn(Pdu) -> Pdu>(f: F, before: MBuf, after: MBuf) -> bool {
    exists|p: Pdu, q: Pdu|
        p.mbuf == before && p.headers_spec() == parse_spec(before.data()) && #[trigger] f.ensures((p,), q) && after
            == q.mbuf
}

/// `f` answered `keep` for a parsed packet over `m`.
pub open spec fn judged_by<F: Fn(&Pdu) -> bool>(f: F, m: MBuf, keep: bool) -> bool {
    exists|p: Pdu| p.mbuf == m && p.headers_spec() == parse_spec(m.data()) && #[trigger] f.ensures((&p,), keep)
}

/// `after` is `received` with each packet replaced by what `f` made of it.
pub open spec fn all_transformed<F: Fn(Pdu) -> Pdu>(f: F, received: Seq<MBuf>, after: Seq<MBuf>) -> bool {
    &&& after.len() == received.len()
    &&& forall|i: int| 0 <= i < received.len() ==> transformed_by(f, #[trigger] received[i], after[i])
}

/// `f` judged each packet of `received` as `keep` says, and `after` holds
/// the packets it accepted, in order.
pub open spec fn filtered_by<F: Fn(&Pdu) -> bool>(f: F, received: Seq<MBuf>, keep: Seq<bool>, after: Seq<MBuf>) -> bool {
    &&& keep.len() == received.len()
    &&& forall|i: int| 0 <= i < received.len() ==> judged_by(f, #[trigger] received[i], keep[i])
    &&& after == without(received, rejected(keep))
}

/// The tail of a pipeline: each run drives the upstream, hands its batch to
/// the transmit queue, and ends the batch.
pub struct SendBatch<V: Act, T: PacketTx> {
    pub parent: V,
    pub port: T,
    pub sent: u64,
    /// The batch offered to the port in the last pass.
    pub offered: Ghost<Seq<MBuf>>,
    /// How many of those the port took.
    pub taken: Ghost<nat>,
}

impl<V: Act, T: PacketTx> SendBatch<V, T> {
    pub fn new(parent: V, port: T) -> (r: SendBatch<V, T>)
        ensures
            r.parent == parent,
            r.port == port,
            r.sent == 0,
    {
        SendBatch { parent, port, sent: 0, offered: Ghost(Seq::empty()), taken: Ghost(0) }
    }

    /// One pass: the upstream acts, its whole batch (`offered`) is handed
    /// to the port, which takes a prefix of it (`taken` packets), and the
    /// batch ends. Returns what the upstream reported.
    pub fn run(&mut self) -> (r: (u32, i32))
        requires
            old(self).parent.inv(),
        ensures
            final(self).parent.inv(),
            exists|mid: V| #[trigger] old(self).parent.acted(mid, r) && final(self).offered@ == mid.packets(),
            final(self).taken@ <= final(self).offered@.len(),
            final(self).port.sent_log() == old(self).port.sent_log() + final(self).offered@.take(final(self).taken@ as int),
            final(self).sent == wrapping_add_u64(old(self).sent, final(self).taken@ as u64),
    {
        let r = self.parent.act();
        let ghost mid = self.parent;
        self.offered = Ghost(self.parent.packets());
        assert(old(self).parent.acted(mid, r));
        let n = self.parent.send_q(&mut self.port);
        self.taken = Ghost(n as nat);
        let ghost before = self.sent;
        self.sent = self.sent.wrapping_add(n as u64);
        assert(wrapping_add_u64(before, n as u64) == self.sent);
        self.parent.done();
        r
    }
}

impl<V: Act, T: PacketTx> crate::scheduler::Executable for SendBatch<V, T> {
    open spec fn exec_inv(&self) -> bool {
        self.parent.inv()
    }

    /// One pass of `run`: the upstream acted, its batch was offered to the
    /// port, and what the port took was counted.
    open spec fn ran(&self, after: Self, r: (u32, i32)) -> bool {
        &&& exists|mid: V| #[trigger] self.parent.acted(mid, r) && after.offered@ == mid.packets()
        &&& after.taken@ <= after.offered@.len()
        &&& after.port.sent_log() == self.port.sent_log() + after.offered@.take(after.taken@ as int)
        &&& after.sent == wrapping_add_u64(self.sent, after.taken@ as u64)
    }

    /// Runs one pass (see `run`).
    fn execute(&mut self) -> (r: (u32, i32)) {
        self.run()
    }
}

/// A stage that rewrites every packet of each upstream batch with
/// `transformer`, once per batch: acting again before `done` does nothing.
pub struct TransformBatch<V: Act, F: Fn(Pdu) -> Pdu> {
    pub parent: V,
    pub transformer: F,
    pub applied: bool,
}

impl<V: Act, F: Fn(Pdu) -> Pdu> TransformBatch<V, F> {
    pub fn new(parent: V, transformer: F) -> (r: TransformBatch<V, F>)
        ensures
            r.parent == parent,
            r.transformer == transformer,
            !r.applied,
    {
        TransformBatch { parent, transformer, applied: false }
    }
}

impl<V: Act, F: Fn(Pdu) -> Pdu> Act for TransformBatch<V, F> {
    /// The upstream is consistent and the transformer takes any packet and
    /// hands back a well-formed buffer.
    open spec fn inv(&self) -> bool {
        &&& self.parent.inv()
        &&& forall|p: Pdu| #[trigger] self.transformer.requires((p,))
        &&& forall|p: Pdu, q: Pdu| #[trigger] self.transformer.ensures((p,), q) ==> q.mbuf.wf()
    }

    open spec fn packets(&self) -> Seq<MBuf> {
        self.parent.packets()
    }

    /// Once per batch: the upstream acted (reaching `mid`, reporting `pr`)
    /// and each packet of its batch was replaced by the transformer's output.
    open spec fn acted(&self, after: Self, r: (u32, i32)) -> bool {
        &&& after.applied
        &&& after.transformer == self.transformer
        &&& self.applied ==> r == (0u32, 0i32) && after.packets() == self.packets()
        &&& !self.applied ==> exists|mid: V, pr: (u32, i32)|
            #[trigger] self.parent.acted(mid, pr) && r == (mid.packets().len() as u32, pr.1) && all_transformed(
                self.transformer,
                mid.packets(),
                after.packets(),
            )
    }

    /// Lets the upstream act and replaces each packet of its batch by what
    /// the transformer makes of it, unless this batch was already handled.
    fn act(&mut self) -> (r: (u32, i32)) {
        if self.applied {
            return (0, 0);
        }
        let q = self.parent.act();
        let ghost mid = self.parent;
        let n = self.parent.count();
        let ghost received = self.parent.packets();
        let mut i: usize = 0;
        while i < n
            invariant
                self.inv(),
                !self.applied,
                self.transformer == old(self).transformer,
                i <= n,
                n == received.len(),
                self.parent.packets().len() == n,
                forall|k: int| i <= k < n ==> self.parent.packets()[k] == received[k],
                forall|k: int|
                    0 <= k < i ==> transformed_by(self.transformer, #[trigger] received[k], self.parent.packets()[k]),
            decreases n - i,
        {
            let p = self.parent.take_pdu(i);
            let ghost pg = p;
            let p2 = (self.transformer)(p);
            self.parent.put_pdu(i, p2);
            assert(transformed_by(self.transformer, received[i as int], self.parent.packets()[i as int]));
            i += 1;
        }
        self.applied = true;
        let cnt: u32 = #[verifier::truncate] (n as u32);
        assert(cnt == received.len() as u32);
        assert(all_transformed(old(self).transformer, received, self.packets()));
        assert(old(self).parent.acted(mid, q));
        (cnt, q.1)
    }

    /// Ends the batch upstream and opens the latch for the next one.
    fn done(&mut self)
        ensures
            !final(self).applied,
    {
        self.applied = false;
        self.parent.done();
    }

    fn count(&self) -> (r: usize) {
        self.parent.count()
    }

    fn take_pdu(&mut self, i: usize) -> (r: Pdu) {
        self.parent.take_pdu(i)
    }

    fn put_pdu(&mut self, i: usize, p: Pdu) {
        self.parent.put_pdu(i, p)
    }

    fn drop_packets(&mut self, idxes: &[usize]) -> (r: Option<usize>) {
        self.parent.drop_packets(idxes)
    }

    fn send_q<Tx: PacketTx>(&mut self, port: &mut Tx) -> (r: u32) {
        self.parent.send_q(port)
    }
}

/// A stage that shows every packet of each upstream batch to `transformer`
/// without changing it, once per batch.
pub struct MapBatch<V: Act, F: Fn(&Pdu)> {
    pub parent: V,
    pub transformer: F,
    pub applied: bool,
}

impl<V: Act, F: Fn(&Pdu)> MapBatch<V, F> {
    pub fn new(parent: V, transformer: F) -> (r: MapBatch<V, F>)
        ensures
            r.parent == parent,
            r.transformer == transformer,
            !r.applied,
    {
        MapBatch { parent, transformer, applied: false }
    }
}

impl<V: Act, F: Fn(&Pdu)> Act for MapBatch<V, F> {
    open spec fn inv(&self) -> bool {
        &&& self.parent.inv()
        &&& forall|p: &Pdu| #[trigger] self.transformer.requires((p,))
    }

    open spec fn packets(&self) -> Seq<MBuf> {
        self.parent.packets()
    }

    /// Once per batch: the upstream acted (reaching `mid`, reporting `pr`)
    /// and its batch stays as it came.
    open spec fn acted(&self, after: Self, r: (u32, i32)) -> bool {
        &&& after.applied
        &&& after.transformer == self.transformer
        &&& self.applied ==> r == (0u32, 0i32) && after.packets() == self.packets()
        &&& !self.applied ==> exists|mid: V, pr: (u32, i32)|
            #[trigger] self.parent.acted(mid, pr) && r == (mid.packets().len() as u32, pr.1) && after.packets()
                == mid.packets()
    }

    /// Lets the upstream act and shows each packet to the function, unless
    /// this batch was already handled; the packets stay as they came.
    fn act(&mut self) -> (r: (u32, i32)) {
        if self.applied {
            return (0, 0);
        }
        let q = self.parent.act();
        let ghost mid = self.parent;
        let n = self.parent.count();
        let ghost received = self.parent.packets();
        let mut i: usize = 0;
        while i < n
            invariant
                self.inv(),
                !self.applied,
                self.transformer == old(self).transformer,
                i <= n,
                self.parent.packets() == received,
                n == received.len(),
            decreases n - i,
        {
            let p = self.parent.take_pdu(i);
            (self.transformer)(&p);
            self.parent.put_pdu(i, p);
            assert(self.parent.packets() =~= received);
            i += 1;
        }
        self.applied = true;
        let cnt: u32 = #[verifier::truncate] (n as u32);
        assert(cnt == mid.packets().len() as u32);
        assert(old(self).parent.acted(mid, q));
        assert(self.packets() == mid.packets());
        (cnt, q.1)
    }

    fn done(&mut self)
        ensures
            !final(self).applied,
    {
        self.applied = false;
        self.parent.done();
    }

    fn count(&self) -> (r: usize) {
        self.parent.count()
    }

    fn take_pdu(&mut self, i: usize) -> (r: Pdu) {
        self.parent.take_pdu(i)
    }

    fn put_pdu(&mut self, i: usize, p: Pdu) {
        self.parent.put_pdu(i, p)
    }

    fn drop_packets(&mut self, idxes: &[usize]) -> (r: Option<usize>) {
        self.parent.drop_packets(idxes)
    }

    fn send_q<Tx: PacketTx>(&mut self, port: &mut Tx) -> (r: u32) {
        self.parent.send_q(port)
    }
}

/// The positions `0 .. n`.
fn all_positions(n: usize) -> (r: Vec<usize>)
    ensures
        r@.len() == n,
        forall|k: int| 0 <= k < n ==> #[trigger] r@[k] == k,
{
    let mut v: Vec<usize> = Vec::with_capacity(n);
    let mut i: usize = 0;
    while i < n
        invariant
            i <= n,
            v@.len() == i,
            forall|k: int| 0 <= k < i ==> #[trigger] v@[k] == k,
        decreases n - i,
    {
        v.push(i);
        i += 1;
    }
    v
}

/// A stage that drops every packet of each upstream batch.
pub struct DropBatch<V: Act> {
    pub parent: V,
}

impl<V: Act> DropBatch<V> {
    pub fn new(parent: V) -> (r: DropBatch<V>)
        ensures
            r.parent == parent,
    {
        DropBatch { parent }
    }
}

impl<V: Act> Act for DropBatch<V> {
    open spec fn inv(&self) -> bool {
        self.parent.inv()
    }

    open spec fn packets(&self) -> Seq<MBuf> {
        self.parent.packets()
    }

    /// The upstream acted, reporting `r`, and its whole batch was dropped.
    open spec fn acted(&self, after: Self, r: (u32, i32)) -> bool {
        &&& exists|mid: V| #[trigger] self.parent.acted(mid, r)
        &&& after.packets() == Seq::<MBuf>::empty()
    }

    /// Lets the upstream act and drops its whole batch; returns what the
    /// upstream reported.
    fn act(&mut self) -> (r: (u32, i32)) {
        let r = self.parent.act();
        let ghost mid = self.parent;
        assert(old(self).parent.acted(mid, r));
        let n = self.parent.count();
        let all = all_positions(n);
        let d = self.parent.drop_packets(all.as_slice());
        assert(d is Some);
        assert(self.parent.packets() =~= Seq::<MBuf>::empty());
        r
    }

    fn done(&mut self) {
        self.parent.done();
    }

    fn count(&self) -> (r: usize) {
        self.parent.count()
    }

    fn take_pdu(&mut self, i: usize) -> (r: Pdu) {
        self.parent.take_pdu(i)
    }

    fn put_pdu(&mut self, i: usize, p: Pdu) {
        self.parent.put_pdu(i, p)
    }

    fn drop_packets(&mut self, idxes: &[usize]) -> (r: Option<usize>) {
        self.parent.drop_packets(idxes)
    }

    fn send_q<Tx: PacketTx>(&mut self, port: &mut Tx) -> (r: u32) {
        self.parent.send_q(port)
    }
}

/// A stage that drops, from each upstream batch, the packets for which
/// `filter` is false, keeping the others in order.
pub struct FilterBatch<V: Act, F: Fn(&Pdu) -> bool> {
    pub parent: V,
    pub filter: F,
}

impl<V: Act, F: Fn(&Pdu) -> bool> FilterBatch<V, F> {
    pub fn new(parent: V, filter: F) -> (r: FilterBatch<V, F>)
        ensures
            r.parent == parent,
            r.filter == filter,
    {
        FilterBatch { parent, filter }
    }
}

impl<V: Act, F: Fn(&Pdu) -> bool> Act for FilterBatch<V, F> {
    open spec fn inv(&self) -> bool {
        &&& self.parent.inv()
        &&& forall|p: &Pdu| #[trigger] self.filter.requires((p,))
    }

    open spec fn packets(&self) -> Seq<MBuf> {
        self.parent.packets()
    }

    /// The upstream acted (reaching `mid`, reporting `pr`), and of its batch
    /// exactly the packets the filter accepted remain, in order.
    open spec fn acted(&self, after: Self, r: (u32, i32)) -> bool {
        &&& after.filter == self.filter
        &&& exists|mid: V, pr: (u32, i32), keep: Seq<bool>|
            #[trigger] self.parent.acted(mid, pr) && r == (mid.packets().len() as u32, pr.1) && #[trigger] filtered_by(
                self.filter,
                mid.packets(),
                keep,
                after.packets(),
            )
    }

    /// Lets the upstream act, then keeps exactly the packets the filter
    /// accepts, in order; returns the packets examined and the source's depth.
    fn act(&mut self) -> (r: (u32, i32)) {
        let q = self.parent.act();
        let ghost mid = self.parent;
        let n = self.parent.count();
        let ghost received = self.parent.packets();
        let mut keep: Vec<bool> = Vec::with_capacity(n);
        let mut remove: Vec<usize> = Vec::new();
        let mut i: usize = 0;
        while i < n
            invariant
                self.inv(),
                self.filter == old(self).filter,
                i <= n,
                n == received.len(),
                self.parent.packets() == received,
                keep@.len() == i,
                remove@ == rejected(keep@),
                forall|k: int| 0 <= k < i ==> judged_by(self.filter, #[trigger] received[k], keep@[k]),
            decreases n - i,
        {
            let p = self.parent.take_pdu(i);
            let k = (self.filter)(&p);
            assert(judged_by(self.filter, received[i as int], k));
            let ghost kp = keep@;
            keep.push(k);
            proof {
                assert(keep@.drop_last() =~= kp);
            }
            if !k {
                remove.push(i);
            }
            self.parent.put_pdu(i, p);
            assert(self.parent.packets() =~= received);
            i += 1;
        }
        proof {
            crate::packet_batch::lemma_rejected_ascending(keep@);
        }
        let d = self.parent.drop_packets(remove.as_slice());
        assert(d is Some);
        let cnt: u32 = #[verifier::truncate] (n as u32);
        assert(cnt == received.len() as u32);
        assert(filtered_by(old(self).filter, received, keep@, self.packets()));
        assert(old(self).parent.acted(mid, q));
        (cnt, q.1)
    }

    fn done(&mut self) {
        self.parent.done();
    }

    fn count(&self) -> (r: usize) {
        self.parent.count()
    }

    fn take_pdu(&mut self, i: usize) -> (r: Pdu) {
        self.parent.take_pdu(i)
    }

    fn put_pdu(&mut self, i: usize, p: Pdu) {
        self.parent.put_pdu(i, p)
    }

    fn drop_packets(&mut self, idxes: &[usize]) -> (r: Option<usize>) {
        self.parent.drop_packets(idxes)
    }

    fn send_q<Tx: PacketTx>(&mut self, port: &mut Tx) -> (r: u32) {
        self.parent.send_q(port)
    }
}

/// How a merge picks the upstream batch to drive.
#[derive(Clone, Copy, Debug, PartialEq, Eq, Structural)]
pub enum SchedulingPolicy {
    RoundRobin,
    LongestQueue,
}

/// The depth of the upstream `j` places after `w` in rotation.
pub open spec fn rr_at(state: Seq<usize>, w: int, j: int) -> usize {
    state[(w + j) % (state.len() as int)]
}

/// The next upstream in rotation after `w` that has work, `k` places on.
pub open spec fn rr_first(state: Seq<usize>, w: int, k: int) -> bool {
    &&& 1 <= k <= state.len()
    &&& rr_at(state, w, k) > 0
    &&& forall|j: int| 1 <= j < k ==> #[trigger] rr_at(state, w, j) == 0
}

/// Round robin moved from `w` to `nw`: the next upstream in rotation with
/// work, or (none having any) back to `w`.
pub open spec fn rr_choice(state: Seq<usize>, w: int, nw: int) -> bool {
    ||| exists|k: int| #[trigger] rr_first(state, w, k) && nw == (w + k) % (state.len() as int)
    ||| nw == w && forall|j: int| 1 <= j <= state.len() ==> #[trigger] rr_at(state, w, j) == 0
}

/// Fan-in of several upstream batches; each `act` drives one of them.
pub struct MergeBatchAuto<T: Batch> {
    pub parents: Vec<T>,
    pub state: Vec<usize>,
    pub which: usize,
    pub queue_max: usize,
    pub queue_size: usize,
    pub policy: SchedulingPolicy,
}

impl<T: Batch> MergeBatchAuto<T> {
    pub open spec fn wf(&self) -> bool {
        &&& self.state@.len() == self.parents@.len()
        &&& forall|k: int| 0 <= k < self.parents@.len() ==> (#[trigger] self.parents@[k]).inv()
        &&& self.parents@.len() > 0 ==> self.which < self.parents@.len()
        &&& self.parents@.len() > 0 ==> self.queue_max < self.parents@.len()
    }

    /// The depth of the upstream chosen last.
    pub open spec fn chosen_depth(&self) -> usize {
        if self.policy == SchedulingPolicy::LongestQueue {
            self.queue_size
        } else {
            self.state@[self.which as int]
        }
    }

    pub fn new(parents: Vec<T>, policy: SchedulingPolicy) -> (r: MergeBatchAuto<T>)
        requires
            forall|k: int| 0 <= k < parents@.len() ==> (#[trigger] parents@[k]).inv(),
        ensures
            r.wf(),
            r.parents@ == parents@,
            r.which == 0,
            r.policy == policy,
            r.queue_size == 0,
    {
        let len = parents.len();
        let mut state: Vec<usize> = Vec::with_capacity(len);
        let mut i: usize = 0;
        while i < len
            invariant
                i <= len,
                state@.len() == i,
            decreases len - i,
        {
            state.push(1);
            i += 1;
        }
        MergeBatchAuto { parents, state, which: 0, queue_size: 0, queue_max: 0, policy }
    }

    /// Records each upstream's queue depth and the first deepest one.
    pub fn update_state(&mut self)
        requires
            old(self).wf(),
        ensures
            final(self).wf(),
            final(self).parents == old(self).parents,
            final(self).which == old(self).which,
            final(self).policy == old(self).policy,
            final(self).parents@.len() > 0 ==> final(self).queue_size == final(self).state@[final(self).queue_max as int],
            forall|i: int| 0 <= i < final(self).state@.len() ==> final(self).state@[i] <= final(self).queue_size,
    {
        let len = self.parents.len();
        let mut max_q: usize = 0;
        let mut max_i: usize = 0;
        let mut i: usize = 0;
        while i < len
            invariant
                len == self.parents@.len(),
                self.state@.len() == len,
                self.parents == old(self).parents,
                self.which == old(self).which,
                self.policy == old(self).policy,
                old(self).wf(),
                i <= len,
                len > 0 ==> max_i < len,
                i > 0 ==> max_i < i,
                i > 0 ==> max_q == self.state@[max_i as int],
                i == 0 ==> max_q == 0 && max_i == 0,
                forall|k: int| 0 <= k < i ==> self.state@[k] <= max_q,
            decreases len - i,
        {
            let q = self.parents[i].queued();
            self.state.set(i, q);
            if q > max_q || i == 0 {
                max_q = q;
                max_i = i;
            }
            i += 1;
        }
        self.queue_max = max_i;
        self.queue_size = max_q;
        if len == 0 {
            self.queue_max = 0;
        }
    }

    /// Moves to the next upstream in rotation that has work; returns its
    /// depth, or 0 (having gone full circle) when none has.
    pub fn round_robin(&mut self) -> (r: usize)
        requires
            old(self).wf(),
        ensures
            final(self).wf(),
            final(self).parents == old(self).parents,
            final(self).state == old(self).state,
            final(self).queue_size == old(self).queue_size,
            final(self).queue_max == old(self).queue_max,
            final(self).policy == old(self).policy,
            old(self).parents@.len() == 0 ==> r == 0 && final(self).which == old(self).which,
            old(self).parents@.len() > 0 ==> ({
                ||| (r > 0 && exists|k: int|
                    rr_first(old(self).state@, old(self).which as int, k) && final(self).which == (
                    old(self).which + k) % (old(self).state@.len() as int) && r == old(self).state@[final(self).which as int])
                ||| (r == 0 && final(self).which == old(self).which && forall|j: int|
                    1 <= j <= old(self).state@.len() ==> #[trigger] rr_at(old(self).state@, old(self).which as int, j) == 0)
            }),
            (old(self).parents@.len() > 0 && forall|i: int| 0 <= i < old(self).state@.len() ==> old(self).state@[i] > 0)
                ==> final(self).which == (old(self).which + 1) % (old(self).state@.len() as int),
    {
        let len = self.state.len();
        let ghost w = self.which as int;
        let mut queue: usize = 0;
        let mut t: usize = 0;
        proof {
            if len > 0 {
                assert((w + 0) % (len as int) == w) by (nonlinear_arith)
                    requires 0 <= w < len;
            }
        }
        while t < len
            invariant
                len == self.state@.len(),
                old(self).wf(),
                self.parents == old(self).parents,
                self.state == old(self).state,
                self.queue_size == old(self).queue_size,
                self.queue_max == old(self).queue_max,
                self.policy == old(self).policy,
                w == old(self).which,
                t <= len,
                len > 0 ==> self.which == (w + t) % (len as int),
                len > 0 ==> self.which < len,
                len == 0 ==> self.which == w,
                queue == 0,
                forall|j: int| 1 <= j <= t ==> #[trigger] rr_at(self.state@, w, j) == 0,
            decreases len - t,
        {
            self.which = (self.which + 1) % len;
            proof {
                assert(self.which == (w + t + 1) % (len as int)) by {
                    assert(((w + t) % (len as int) + 1) % (len as int) == (w + t + 1) % (len as int)) by (nonlinear_arith)
                        requires len > 0, w >= 0, t >= 0;
                }
            }
            queue = self.state[self.which];
            t += 1;
            if queue > 0 {
                assert(rr_first(self.state@, w, t as int));
                proof {
                    if forall|i: int| 0 <= i < self.state@.len() ==> self.state@[i] > 0 {
                        if t > 1 {
                            assert(rr_at(self.state@, w, 1) == 0);
                            assert(0 <= (w + 1) % (len as int) < len) by (nonlinear_arith)
                                requires len > 0, w >= 0;
                        }
                    }
                }
                return queue;
            }
        }
        proof {
            if len > 0 {
                assert((w + len) % (len as int) == w) by (nonlinear_arith)
                    requires len > 0, 0 <= w < len;
                assert(rr_at(self.state@, w, 1) == 0);
                assert(0 <= (w + 1) % (len as int) < len) by (nonlinear_arith)
                    requires len > 0, w >= 0;
            }
        }
        0
    }

    /// Moves to the deepest upstream found by `update_state`; returns its depth.
    pub fn longest_queue(&mut self) -> (r: usize)
        ensures
            final(self).which == old(self).queue_max,
            r == old(self).queue_size,
            *final(self) == (MergeBatchAuto { which: old(self).queue_max, ..*old(self) }),
    {
        self.which = self.queue_max;
        self.queue_size
    }
}

impl<T: Batch> Act for MergeBatchAuto<T> {
    open spec fn inv(&self) -> bool {
        self.wf()
    }

    /// The batch of the upstream chosen last.
    open spec fn packets(&self) -> Seq<MBuf> {
        if self.parents@.len() > 0 {
            self.parents@[self.which as int].packets()
        } else {
            Seq::empty()
        }
    }

    /// See `merge_act`.
    fn act(&mut self) -> (r: (u32, i32)) {
        self.merge_act()
    }

    fn done(&mut self) {
        self.merge_done()
    }

    fn count(&self) -> (r: usize) {
        if self.parents.len() > 0 {
            self.parents[self.which].count()
        } else {
            0
        }
    }

    fn take_pdu(&mut self, i: usize) -> (r: Pdu) {
        let w = self.which;
        let r = self.parents[w].take_pdu(i);
        r
    }

    fn put_pdu(&mut self, i: usize, p: Pdu) {
        let w = self.which;
        self.parents[w].put_pdu(i, p)
    }

    fn drop_packets(&mut self, idxes: &[usize]) -> (r: Option<usize>) {
        if self.parents.len() > 0 {
            let w = self.which;
            self.parents[w].drop_packets(idxes)
        } else {
            if idxes.len() == 0 {
                assert(without(self.packets(), idxes@) =~= Seq::<MBuf>::empty());
                assert(ascending(idxes@));
                Some(0)
            } else {
                assert(!(idxes@[0] < self.packets().len()));
                None
            }
        }
    }

    fn send_q<Tx: PacketTx>(&mut self, port: &mut Tx) -> (r: u32) {
        if self.parents.len() > 0 {
            let w = self.which;
            self.parents[w].send_q(port)
        } else {
            assert(old(port).sent_log() + self.packets().take(0) =~= old(port).sent_log());
            assert(self.packets().skip(0) =~= self.packets());
            0
        }
    }
}

impl<T: Batch> Batch for MergeBatchAuto<T> {
    /// The deepest upstream's depth, as last refreshed.
    fn queued(&self) -> usize {
        self.queue_size
    }
}

/// Upstream `p` is among `ws[1..=k]`.
pub open spec fn visited(ws: Seq<int>, k: int, p: int) -> bool {
    exists|t: int| 1 <= t <= k && ws[t] == p
}

/// Visiting upstreams in plain rotation, as round robin does when every one
/// of `k` upstreams has work, reaches each exactly once in `k` steps.
pub proof fn lemma_rotation_visits_each_once(ws: Seq<int>, k: int)
    requires
        k > 0,
        ws.len() == k + 1,
        0 <= ws[0] < k,
        forall|t: int| 0 <= t < k ==> #[trigger] ws[t + 1] == (ws[t] + 1) % k,
    ensures
        forall|t: int| 1 <= t <= k ==> #[trigger] ws[t] == (ws[0] + t) % k,
        forall|i: int, j: int| 1 <= i < j <= k ==> #[trigger] ws[i] != #[trigger] ws[j],
        forall|p: int| 0 <= p < k ==> #[trigger] visited(ws, k, p),
{
    assert forall|t: int| 0 <= t <= k implies #[trigger] ws[t] == (ws[0] + t) % k by {
        lemma_rotation_step(ws, k, t);
    }
    assert forall|i: int, j: int| 1 <= i < j <= k implies #[trigger] ws[i] != #[trigger] ws[j] by {
        let a = ws[0];
        assert((a + i) % k != (a + j) % k) by (nonlinear_arith)
            requires
                0 <= a < k,
                1 <= i < j <= k,
        {
            if (a + i) % k == (a + j) % k {
                assert((a + j) - (a + i) == ((a + j) / k - (a + i) / k) * k);
            }
        }
    }
    assert forall|p: int| 0 <= p < k implies #[trigger] visited(ws, k, p) by {
        let a = ws[0];
        let t = if p > a {
            p - a
        } else {
            p - a + k
        };
        assert((a + t) % k == p) by (nonlinear_arith)
            requires
                0 <= a < k,
                0 <= p < k,
                t == if p > a {
                    p - a
                } else {
                    p - a + k
                },
        ;
        assert(ws[t] == p);
    }
}

proof fn lemma_rotation_step(ws: Seq<int>, k: int, t: int)
    requires
        k > 0,
        ws.len() == k + 1,
        0 <= ws[0] < k,
        forall|s: int| 0 <= s < k ==> #[trigger] ws[s + 1] == (ws[s] + 1) % k,
        0 <= t <= k,
    ensures
        ws[t] == (ws[0] + t) % k,
    decreases t,
{
    if t == 0 {
        assert(ws[0] % k == ws[0]) by (nonlinear_arith)
            requires 0 <= ws[0] < k;
    } else {
        lemma_rotation_step(ws, k, t - 1);
        let s = t - 1;
        assert(ws[s + 1] == (ws[s] + 1) % k);
        assert(s + 1 == t);
        let a = ws[0];
        assert(((a + t - 1) % k + 1) % k == (a + t) % k) by (nonlinear_arith)
            requires k > 0;
    }
}

} // verus!
