//! A bounded ring of packet buffers with many producer handles and one
//! consumer: what goes in comes out in the order it went in.
use vstd::prelude::*;
use crate::mbuf::MBuf;
use crate::port::flatten;

verus! {

/// Slots of a queue made without a size.
pub const DEFAULT_QUEUE_SIZE: usize = 1024;

/// Whether `n` is a power of two.
pub open spec fn is_pow2(n: int) -> bool
    decreases n,
{
    if n <= 0 {
        false
    } else if n == 1 {
        true
    } else {
        n % 2 == 0 && is_pow2(n / 2)
    }
}

/// Rounds `n` up to the smallest power of two at least as large, or `None`
/// when that does not fit.
pub fn round_to_power_of_2(n: usize) -> (r: Option<usize>)
    ensures
        r matches Some(v) ==> v >= n && is_pow2(v as int) && v >= 1 && (v == 1 || v / 2 < n) && (is_pow2(n as int)
            ==> v == n),
        r is None ==> n > usize::MAX / 2 + 1,
{
    let mut v: usize = 1;
    proof {
        reveal_with_fuel(is_pow2, 2);
    }
    while v < n
        invariant
            is_pow2(v as int),
            v >= 1,
            v == 1 || v / 2 < n,
            is_pow2(n as int) ==> v <= n,
        decreases usize::MAX - v,
    {
        if v > usize::MAX / 2 {
            return None;
        }
        proof {
            assert((2 * v) / 2 == v);
            assert((2 * v) % 2 == 0);
            if is_pow2(n as int) {
                lemma_pow2_double(v as int, n as int);
            }
        }
        v = v * 2;
    }
    Some(v)
}

/// A power of two below another is at most half of it.
pub proof fn lemma_pow2_double(v: int, n: int)
    requires
        is_pow2(v),
        is_pow2(n),
        v < n,
    ensures
        2 * v <= n,
    decreases n,
{
    if v == 1 {
        assert(n != 1);
        assert(n >= 2);
    } else {
        assert(n != 1);
        assert(v % 2 == 0 && is_pow2(v / 2));
        assert(n % 2 == 0 && is_pow2(n / 2));
        lemma_pow2_double(v / 2, n / 2);
    }
}

/// The slot `k` places after `pos` in a ring of `slots` (for `k < slots`).
pub open spec fn ring_slot(pos: int, slots: int, k: int) -> int {
    if pos + k < slots {
        pos + k
    } else {
        pos + k - slots
    }
}

/// The slots hold, from the consumer's position on, `count` packets in the
/// order they were enqueued; one slot always stays free.
pub struct MpscQueue {
    pub slots: usize,
    pub mask: usize,
    pub producer_pos: usize,
    pub consumer_pos: usize,
    pub count: usize,
    pub queue: Vec<Option<MBuf>>,
    pub n_producers: usize,
}

impl MpscQueue {
    /// The slot `k` places after the consumer's position (for `k < slots`).
    pub open spec fn slot(&self, k: int) -> int {
        ring_slot(self.consumer_pos as int, self.slots as int, k)
    }

    pub open spec fn wf(&self) -> bool {
        &&& self.slots >= 1
        &&& self.mask == self.slots - 1
        &&& self.queue@.len() == self.slots
        &&& self.count < self.slots
        &&& self.consumer_pos < self.slots
        &&& self.producer_pos == self.slot(self.count as int)
        &&& forall|k: int|
            0 <= k < self.count ==> (#[trigger] self.queue@[ring_slot(
                self.consumer_pos as int,
                self.slots as int,
                k,
            )]) is Some && self.queue@[ring_slot(self.consumer_pos as int, self.slots as int, k)]->0.wf()
    }

    /// The queued packets, oldest first.
    pub open spec fn view(&self) -> Seq<MBuf> {
        Seq::new(self.count as nat, |k: int| self.queue@[self.slot(k)]->0)
    }

    /// Packets that can still be enqueued.
    pub open spec fn free_spec(&self) -> int {
        self.mask - self.count
    }

    /// A queue of `size` slots rounded up to the smallest power of two at
    /// least as large (exactly `size` when it is one), holding at most one
    /// packet less.
    pub fn new(size: usize) -> (r: Option<MpscQueue>)
        requires
            size >= 1,
        ensures
            r matches Some(q) ==> q.wf() && q.view() == Seq::<MBuf>::empty() && q.n_producers == 0
                && q.slots >= size && is_pow2(q.slots as int) && (q.slots == 1 || q.slots / 2 < size)
                && (is_pow2(size as int) ==> q.slots == size),
            r is None ==> size > usize::MAX / 2 + 1,
    {
        let slots = match round_to_power_of_2(size) {
            Some(s) => s,
            None => {
                return None;
            },
        };
        let mut queue: Vec<Option<MBuf>> = Vec::with_capacity(slots);
        let mut i: usize = 0;
        while i < slots
            invariant
                i <= slots,
                queue@.len() == i,
            decreases slots - i,
        {
            queue.push(None);
            i += 1;
        }
        let q = MpscQueue {
            slots,
            mask: slots - 1,
            producer_pos: 0,
            consumer_pos: 0,
            count: 0,
            queue,
            n_producers: 0,
        };
        assert(q.view() =~= Seq::<MBuf>::empty());
        Some(q)
    }

    /// Registers one more producer.
    pub fn reference_producers(&mut self)
        requires
            old(self).n_producers < usize::MAX,
        ensures
            final(self).n_producers == old(self).n_producers + 1,
            final(self).view() == old(self).view(),
            old(self).wf() ==> final(self).wf(),
            final(self).slots == old(self).slots,
    {
        self.n_producers = self.n_producers + 1;
    }

    pub fn free_slots(&self) -> (r: usize)
        requires
            self.wf(),
        ensures
            r == self.free_spec(),
    {
        self.mask - self.count
    }

    pub fn used_slots(&self) -> (r: usize)
        requires
            self.wf(),
        ensures
            r == self.count,
            r == self.view().len(),
    {
        self.slots - self.free_slots() - 1
    }

    /// Enqueues, without contention, as many of the packets at the front of
    /// `mbufs` as there are free slots; the rest stay in `mbufs`. Returns
    /// how many were enqueued.
    pub fn enqueue_sp(&mut self, mbufs: &mut Vec<MBuf>) -> (r: usize)
        requires
            old(self).wf(),
            forall|i: int| 0 <= i < old(mbufs)@.len() ==> (#[trigger] old(mbufs)@[i]).wf(),
        ensures
            final(self).wf(),
            r == if old(mbufs)@.len() < old(self).free_spec() {
                old(mbufs)@.len() as int
            } else {
                old(self).free_spec()
            },
            final(self).view() == old(self).view() + old(mbufs)@.take(r as int),
            final(mbufs)@ == old(mbufs)@.skip(r as int),
            final(self).slots == old(self).slots,
            final(self).n_producers == old(self).n_producers,
    {
        let len = mbufs.len();
        let free = self.free_slots();
        let insert = if free < len {
            free
        } else {
            len
        };
        if insert > 0 {
            self.enqueue_mbufs(insert, mbufs);
        } else {
            assert(old(self).view() + old(mbufs)@.take(0) =~= old(self).view());
            assert(old(mbufs)@.skip(0) =~= old(mbufs)@);
        }
        insert
    }

    /// Enqueues as `enqueue_sp` does. Reservations of concurrent producers
    /// are serialised by the exclusive access this takes.
    pub fn enqueue_mp(&mut self, mbufs: &mut Vec<MBuf>) -> (r: usize)
        requires
            old(self).wf(),
            forall|i: int| 0 <= i < old(mbufs)@.len() ==> (#[trigger] old(mbufs)@[i]).wf(),
        ensures
            final(self).wf(),
            r == if old(mbufs)@.len() < old(self).free_spec() {
                old(mbufs)@.len() as int
            } else {
                old(self).free_spec()
            },
            final(self).view() == old(self).view() + old(mbufs)@.take(r as int),
            final(mbufs)@ == old(mbufs)@.skip(r as int),
            final(self).slots == old(self).slots,
            final(self).n_producers == old(self).n_producers,
    {
        self.enqueue_sp(mbufs)
    }

    /// Enqueues as many of the packets at the front of `mbufs` as fit;
    /// returns how many. The queue must have a producer.
    pub fn enqueue(&mut self, mbufs: &mut Vec<MBuf>) -> (r: usize)
        requires
            old(self).wf(),
            forall|i: int| 0 <= i < old(mbufs)@.len() ==> (#[trigger] old(mbufs)@[i]).wf(),
            old(self).n_producers >= 1,
        ensures
            final(self).wf(),
            r == if old(mbufs)@.len() < old(self).free_spec() {
                old(mbufs)@.len() as int
            } else {
                old(self).free_spec()
            },
            final(self).view() == old(self).view() + old(mbufs)@.take(r as int),
            final(mbufs)@ == old(mbufs)@.skip(r as int),
            final(self).slots == old(self).slots,
            final(self).n_producers == old(self).n_producers,
    {
        if self.n_producers == 1 {
            self.enqueue_sp(mbufs)
        } else {
            self.enqueue_mp(mbufs)
        }
    }

    /// Enqueues one packet; gives it back when the queue is full.
    pub fn enqueue_one(&mut self, mbuf: MBuf) -> (r: Result<(), MBuf>)
        requires
            old(self).wf(),
            mbuf.wf(),
            old(self).n_producers >= 1,
        ensures
            final(self).wf(),
            r is Ok <==> old(self).free_spec() > 0,
            r is Ok ==> final(self).view() == old(self).view().push(mbuf),
            r matches Err(m) ==> m == mbuf && final(self).view() == old(self).view(),
            final(self).slots == old(self).slots,
            final(self).n_producers == old(self).n_producers,
    {
        let mut v: Vec<MBuf> = Vec::new();
        v.push(mbuf);
        let n = self.enqueue(&mut v);
        if n == 1 {
            assert(seq![mbuf].take(1) =~= seq![mbuf]);
            Ok(())
        } else {
            assert(v@ =~= seq![mbuf]);
            assert(old(self).view() + seq![mbuf].take(0) =~= old(self).view());
            let m = v.pop().unwrap();
            Err(m)
        }
    }

    /// Moves up to `max` of the oldest packets to the end of `mbufs`;
    /// returns how many.
    pub fn dequeue(&mut self, mbufs: &mut Vec<MBuf>, max: usize) -> (r: usize)
        requires
            old(self).wf(),
            old(mbufs)@.len() + max <= usize::MAX,
        ensures
            final(self).wf(),
            r == if max < old(self).view().len() {
                max as int
            } else {
                old(self).view().len() as int
            },
            final(self).view() == old(self).view().skip(r as int),
            final(mbufs)@ == old(mbufs)@ + old(self).view().take(r as int),
            forall|i: int| 0 <= i < old(self).view().len() ==> (#[trigger] old(self).view()[i]).wf(),
            final(self).slots == old(self).slots,
            final(self).n_producers == old(self).n_producers,
    {
        let n = if max < self.count {
            max
        } else {
            self.count
        };
        let mut i: usize = 0;
        while i < n
            invariant
                self.wf(),
                old(self).wf(),
                self.slots == old(self).slots,
                self.n_producers == old(self).n_producers,
                i <= n,
                n <= old(self).count,
                self.count == old(self).count - i,
                self.view() == old(self).view().skip(i as int),
                mbufs@ == old(mbufs)@ + old(self).view().take(i as int),
            decreases n - i,
        {
            let pos = self.consumer_pos;
            let ghost before = *self;
            assert(self.queue@[ring_slot(self.consumer_pos as int, self.slots as int, 0)] is Some);
            let mut taken: Option<MBuf> = None;
            std::mem::swap(&mut taken, &mut self.queue[pos]);
            let m = taken.unwrap();
            self.consumer_pos = if pos + 1 == self.slots {
                0
            } else {
                pos + 1
            };
            self.count = self.count - 1;
            mbufs.push(m);
            proof {
                let c = before.count as int;
                assert(before.slot(0) == pos);
                assert(m == before.view()[0]);
                assert forall|k: int| 0 <= k < self.count implies self.slot(k) == before.slot(k + 1) && self.slot(k) != pos by {
                }
                assert forall|k: int| 0 <= k < self.count implies (#[trigger] self.queue@[ring_slot(
                    self.consumer_pos as int,
                    self.slots as int,
                    k,
                )]) is Some && self.queue@[ring_slot(self.consumer_pos as int, self.slots as int, k)]->0.wf() by {
                    assert(self.queue@[self.slot(k)] == before.queue@[before.slot(k + 1)]);
                }
                assert(self.producer_pos == self.slot(self.count as int));
                assert(self.view() =~= old(self).view().skip(i + 1)) by {
                    assert forall|k: int| 0 <= k < self.count implies self.view()[k] == before.view()[k + 1] by {
                        assert(self.queue@[self.slot(k)] == before.queue@[before.slot(k + 1)]);
                    }
                }
                assert(mbufs@ =~= old(mbufs)@ + old(self).view().take(i + 1));
            }
            i += 1;
        }
        n
    }

    /// Moves the first `n` packets of `mbufs` into the slots after the
    /// producer's position, wrapping at the end of the ring.
    fn enqueue_mbufs(&mut self, n: usize, mbufs: &mut Vec<MBuf>)
        requires
            old(self).wf(),
            forall|i: int| 0 <= i < old(mbufs)@.len() ==> (#[trigger] old(mbufs)@[i]).wf(),
            n <= old(self).free_spec(),
            n <= old(mbufs)@.len(),
        ensures
            final(self).wf(),
            final(self).view() == old(self).view() + old(mbufs)@.take(n as int),
            final(mbufs)@ == old(mbufs)@.skip(n as int),
            final(self).slots == old(self).slots,
            final(self).n_producers == old(self).n_producers,
    {
        let mut i: usize = 0;
        while i < n
            invariant
                self.wf(),
                self.slots == old(self).slots,
                self.n_producers == old(self).n_producers,
                self.consumer_pos == old(self).consumer_pos,
                i <= n,
                old(self).wf(),
                forall|j: int| 0 <= j < old(mbufs)@.len() ==> (#[trigger] old(mbufs)@[j]).wf(),
                n <= old(self).free_spec(),
                n <= old(mbufs)@.len(),
                self.count == old(self).count + i,
                self.view() == old(self).view() + old(mbufs)@.take(i as int),
                mbufs@ == old(mbufs)@.skip(i as int),
            decreases n - i,
        {
            let m = mbufs.remove(0);
            let pos = self.producer_pos;
            let ghost before = *self;
            self.queue.set(pos, Some(m));
            self.producer_pos = if pos + 1 == self.slots {
                0
            } else {
                pos + 1
            };
            self.count = self.count + 1;
            proof {
                let s = self.slots as int;
                let c = before.count as int;
                assert(pos == before.slot(c));
                assert forall|k: int| 0 <= k < c implies self.slot(k) != pos by {
                    assert(before.slot(k) == self.slot(k));
                }
                assert forall|k: int| 0 <= k < self.count implies (#[trigger] self.queue@[ring_slot(
                    self.consumer_pos as int,
                    self.slots as int,
                    k,
                )]) is Some && self.queue@[ring_slot(self.consumer_pos as int, self.slots as int, k)]->0.wf() by {
                    if k < c {
                        assert(self.queue@[self.slot(k)] == before.queue@[before.slot(k)]);
                    } else {
                        assert(self.slot(k) == pos);
                    }
                }
                assert(self.producer_pos == self.slot(self.count as int));
                assert(self.count < self.slots);
                assert(self.queue@.len() == self.slots);
                assert(self.mask == self.slots - 1);
                assert(self.consumer_pos < self.slots);
                assert(old(mbufs)@.skip(i as int).first() == m);
                assert(m == old(mbufs)@[i as int]);
                assert(self.view() =~= old(self).view() + old(mbufs)@.take(i + 1)) by {
                    assert forall|k: int| 0 <= k < self.count implies self.view()[k] == (old(self).view() + old(mbufs)@.take(i + 1))[k] by {
                        if k < c {
                            assert(self.queue@[self.slot(k)] == before.queue@[before.slot(k)]);
                            assert(self.view()[k] == before.view()[k]);
                        } else {
                            assert(k == c);
                            assert(old(mbufs)@.skip(i as int)[0] == old(mbufs)@[i as int]);
                        }
                    }
                }
                assert(mbufs@ =~= old(mbufs)@.skip(i + 1));
            }
            i += 1;
        }
    }
}

/// Enqueueing one packet into an empty queue with a free slot and then
/// dequeueing at least one gives that packet back and leaves the queue empty.
pub proof fn lemma_enqueue_then_dequeue(q: Seq<MBuf>, free: int, v: MBuf, max: int)
    requires
        q.len() == 0,
        free >= 1,
        max >= 1,
    ensures
        ({
            let n = if 1 < free {
                1
            } else {
                free
            };
            let q1 = q + seq![v].take(n);
            let k = if max < q1.len() {
                max
            } else {
                q1.len() as int
            };
            &&& q1.take(k) == seq![v]
            &&& q1.skip(k) == Seq::<MBuf>::empty()
        }),
{
    assert(seq![v].take(1) =~= seq![v]);
    assert(q + seq![v] =~= seq![v]);
    assert(seq![v].take(1) =~= seq![v]);
    assert(seq![v].skip(1) =~= Seq::<MBuf>::empty());
}

/// Total number of packets in a sequence of batches.
pub open spec fn total_len(batches: Seq<Seq<MBuf>>) -> int
    decreases batches.len(),
{
    if batches.len() == 0 {
        0
    } else {
        batches[0].len() + total_len(batches.drop_first())
    }
}

pub proof fn lemma_flatten_len(batches: Seq<Seq<MBuf>>)
    ensures
        flatten(batches).len() == total_len(batches),
    decreases batches.len(),
{
    if batches.len() > 0 {
        lemma_flatten_len(batches.drop_first());
    }
}

/// When batches from any producers are each enqueued whole, one after the
/// other, the queue ends up holding what it held followed by every batch in
/// the order of the calls: nothing is lost or duplicated, the total is the
/// sum of the batch sizes, and what a producer enqueued earlier comes out
/// earlier.
pub proof fn lemma_interleaved_enqueues(views: Seq<Seq<MBuf>>, batches: Seq<Seq<MBuf>>)
    requires
        views.len() == batches.len() + 1,
        forall|i: int|
            0 <= i < batches.len() ==> views[i + 1] == views[i] + (#[trigger] batches[i]).take(
                batches[i].len() as int,
            ),
    ensures
        views.last() == views[0] + flatten(batches),
        views.last().len() == views[0].len() + total_len(batches),
        forall|i: int|
            0 <= i <= batches.len() ==> (views[0] + flatten(batches)).take(views[i].len() as int)
                == views[i],
    decreases batches.len(),
{
    lemma_flatten_len(batches);
    if batches.len() == 0 {
        assert(views[0] + flatten(batches) =~= views[0]);
    } else {
        let rest_v = views.drop_first();
        let rest_b = batches.drop_first();
        assert forall|i: int| 0 <= i < rest_b.len() implies rest_v[i + 1] == rest_v[i] + (
        #[trigger] rest_b[i]).take(rest_b[i].len() as int) by {
            assert(rest_b[i] == batches[i + 1]);
        }
        lemma_interleaved_enqueues(rest_v, rest_b);
        assert(batches[0].take(batches[0].len() as int) =~= batches[0]);
        assert(views[1] == views[0] + batches[0]);
        assert(views[0] + flatten(batches) =~= views[1] + flatten(rest_b));
        assert forall|i: int| 0 <= i <= batches.len() implies (views[0] + flatten(batches)).take(
            views[i].len() as int,
        ) == views[i] by {
            if i == 0 {
                assert((views[0] + flatten(batches)).take(views[0].len() as int) =~= views[0]);
            } else {
                assert(rest_v[i - 1] == views[i]);
            }
        }
    }
}

} // verus!
