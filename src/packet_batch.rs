//! The packet batch: up to a fixed number of buffers handled together, the
//! unit that operators receive, filter and send.
use vstd::prelude::*;
use crate::errors::ErrorKind;
use crate::mbuf::{MBuf, PKTMBUF_HEADROOM};
use crate::pdu::Pdu;
use crate::port::{PacketRx, PacketTx, VIRTUAL_BUF_LEN};

verus! {

/// The packets of `s` whose positions are not in `idxes`, in order.
pub open spec fn without(s: Seq<MBuf>, idxes: Seq<usize>) -> Seq<MBuf>
    decreases s.len(),
{
    if s.len() == 0 {
        s
    } else if idxes.contains((s.len() - 1) as usize) {
        without(s.drop_last(), idxes)
    } else {
        without(s.drop_last(), idxes).push(s.last())
    }
}

/// Every buffer is freshly allocated: one reference, no data.
pub open spec fn fresh_buffers(s: Seq<MBuf>) -> bool {
    forall|k: int| 0 <= k < s.len() ==> (#[trigger] s[k]).refcnt == 1 && s[k].data().len() == 0
}

/// Strictly ascending indices.
pub open spec fn ascending(idxes: Seq<usize>) -> bool {
    forall|i: int, j: int| 0 <= i < j < idxes.len() ==> idxes[i] < idxes[j]
}

/// The positions whose flag is clear, ascending.
pub open spec fn rejected(keep: Seq<bool>) -> Seq<usize>
    decreases keep.len(),
{
    if keep.len() == 0 {
        Seq::empty()
    } else if keep.last() {
        rejected(keep.drop_last())
    } else {
        rejected(keep.drop_last()).push((keep.len() - 1) as usize)
    }
}

pub proof fn lemma_rejected_ascending(keep: Seq<bool>)
    requires
        keep.len() <= usize::MAX,
    ensures
        ascending(rejected(keep)),
        forall|k: int| 0 <= k < rejected(keep).len() ==> #[trigger] rejected(keep)[k] < keep.len(),
        rejected(keep).len() <= keep.len(),
    decreases keep.len(),
{
    if keep.len() > 0 {
        let prev = rejected(keep.drop_last());
        lemma_rejected_ascending(keep.drop_last());
        if !keep.last() {
            let r = prev.push((keep.len() - 1) as usize);
            assert forall|i: int, j: int| 0 <= i < j < r.len() implies r[i] < r[j] by {
                assert(r[i] == prev[i]);
                if j == r.len() - 1 {
                    assert(prev[i] < keep.drop_last().len());
                    assert(r[j] == (keep.len() - 1) as usize);
                } else {
                    assert(r[j] == prev[j]);
                }
            }
        }
    }
}

/// Up to `capacity` packet buffers handled together.
pub struct PacketBatch {
    pub array: Vec<MBuf>,
    pub capacity: usize,
    /// When set, the buffers are not freed before each receive, because
    /// downstream has taken them over.
    pub b_keep_mbuf: bool,
}

impl PacketBatch {
    pub open spec fn wf(&self) -> bool {
        &&& self.array@.len() <= self.capacity
        &&& forall|i: int| 0 <= i < self.array@.len() ==> (#[trigger] self.array@[i]).wf()
    }

    /// An empty batch able to hold `cnt` packets.
    pub fn new(cnt: i32, b_keep_mbuf: bool) -> (r: PacketBatch)
        requires
            cnt >= 0,
        ensures
            r.wf(),
            r.array@ == Seq::<MBuf>::empty(),
            r.capacity == cnt,
            r.b_keep_mbuf == b_keep_mbuf,
    {
        PacketBatch { array: Vec::with_capacity(cnt as usize), capacity: cnt as usize, b_keep_mbuf }
    }

    /// Whether the batch is well formed (see `wf`).
    pub fn is_wf(&self) -> (r: bool)
        ensures
            r == self.wf(),
    {
        if self.array.len() > self.capacity {
            return false;
        }
        let mut i: usize = 0;
        while i < self.array.len()
            invariant
                i <= self.array@.len(),
                forall|k: int| 0 <= k < i ==> (#[trigger] self.array@[k]).wf(),
            decreases self.array@.len() - i,
        {
            if !self.array[i].is_wf() {
                return false;
            }
            i += 1;
        }
        true
    }

    /// Number of packets held.
    pub fn available(&self) -> (r: usize)
        ensures
            r == self.array@.len(),
    {
        self.array.len()
    }

    pub fn capacity(&self) -> (r: usize)
        ensures
            r == self.capacity,
    {
        self.capacity
    }

    /// Replaces the batch by `cnt` fresh buffers, or fails with
    /// `FailedAllocation` (changing nothing) when it cannot hold them.
    fn alloc_packet_batch(&mut self, cnt: usize) -> (r: Result<(), ErrorKind>)
        requires
            old(self).wf(),
        ensures
            final(self).wf(),
            final(self).capacity == old(self).capacity,
            final(self).b_keep_mbuf == old(self).b_keep_mbuf,
            r is Ok <==> cnt <= old(self).capacity,
            r is Ok ==> final(self).array@.len() == cnt && fresh_buffers(final(self).array@),
            r is Err ==> r == Err::<(), ErrorKind>(ErrorKind::FailedAllocation) && final(self).array@
                == old(self).array@,
    {
        if self.capacity < cnt {
            return Err(ErrorKind::FailedAllocation);
        }
        let mut fresh: Vec<MBuf> = Vec::with_capacity(cnt);
        let mut i: usize = 0;
        while i < cnt
            invariant
                i <= cnt,
                fresh@.len() == i,
                forall|k: int| 0 <= k < i ==> (#[trigger] fresh@[k]).wf(),
                fresh_buffers(fresh@),
            decreases cnt - i,
        {
            fresh.push(MBuf::new(VIRTUAL_BUF_LEN, PKTMBUF_HEADROOM));
            i += 1;
        }
        self.array = fresh;
        Ok(())
    }

    /// Fills the batch with as many fresh buffers as it can hold.
    pub fn allocate_batch_with_size(&mut self) -> (r: Result<(), ErrorKind>)
        requires
            old(self).wf(),
        ensures
            final(self).wf(),
            r is Ok,
            final(self).array@.len() == old(self).capacity,
            fresh_buffers(final(self).array@),
            final(self).capacity == old(self).capacity,
    {
        let capacity = self.capacity;
        self.alloc_packet_batch(capacity)
    }

    /// Replaces the batch by `cnt` fresh buffers, or fails with
    /// `FailedAllocation` when it cannot hold them.
    pub fn allocate_partial_batch_with_size(&mut self, cnt: i32) -> (r: Result<(), ErrorKind>)
        requires
            old(self).wf(),
            cnt >= 0,
        ensures
            final(self).wf(),
            final(self).capacity == old(self).capacity,
            r is Ok <==> cnt <= old(self).capacity,
            final(self).b_keep_mbuf == old(self).b_keep_mbuf,
            r is Ok ==> final(self).array@.len() == cnt && fresh_buffers(final(self).array@),
            r is Err ==> r == Err::<(), ErrorKind>(ErrorKind::FailedAllocation) && final(self).array@
                == old(self).array@,
    {
        self.alloc_packet_batch(cnt as usize)
    }

    /// Frees the packets held, unless the batch keeps them for downstream;
    /// returns how many were freed.
    fn free_packet_batch(&mut self) -> (r: usize)
        requires
            old(self).wf(),
        ensures
            final(self).wf(),
            final(self).capacity == old(self).capacity,
            final(self).b_keep_mbuf == old(self).b_keep_mbuf,
            old(self).b_keep_mbuf ==> r == 0 && final(self).array@ == old(self).array@,
            !old(self).b_keep_mbuf ==> r == old(self).array@.len() && final(self).array@
                == Seq::<MBuf>::empty(),
    {
        if self.array.len() == 0 || self.b_keep_mbuf {
            0
        } else {
            let n = self.array.len();
            self.array.clear();
            n
        }
    }

    /// Frees all packets held (see `free_packet_batch`).
    pub fn deallocate_batch(&mut self) -> (r: Result<(), ErrorKind>)
        requires
            old(self).wf(),
        ensures
            final(self).wf(),
            r is Ok,
            final(self).capacity == old(self).capacity,
            final(self).b_keep_mbuf == old(self).b_keep_mbuf,
            old(self).b_keep_mbuf ==> final(self).array@ == old(self).array@,
            !old(self).b_keep_mbuf ==> final(self).array@ == Seq::<MBuf>::empty(),
    {
        self.free_packet_batch();
        Ok(())
    }

    /// Drops every packet of the batch (see `free_packet_batch`); returns how
    /// many were freed.
    pub fn drop_packets_all(&mut self) -> (r: Option<usize>)
        requires
            old(self).wf(),
        ensures
            final(self).wf(),
            final(self).capacity == old(self).capacity,
            final(self).b_keep_mbuf == old(self).b_keep_mbuf,
            old(self).b_keep_mbuf ==> r == Some(0usize) && final(self).array@ == old(self).array@,
            !old(self).b_keep_mbuf ==> r == Some(old(self).array@.len() as usize) && final(self).array@
                == Seq::<MBuf>::empty(),
    {
        Some(self.free_packet_batch())
    }

    /// Takes all packets out of the batch without freeing them.
    pub fn clear_packets(&mut self) -> (r: Vec<MBuf>)
        requires
            old(self).wf(),
        ensures
            final(self).wf(),
            r@ == old(self).array@,
            final(self).array@ == Seq::<MBuf>::empty(),
            final(self).capacity == old(self).capacity,
            final(self).b_keep_mbuf == old(self).b_keep_mbuf,
    {
        let mut out: Vec<MBuf> = Vec::new();
        std::mem::swap(&mut out, &mut self.array);
        out
    }

    /// Lets the packets held go (freeing them, unless downstream took them
    /// over) and receives new ones from `port`; returns how many were
    /// received and the queue depth the port reported.
    pub fn recv<Rx: PacketRx>(&mut self, port: &mut Rx) -> (r: (u32, i32))
        requires
            old(self).wf(),
        ensures
            final(self).wf(),
            final(self).capacity == old(self).capacity,
            final(self).b_keep_mbuf == old(self).b_keep_mbuf,
            final(self).array@.len() == r.0,
            r.0 <= old(self).capacity,
    {
        if self.b_keep_mbuf {
            let _handed_over = self.clear_packets();
        } else {
            self.free_packet_batch();
        }
        let cap = self.capacity;
        let r = port.recv(&mut self.array, cap);
        proof {
            assert forall|i: int| 0 <= i < self.array@.len() implies (#[trigger] self.array@[i]).wf() by {
            }
        }
        r
    }

    /// Drops the packets at the positions `idxes`, keeping the others in
    /// order; returns how many were dropped. The positions must be strictly
    /// ascending and inside the batch: otherwise nothing changes and `None`
    /// comes back.
    pub fn drop_packets(&mut self, idxes: &[usize]) -> (r: Option<usize>)
        requires
            old(self).wf(),
        ensures
            final(self).wf(),
            final(self).capacity == old(self).capacity,
            final(self).b_keep_mbuf == old(self).b_keep_mbuf,
            r is Some <==> (ascending(idxes@) && forall|k: int|
                0 <= k < idxes@.len() ==> #[trigger] idxes@[k] < old(self).array@.len()),
            r is None ==> final(self).array@ == old(self).array@,
            r is Some ==> ({
                &&& r == Some(idxes@.len() as usize)
                &&& final(self).array@ == without(old(self).array@, idxes@)
                &&& final(self).array@.len() == old(self).array@.len() - idxes@.len()
            }),
    {
        let n = self.array.len();
        let mut k: usize = 0;
        while k < idxes.len()
            invariant
                n == self.array@.len(),
                self.wf(),
                self.array@ == old(self).array@,
                self.capacity == old(self).capacity,
                self.b_keep_mbuf == old(self).b_keep_mbuf,
                k <= idxes@.len(),
                forall|a: int| 0 <= a < k ==> #[trigger] idxes@[a] < n,
                forall|a: int, b: int| 0 <= a < b < k ==> idxes@[a] < idxes@[b],
            decreases idxes@.len() - k,
        {
            if idxes[k] >= n || (k > 0 && idxes[k - 1] >= idxes[k]) {
                return None;
            }
            proof {
                assert forall|a: int, b: int| 0 <= a < b < k + 1 implies idxes@[a] < idxes@[b] by {
                    if b == k && a < k - 1 {
                        assert(idxes@[a] < idxes@[k - 1]);
                    }
                }
            }
            k += 1;
        }
        let mut old_array: Vec<MBuf> = Vec::new();
        std::mem::swap(&mut old_array, &mut self.array);
        let ghost s = old_array@;
        let mut i: usize = 0;
        let mut j: usize = 0;
        while i < n
            invariant
                n == s.len(),
                i <= n,
                j <= idxes@.len(),
                old_array@ == s.skip(i as int),
                self.array@ == without(s.take(i as int), idxes@),
                self.array@.len() == i - j,
                self.capacity == old(self).capacity,
                self.b_keep_mbuf == old(self).b_keep_mbuf,
                s == old(self).array@,
                old(self).wf(),
                ascending(idxes@),
                forall|a: int| 0 <= a < idxes@.len() ==> #[trigger] idxes@[a] < n,
                forall|a: int| 0 <= a < j ==> #[trigger] idxes@[a] < i,
                j < idxes@.len() ==> idxes@[j as int] >= i,
                forall|a: int| 0 <= a < self.array@.len() ==> (#[trigger] self.array@[a]).wf(),
            decreases n - i,
        {
            let m = old_array.remove(0);
            proof {
                assert(s.take(i + 1).drop_last() =~= s.take(i as int));
                assert(s.take(i + 1).last() == s[i as int]);
                assert(m == s[i as int]);
                assert(old_array@ =~= s.skip(i + 1));
                assert(idxes@.contains(i) <==> (j < idxes@.len() && idxes@[j as int] == i)) by {
                    if idxes@.contains(i) {
                        let a = choose|a: int| 0 <= a < idxes@.len() && idxes@[a] == i;
                        if a < j {
                            assert(idxes@[a] < i);
                        } else if a > j {
                            assert(idxes@[j as int] < idxes@[a]);
                        }
                    }
                }
            }
            if j < idxes.len() && idxes[j] == i {
                j += 1;
            } else {
                self.array.push(m);
            }
            i += 1;
        }
        proof {
            assert(s.take(n as int) =~= s);
            if j < idxes@.len() {
                assert(idxes@[j as int] < n);
            }
        }
        Some(j)
    }

    /// The packet at `idx`, parsed, taken out of the batch; an empty buffer
    /// holds its place until `put_pdu` returns it.
    pub fn take_pdu(&mut self, idx: usize) -> (r: Pdu)
        requires
            old(self).wf(),
            idx < old(self).array@.len(),
        ensures
            final(self).wf(),
            r.wf(),
            r.mbuf == old(self).array@[idx as int],
            r.headers_spec() == crate::pdu::parse_spec(old(self).array@[idx as int].data()),
            final(self).array@.len() == old(self).array@.len(),
            forall|k: int| 0 <= k < old(self).array@.len() && k != idx ==> final(self).array@[k] == old(self).array@[k],
            final(self).capacity == old(self).capacity,
            final(self).b_keep_mbuf == old(self).b_keep_mbuf,
    {
        let mut m = MBuf::new(0, 0);
        std::mem::swap(&mut m, &mut self.array[idx]);
        Pdu::pdu_from_mbuf_no_increment(m)
    }

    /// Puts the buffer of `pdu` back at `idx`.
    pub fn put_pdu(&mut self, idx: usize, pdu: Pdu)
        requires
            old(self).wf(),
            idx < old(self).array@.len(),
            pdu.mbuf.wf(),
        ensures
            final(self).wf(),
            final(self).array@ == old(self).array@.update(idx as int, pdu.mbuf),
            final(self).capacity == old(self).capacity,
            final(self).b_keep_mbuf == old(self).b_keep_mbuf,
    {
        let m = pdu.get_mbuf();
        self.array.set(idx, m);
    }

    /// Keeps the packets whose flag in `keep` is set, dropping the others
    /// (see `drop_packets`); returns how many were dropped.
    pub fn filter_packets(&mut self, keep: &[bool]) -> (r: usize)
        requires
            old(self).wf(),
            keep@.len() == old(self).array@.len(),
        ensures
            final(self).wf(),
            final(self).capacity == old(self).capacity,
            final(self).b_keep_mbuf == old(self).b_keep_mbuf,
            r == rejected(keep@).len(),
            final(self).array@ == without(old(self).array@, rejected(keep@)),
            final(self).array@.len() == old(self).array@.len() - r,
    {
        let mut remove: Vec<usize> = Vec::new();
        let mut i: usize = 0;
        while i < keep.len()
            invariant
                i <= keep@.len(),
                remove@ == rejected(keep@.take(i as int)),
            decreases keep@.len() - i,
        {
            proof {
                assert(keep@.take(i + 1).drop_last() =~= keep@.take(i as int));
            }
            if !keep[i] {
                remove.push(i);
            }
            i += 1;
        }
        proof {
            assert(keep@.take(keep@.len() as int) =~= keep@);
            lemma_rejected_ascending(keep@);
        }
        match self.drop_packets(remove.as_slice()) {
            Some(n) => n,
            None => {
                assert(false);
                0
            },
        }
    }

    /// Hands the packets to `port`; those it does not take stay in the batch.
    /// Returns how many it took.
    pub fn send_q<Tx: PacketTx>(&mut self, port: &mut Tx) -> (r: u32)
        requires
            old(self).wf(),
        ensures
            final(self).wf(),
            final(self).capacity == old(self).capacity,
            final(self).b_keep_mbuf == old(self).b_keep_mbuf,
            r <= old(self).array@.len(),
            final(self).array@ == old(self).array@.skip(r as int),
            final(port).sent_log() == old(port).sent_log() + old(self).array@.take(r as int),
    {
        if self.array.len() > 0 {
            let sent = port.send(&mut self.array);
            proof {
                assert forall|i: int| 0 <= i < self.array@.len() implies (#[trigger] self.array@[i]).wf() by {
                    assert(self.array@[i] == old(self).array@[i + sent]);
                }
            }
            sent
        } else {
            assert(old(self).array@.skip(0) =~= old(self).array@);
            assert(old(port).sent_log() + old(self).array@.take(0) =~= old(port).sent_log());
            0
        }
    }
}

} // verus!
