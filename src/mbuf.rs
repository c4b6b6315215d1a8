//! The packet buffer: a fixed-capacity byte buffer with headroom and tailroom
//! accounting, a reference count, offload flags and metadata slots.
use vstd::prelude::*;
use crate::bitfield::{__BindgenBitfieldUnit, holds_field, replaces_field, word_bit};

verus! {

/// Transmit offload: the packet is IPv4.
pub const PKT_TX_IPV4: u64 = 0x80_0000_0000_0000;
/// Transmit offload: compute the IP checksum.
pub const PKT_TX_IP_CKSUM: u64 = 0x40_0000_0000_0000;
/// Transmit offload: compute the TCP checksum.
pub const PKT_TX_TCP_CKSUM: u64 = 0x10_0000_0000_0000;
/// The receive offload flags occupy the low twenty bits.
pub const PKT_RX_OFFLOAD_MASK: u32 = 0xf_ffff;
/// Number of machine-word metadata slots after each buffer.
pub const METADATA_SLOTS: u16 = 16;
/// Headroom reserved in front of the data of a freshly allocated buffer.
pub const PKTMBUF_HEADROOM: u16 = 128;

/// Bits `off .. off + width` of `u` are the low bits of `v`.
pub open spec fn field_is(u: __BindgenBitfieldUnit, off: int, width: int, v: u64) -> bool {
    forall|j: int| off <= j < off + width ==> u.bit(j) == word_bit(v, j - off)
}

/// The L2, L3 and L4 header lengths (and segmentation fields) handed to the
/// driver for transmit offload, packed as bit fields.
#[derive(Clone, Copy, Debug)]
pub struct L234len {
    pub _bitfield_1: __BindgenBitfieldUnit,
    pub __bindgen_align: [u64; 0],
}

impl L234len {
    pub fn zeroed() -> (r: L234len)
        ensures
            forall|j: int| 0 <= j < 64 ==> !r._bitfield_1.bit(j),
    {
        let r = L234len { _bitfield_1: __BindgenBitfieldUnit::new([0u8; 8]), __bindgen_align: [] };
        assert forall|j: int| 0 <= j < 64 implies !r._bitfield_1.bit(j) by {
            let b = r._bitfield_1.storage@[j / 8];
            let p = (j % 8) as u8;
            assert(b == 0u8);
            assert((0u8 >> p) & 1u8 != 1u8) by (bit_vector);
        }
        r
    }

    /// A bit-field unit holding the six lengths, each cut to its width.
    pub fn new_bitfield_1(
        l2_len: u64,
        l3_len: u64,
        l4_len: u64,
        tso_segsz: u64,
        outer_l3_len: u64,
        outer_l2_len: u64,
    ) -> (r: __BindgenBitfieldUnit)
        ensures
            field_is(r, 0, 7, l2_len),
            field_is(r, 7, 9, l3_len),
            field_is(r, 16, 8, l4_len),
            field_is(r, 24, 16, tso_segsz),
            field_is(r, 40, 9, outer_l3_len),
            field_is(r, 49, 7, outer_l2_len),
            forall|j: int| 56 <= j < 64 ==> !r.bit(j),
    {
        let mut u = L234len::zeroed()._bitfield_1;
        let ghost u0 = u;
        u.set(0, 7, l2_len);
        let ghost u1 = u;
        u.set(7, 9, l3_len);
        let ghost u2 = u;
        u.set(16, 8, l4_len);
        let ghost u3 = u;
        u.set(24, 16, tso_segsz);
        let ghost u4 = u;
        u.set(40, 9, outer_l3_len);
        let ghost u5 = u;
        u.set(49, 7, outer_l2_len);
        assert forall|j: int| 0 <= j < 7 implies u.bit(j) == word_bit(l2_len, j) by {
            assert(u.bit(j) == u5.bit(j) && u5.bit(j) == u4.bit(j) && u4.bit(j) == u3.bit(j) && u3.bit(j) == u2.bit(j)
                && u2.bit(j) == u1.bit(j));
        }
        assert forall|j: int| 7 <= j < 16 implies u.bit(j) == word_bit(l3_len, j - 7) by {
            assert(u.bit(j) == u5.bit(j) && u5.bit(j) == u4.bit(j) && u4.bit(j) == u3.bit(j) && u3.bit(j) == u2.bit(j));
        }
        assert forall|j: int| 16 <= j < 24 implies u.bit(j) == word_bit(l4_len, j - 16) by {
            assert(u.bit(j) == u5.bit(j) && u5.bit(j) == u4.bit(j) && u4.bit(j) == u3.bit(j));
        }
        assert forall|j: int| 24 <= j < 40 implies u.bit(j) == word_bit(tso_segsz, j - 24) by {
            assert(u.bit(j) == u5.bit(j) && u5.bit(j) == u4.bit(j));
        }
        assert forall|j: int| 40 <= j < 49 implies u.bit(j) == word_bit(outer_l3_len, j - 40) by {
            assert(u.bit(j) == u5.bit(j));
        }
        assert forall|j: int| 56 <= j < 64 implies !u.bit(j) by {
            assert(u.bit(j) == u0.bit(j));
        }
        u
    }

    pub fn l2_len(&self) -> (r: u64)
        ensures
            holds_field(self._bitfield_1, r, 0, 7),
    {
        self._bitfield_1.get(0, 7)
    }

    pub fn set_l2_len(&mut self, val: u64)
        ensures
            replaces_field(old(self)._bitfield_1, final(self)._bitfield_1, 0, 7, val),
    {
        self._bitfield_1.set(0, 7, val)
    }

    pub fn l3_len(&self) -> (r: u64)
        ensures
            holds_field(self._bitfield_1, r, 7, 9),
    {
        self._bitfield_1.get(7, 9)
    }

    pub fn set_l3_len(&mut self, val: u64)
        ensures
            replaces_field(old(self)._bitfield_1, final(self)._bitfield_1, 7, 9, val),
    {
        self._bitfield_1.set(7, 9, val)
    }

    pub fn l4_len(&self) -> (r: u64)
        ensures
            holds_field(self._bitfield_1, r, 16, 8),
    {
        self._bitfield_1.get(16, 8)
    }

    pub fn set_l4_len(&mut self, val: u64)
        ensures
            replaces_field(old(self)._bitfield_1, final(self)._bitfield_1, 16, 8, val),
    {
        self._bitfield_1.set(16, 8, val)
    }

    pub fn tso_segsz(&self) -> (r: u64)
        ensures
            holds_field(self._bitfield_1, r, 24, 16),
    {
        self._bitfield_1.get(24, 16)
    }

    pub fn set_tso_segsz(&mut self, val: u64)
        ensures
            replaces_field(old(self)._bitfield_1, final(self)._bitfield_1, 24, 16, val),
    {
        self._bitfield_1.set(24, 16, val)
    }

    pub fn outer_l3_len(&self) -> (r: u64)
        ensures
            holds_field(self._bitfield_1, r, 40, 9),
    {
        self._bitfield_1.get(40, 9)
    }

    pub fn set_outer_l3_len(&mut self, val: u64)
        ensures
            replaces_field(old(self)._bitfield_1, final(self)._bitfield_1, 40, 9, val),
    {
        self._bitfield_1.set(40, 9, val)
    }

    pub fn outer_l2_len(&self) -> (r: u64)
        ensures
            holds_field(self._bitfield_1, r, 49, 7),
    {
        self._bitfield_1.get(49, 7)
    }

    pub fn set_outer_l2_len(&mut self, val: u64)
        ensures
            replaces_field(old(self)._bitfield_1, final(self)._bitfield_1, 49, 7, val),
    {
        self._bitfield_1.set(49, 7, val)
    }
}

/// The transmit-offload word of a buffer, seen either whole or as its
/// packed header lengths.
pub union TxOffload {
    pub tx_offload: u64,
    pub l234len: L234len,
}

/// A packet buffer segment. `buf` is the whole segment; the packet data is
/// the `data_len` bytes that start `data_off` bytes into it.
pub struct MBuf {
    pub buf: Vec<u8>,
    pub metadata: Vec<usize>,
    pub data_off: u16,
    pub refcnt: u16,
    pub nb_segs: u16,
    pub port: u16,
    pub ol_flags: u64,
    pub packet_type: u32,
    pub pkt_len: u32,
    pub data_len: u16,
    pub vlan_tci: u16,
    pub hash_rss: u32,
    pub buf_len: u16,
    pub tx_offload: L234len,
}

impl MBuf {
    /// The accounting fits the segment: the data lies inside the buffer, the
    /// packet is one segment long, and the metadata slots are all present.
    pub open spec fn wf(&self) -> bool {
        &&& self.buf@.len() == self.buf_len as int
        &&& self.data_off + self.data_len <= self.buf_len
        &&& self.pkt_len == self.data_len as u32
        &&& self.metadata@.len() == METADATA_SLOTS as int
    }

    /// The packet data.
    pub open spec fn data(&self) -> Seq<u8> {
        self.buf@.subrange(self.data_off as int, self.data_off + self.data_len)
    }

    pub open spec fn headroom(&self) -> int {
        self.data_off as int
    }

    pub open spec fn tailroom(&self) -> int {
        self.buf_len - self.data_off - self.data_len
    }

    /// A freshly allocated segment of `buf_len` zero bytes with `headroom`
    /// bytes reserved in front of an empty packet, and a reference count of one.
    pub fn new(buf_len: u16, headroom: u16) -> (r: MBuf)
        requires
            headroom <= buf_len,
        ensures
            r.wf(),
            r.buf_len == buf_len,
            r.data_off == headroom,
            r.data_len == 0,
            r.refcnt == 1,
            r.ol_flags == 0,
            r.port == 0,
            r.data() == Seq::<u8>::empty(),
            forall|i: int| 0 <= i < buf_len ==> r.buf@[i] == 0u8,
            forall|i: int| 0 <= i < METADATA_SLOTS ==> r.metadata@[i] == 0usize,
    {
        let mut buf: Vec<u8> = Vec::with_capacity(buf_len as usize);
        let mut i: usize = 0;
        while i < buf_len as usize
            invariant
                i <= buf_len,
                buf@.len() == i,
                forall|k: int| 0 <= k < i ==> buf@[k] == 0u8,
            decreases buf_len - i,
        {
            buf.push(0u8);
            i += 1;
        }
        let mut metadata: Vec<usize> = Vec::with_capacity(METADATA_SLOTS as usize);
        let mut k: usize = 0;
        while k < METADATA_SLOTS as usize
            invariant
                k <= METADATA_SLOTS,
                metadata@.len() == k,
                forall|m: int| 0 <= m < k ==> metadata@[m] == 0usize,
            decreases METADATA_SLOTS - k,
        {
            metadata.push(0usize);
            k += 1;
        }
        let r = MBuf {
            buf,
            metadata,
            data_off: headroom,
            refcnt: 1,
            nb_segs: 1,
            port: 0,
            ol_flags: 0,
            packet_type: 0,
            pkt_len: 0,
            data_len: 0,
            vlan_tci: 0,
            hash_rss: 0,
            buf_len,
            tx_offload: L234len::zeroed(),
        };
        assert(r.data() =~= Seq::<u8>::empty());
        r
    }

    /// Whether the accounting fits the segment (see `wf`).
    pub fn is_wf(&self) -> (r: bool)
        ensures
            r == self.wf(),
    {
        self.buf.len() == self.buf_len as usize && (self.data_off as usize + self.data_len as usize
            <= self.buf_len as usize) && self.pkt_len == self.data_len as u32 && self.metadata.len()
            == METADATA_SLOTS as usize
    }

    /// Copies the data (and its placement) of this segment into `tmb`.
    pub fn copy_to(&self, tmb: &mut MBuf)
        requires
            self.wf(),
            old(tmb).wf(),
            old(tmb).buf_len >= self.data_off + self.data_len,
        ensures
            final(tmb).wf(),
            final(tmb).data() == self.data(),
            final(tmb).data_off == self.data_off,
            final(tmb).data_len == self.data_len,
            final(tmb).buf_len == old(tmb).buf_len,
            final(tmb).refcnt == old(tmb).refcnt,
    {
        tmb.data_len = self.data_len;
        tmb.data_off = self.data_off;
        tmb.pkt_len = self.pkt_len;
        let off = self.data_off as usize;
        let n = self.data_len as usize;
        let mut i: usize = 0;
        while i < n
            invariant
                self.wf(),
                tmb.buf@.len() == tmb.buf_len,
                tmb.buf_len >= off + n,
                tmb.data_off == off,
                tmb.data_len == n,
                tmb.pkt_len == n,
                tmb.metadata@.len() == METADATA_SLOTS,
                tmb.refcnt == old(tmb).refcnt,
                tmb.buf_len == old(tmb).buf_len,
                off == self.data_off,
                n == self.data_len,
                i <= n,
                forall|k: int| off <= k < off + i ==> tmb.buf@[k] == self.buf@[k],
            decreases n - i,
        {
            let b = self.buf[off + i];
            tmb.buf.set(off + i, b);
            i += 1;
        }
        assert(tmb.data() =~= self.data());
    }

    pub fn read_metadata_slot(&self, slot: usize) -> (r: usize)
        requires
            self.wf(),
            slot < METADATA_SLOTS,
        ensures
            r == self.metadata@[slot as int],
    {
        self.metadata[slot]
    }

    pub fn write_metadata_slot(&mut self, slot: usize, value: usize)
        requires
            old(self).wf(),
            slot < METADATA_SLOTS,
        ensures
            final(self).wf(),
            final(self).metadata@ == old(self).metadata@.update(slot as int, value),
            final(self).buf@ == old(self).buf@,
            final(self).data_off == old(self).data_off,
            final(self).data_len == old(self).data_len,
            final(self).refcnt == old(self).refcnt,
    {
        self.metadata.set(slot, value);
    }

    /// Returns the total allocated size of this segment.
    pub fn buf_len(&self) -> (r: usize)
        ensures
            r == self.buf_len,
    {
        self.buf_len as usize
    }

    /// Returns the length of data in this segment.
    pub fn data_len(&self) -> (r: usize)
        ensures
            r == self.data_len,
    {
        self.data_len as usize
    }

    /// Returns the size of the packet.
    pub fn pkt_len(&self) -> (r: usize)
        ensures
            r == self.pkt_len,
    {
        self.pkt_len as usize
    }

    pub fn pkt_headroom(&self) -> (r: usize)
        ensures
            r == self.headroom(),
    {
        self.data_off as usize
    }

    pub fn pkt_tailroom(&self) -> (r: usize)
        requires
            self.wf(),
        ensures
            r == self.tailroom(),
    {
        self.buf_len() - self.data_off as usize - self.data_len()
    }

    /// Grows the packet at its front by `len` bytes of headroom; returns `len`,
    /// or 0 (changing nothing) when the headroom is smaller.
    pub fn add_data_beginning(&mut self, len: usize) -> (r: usize)
        requires
            old(self).wf(),
        ensures
            final(self).wf(),
            final(self).buf@ == old(self).buf@,
            final(self).buf_len == old(self).buf_len,
            final(self).refcnt == old(self).refcnt,
            final(self).metadata@ == old(self).metadata@,
            len > old(self).headroom() ==> r == 0 && *final(self) == *old(self),
            len <= old(self).headroom() ==> {
                &&& r == len
                &&& final(self).data_off == old(self).data_off - len
                &&& final(self).data_len == old(self).data_len + len
            },
    {
        if len > self.pkt_headroom() {
            0
        } else {
            self.data_off = self.data_off - len as u16;
            self.data_len = self.data_len + len as u16;
            self.pkt_len = self.pkt_len + len as u32;
            len
        }
    }

    /// Grows the packet at its end by `len` bytes of tailroom; returns `len`,
    /// or 0 (changing nothing) when the tailroom is smaller.
    pub fn add_data_end(&mut self, len: usize) -> (r: usize)
        requires
            old(self).wf(),
        ensures
            final(self).wf(),
            final(self).buf@ == old(self).buf@,
            final(self).buf_len == old(self).buf_len,
            final(self).data_off == old(self).data_off,
            final(self).refcnt == old(self).refcnt,
            final(self).metadata@ == old(self).metadata@,
            final(self).ol_flags == old(self).ol_flags,
            final(self).port == old(self).port,
            len > old(self).tailroom() ==> r == 0 && *final(self) == *old(self),
            len <= old(self).tailroom() ==> r == len && final(self).data_len == old(self).data_len + len,
    {
        if len > self.pkt_tailroom() {
            0
        } else {
            self.data_len = self.data_len + len as u16;
            self.pkt_len = self.pkt_len + len as u32;
            len
        }
    }

    /// Removes `len` bytes from the front of the packet; returns `len`, or 0
    /// (changing nothing) when the packet is shorter.
    pub fn remove_data_beginning(&mut self, len: usize) -> (r: usize)
        requires
            old(self).wf(),
        ensures
            final(self).wf(),
            final(self).buf@ == old(self).buf@,
            final(self).buf_len == old(self).buf_len,
            final(self).refcnt == old(self).refcnt,
            final(self).metadata@ == old(self).metadata@,
            len > old(self).data_len ==> r == 0 && *final(self) == *old(self),
            len <= old(self).data_len ==> {
                &&& r == len
                &&& final(self).data_off == old(self).data_off + len
                &&& final(self).data_len == old(self).data_len - len
                &&& final(self).data() == old(self).data().skip(len as int)
            },
    {
        if len > self.data_len() {
            0
        } else {
            self.data_off = self.data_off + len as u16;
            self.data_len = self.data_len - len as u16;
            self.pkt_len = self.pkt_len - len as u32;
            assert(self.data() =~= old(self).data().skip(len as int));
            len
        }
    }

    /// Removes `len` bytes from the end of the packet; returns `len`, or 0
    /// (changing nothing) when the packet is shorter.
    pub fn remove_data_end(&mut self, len: usize) -> (r: usize)
        requires
            old(self).wf(),
        ensures
            final(self).wf(),
            final(self).buf@ == old(self).buf@,
            final(self).buf_len == old(self).buf_len,
            final(self).data_off == old(self).data_off,
            final(self).refcnt == old(self).refcnt,
            final(self).metadata@ == old(self).metadata@,
            final(self).ol_flags == old(self).ol_flags,
            final(self).port == old(self).port,
            len > old(self).data_len ==> r == 0 && *final(self) == *old(self),
            len <= old(self).data_len ==> {
                &&& r == len
                &&& final(self).data_len == old(self).data_len - len
                &&& final(self).data() == old(self).data().take(old(self).data_len - len)
            },
    {
        if len > self.data_len() {
            0
        } else {
            self.data_len = self.data_len - len as u16;
            self.pkt_len = self.pkt_len - len as u32;
            assert(self.data() =~= old(self).data().take(old(self).data_len - len));
            len
        }
    }

    pub fn refcnt(&self) -> (r: u16)
        ensures
            r == self.refcnt,
    {
        self.refcnt
    }

    /// Takes one more reference.
    pub fn reference(&mut self)
        requires
            old(self).refcnt < u16::MAX,
        ensures
            *final(self) == (MBuf { refcnt: (old(self).refcnt + 1) as u16, ..*old(self) }),
    {
        self.refcnt = self.refcnt + 1;
    }

    /// Gives one reference up.
    pub fn dereference(&mut self)
        requires
            old(self).refcnt > 0,
        ensures
            *final(self) == (MBuf { refcnt: (old(self).refcnt - 1) as u16, ..*old(self) }),
    {
        self.refcnt = self.refcnt - 1;
    }

    pub fn set_refcnt(&mut self, new_value: u16)
        ensures
            *final(self) == (MBuf { refcnt: new_value, ..*old(self) }),
    {
        self.refcnt = new_value;
    }

    pub fn clear_offload_flags(&mut self)
        ensures
            *final(self) == (MBuf { ol_flags: 0, ..*old(self) }),
    {
        self.ol_flags = 0;
    }

    /// Clears the receive offload flags and returns the flags that remain.
    pub fn clear_rx_offload_flags(&mut self) -> (r: u64)
        ensures
            *final(self) == (MBuf { ol_flags: old(self).ol_flags & !(PKT_RX_OFFLOAD_MASK as u64), ..*old(self) }),
            r == final(self).ol_flags,
    {
        self.ol_flags = self.ol_flags & !(PKT_RX_OFFLOAD_MASK as u64);
        self.ol_flags
    }

    /// Requests IPv4 and TCP checksum computation on transmit.
    pub fn set_tcp_ipv4_checksum_tx_offload(&mut self)
        ensures
            *final(self) == (MBuf {
                ol_flags: old(self).ol_flags | PKT_TX_IPV4 | PKT_TX_IP_CKSUM | PKT_TX_TCP_CKSUM,
                ..*old(self)
            }),
    {
        self.ol_flags = self.ol_flags | PKT_TX_IPV4 | PKT_TX_IP_CKSUM | PKT_TX_TCP_CKSUM;
    }

    pub fn ipv4_checksum_tx_offload(&self) -> (r: bool)
        ensures
            r == (self.ol_flags & PKT_TX_IPV4 != 0 && self.ol_flags & PKT_TX_IP_CKSUM != 0),
    {
        self.ol_flags & PKT_TX_IPV4 != 0 && self.ol_flags & PKT_TX_IP_CKSUM != 0
    }

    pub fn tcp_checksum_tx_offload(&self) -> (r: bool)
        ensures
            r == (self.ol_flags & PKT_TX_TCP_CKSUM != 0),
    {
        self.ol_flags & PKT_TX_TCP_CKSUM != 0
    }

    pub fn l2_len(&self) -> (r: u64)
        ensures
            holds_field(self.tx_offload._bitfield_1, r, 0, 7),
    {
        self.tx_offload.l2_len()
    }

    pub fn set_l2_len(&mut self, val: u64)
        ensures
            replaces_field(old(self).tx_offload._bitfield_1, final(self).tx_offload._bitfield_1, 0, 7, val),
            *final(self) == (MBuf { tx_offload: final(self).tx_offload, ..*old(self) }),
    {
        self.tx_offload.set_l2_len(val)
    }

    pub fn l3_len(&self) -> (r: u64)
        ensures
            holds_field(self.tx_offload._bitfield_1, r, 7, 9),
    {
        self.tx_offload.l3_len()
    }

    pub fn set_l3_len(&mut self, val: u64)
        ensures
            replaces_field(old(self).tx_offload._bitfield_1, final(self).tx_offload._bitfield_1, 7, 9, val),
            *final(self) == (MBuf { tx_offload: final(self).tx_offload, ..*old(self) }),
    {
        self.tx_offload.set_l3_len(val)
    }

    pub fn l4_len(&self) -> (r: u64)
        ensures
            holds_field(self.tx_offload._bitfield_1, r, 16, 8),
    {
        self.tx_offload.l4_len()
    }

    pub fn set_l4_len(&mut self, val: u64)
        ensures
            replaces_field(old(self).tx_offload._bitfield_1, final(self).tx_offload._bitfield_1, 16, 8, val),
            *final(self) == (MBuf { tx_offload: final(self).tx_offload, ..*old(self) }),
    {
        self.tx_offload.set_l4_len(val)
    }
}

} // verus!
