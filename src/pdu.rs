//! A parsed packet: a buffer plus the stack of headers found in it, with
//! in-place header and payload edits.
use vstd::prelude::*;
use crate::headers::{
    be16, mac_offset, read_be16, MAC_HDR_SIZE_802_1Q, MAC_HDR_SIZE_802_1AD, slice_to_vec, ArpIpv4Header, IpHeader, MacHeader, TcpHeader, UdpHeader, ARP_HDR_SIZE, IP_HDR_SIZE,
    MAC_HDR_SIZE, TCP_HDR_SIZE, UDP_HDR_SIZE,
};
use crate::errors::ErrorKind;
use crate::check::{be_words_sum, finalize_spec, fold16, ipv4_checksum};
use crate::headers::{read_array, slice_prefix, slice_subrange, write_be16};
use crate::bitfield::{holds_field, replaces_field};
use crate::port::VIRTUAL_BUF_LEN;
use crate::mbuf::{MBuf, PKTMBUF_HEADROOM, PKT_RX_OFFLOAD_MASK, PKT_TX_IPV4, PKT_TX_IP_CKSUM, PKT_TX_TCP_CKSUM};

verus! {

/// `d` with the bytes from `pos` on replaced by `b`.
pub open spec fn splice(d: Seq<u8>, pos: int, b: Seq<u8>) -> Seq<u8> {
    d.take(pos) + b + d.skip(pos + b.len())
}

/// At most this many headers are recorded for one packet.
pub const MAX_HEADERS: usize = 5;

/// The kinds of header the parser and the header stack know.
#[derive(Clone, Copy, Debug, PartialEq, Eq, Structural)]
pub enum HeaderKind {
    Null,
    Mac,
    Ip,
    Tcp,
    Udp,
    ArpIpv4,
}

/// One recorded header: its kind and its length in bytes (the distance from
/// its start to the start of what follows it).
#[derive(Clone, Copy, Debug, PartialEq, Eq, Structural)]
pub struct HeaderEntry {
    pub kind: HeaderKind,
    pub len: usize,
}

pub open spec fn entry(kind: HeaderKind, len: int) -> HeaderEntry {
    HeaderEntry { kind, len: len as usize }
}

/// Total length of the headers in `s`.
pub open spec fn headers_len(s: Seq<HeaderEntry>) -> int
    decreases s.len(),
{
    if s.len() == 0 {
        0
    } else {
        headers_len(s.drop_last()) + s.last().len
    }
}

pub proof fn lemma_headers_len_concat(a: Seq<HeaderEntry>, b: Seq<HeaderEntry>)
    ensures
        headers_len(a + b) == headers_len(a) + headers_len(b),
    decreases b.len(),
{
    if b.len() == 0 {
        assert(a + b =~= a);
    } else {
        lemma_headers_len_concat(a, b.drop_last());
        assert((a + b).drop_last() =~= a + b.drop_last());
    }
}

pub proof fn lemma_headers_len_nonneg(s: Seq<HeaderEntry>)
    ensures
        headers_len(s) >= 0,
    decreases s.len(),
{
    if s.len() > 0 {
        lemma_headers_len_nonneg(s.drop_last());
    }
}

pub proof fn lemma_headers_len_prefix(s: Seq<HeaderEntry>, k: int)
    requires
        0 <= k <= s.len(),
    ensures
        headers_len(s.take(k)) <= headers_len(s),
    decreases s.len() - k,
{
    if k < s.len() {
        lemma_headers_len_prefix(s, k + 1);
        assert(s.take(k + 1).drop_last() =~= s.take(k));
    } else {
        assert(s.take(k) =~= s);
    }
}

/// Big-endian 16-bit value at `i`.
pub open spec fn be16_at(d: Seq<u8>, i: int) -> u16 {
    be16(d[i], d[i + 1])
}

/// The TCP header at `pos`, when its fixed part and its announced length fit.
pub open spec fn parse_tcp_spec(d: Seq<u8>, pos: int) -> Seq<HeaderEntry> {
    if pos + TCP_HDR_SIZE <= d.len() {
        let toff = (d[pos + 12] >> 4u8) as int * 4;
        if pos + toff <= d.len() {
            seq![entry(HeaderKind::Tcp, toff)]
        } else {
            seq![]
        }
    } else {
        seq![]
    }
}

/// The IPv4 header at `pos` (whose fixed part fits) and, for TCP, what follows.
pub open spec fn parse_ipv4_spec(d: Seq<u8>, pos: int) -> Seq<HeaderEntry> {
    let ioff = (d[pos] & 0xf) as int * 4;
    if pos + ioff <= d.len() {
        let ip = seq![entry(HeaderKind::Ip, ioff)];
        if d[pos + 9] == 6 && d.len() >= be16_at(d, pos + 2) + pos {
            ip + parse_tcp_spec(d, pos + ioff)
        } else {
            ip
        }
    } else {
        seq![]
    }
}

/// The ARP header at `pos` (whose fixed part fits), for Ethernet and IPv4.
pub open spec fn parse_arp_spec(d: Seq<u8>, pos: int) -> Seq<HeaderEntry> {
    if be16_at(d, pos) == 1 && be16_at(d, pos + 2) == 0x0800 {
        let aoff = 2 * d[pos + 4] + 2 * d[pos + 5] + 8;
        if pos + aoff <= d.len() {
            seq![entry(HeaderKind::ArpIpv4, aoff)]
        } else {
            seq![]
        }
    } else {
        seq![]
    }
}

/// The headers found in an Ethernet frame, outermost first. A header is
/// recorded only when the frame holds all of it.
pub open spec fn parse_spec(d: Seq<u8>) -> Seq<HeaderEntry> {
    if d.len() < MAC_HDR_SIZE {
        seq![]
    } else {
        let et = be16_at(d, 12);
        let moff = mac_offset(et);
        if moff > d.len() {
            seq![]
        } else {
            let mac = seq![entry(HeaderKind::Mac, moff)];
            if (et == 0x0800 || et == 0x08FE || et == 0x08FF) && d.len() >= moff + IP_HDR_SIZE {
                mac + parse_ipv4_spec(d, moff)
            } else if et == 0x0806 && d.len() >= moff + ARP_HDR_SIZE {
                mac + parse_arp_spec(d, moff)
            } else {
                mac
            }
        }
    }
}

/// Every parse records at most three headers, whose lengths add up to no
/// more than the frame.
pub proof fn lemma_parse_fits(d: Seq<u8>)
    ensures
        parse_spec(d).len() <= 3,
        headers_len(parse_spec(d)) <= d.len(),
{
    reveal_with_fuel(headers_len, 4);
    let p = parse_spec(d);
    if d.len() >= MAC_HDR_SIZE {
        let et = be16_at(d, 12);
        let moff = mac_offset(et);
        if moff <= d.len() {
            let mac = seq![entry(HeaderKind::Mac, moff)];
            if (et == 0x0800 || et == 0x08FE || et == 0x08FF) && d.len() >= moff + IP_HDR_SIZE {
                let ioff = (d[moff] & 0xf) as int * 4;
                lemma_headers_len_concat(mac, parse_ipv4_spec(d, moff));
                if moff + ioff <= d.len() {
                    let ip = seq![entry(HeaderKind::Ip, ioff)];
                    if d[moff + 9] == 6 && d.len() >= be16_at(d, moff + 2) + moff {
                        lemma_headers_len_concat(ip, parse_tcp_spec(d, moff + ioff));
                    }
                }
            } else if et == 0x0806 && d.len() >= moff + ARP_HDR_SIZE {
                lemma_headers_len_concat(mac, parse_arp_spec(d, moff));
            }
        }
    }
}

/// A header value, one of the kinds the stack knows.
#[derive(Clone, Copy, Debug)]
pub enum Header {
    Null,
    Mac(MacHeader),
    Ip(IpHeader),
    Tcp(TcpHeader),
    Udp(UdpHeader),
    ArpIpv4(ArpIpv4Header),
}

impl Header {
    pub open spec fn kind_spec(&self) -> HeaderKind {
        match self {
            Header::Null => HeaderKind::Null,
            Header::Mac(_) => HeaderKind::Mac,
            Header::Ip(_) => HeaderKind::Ip,
            Header::Tcp(_) => HeaderKind::Tcp,
            Header::Udp(_) => HeaderKind::Udp,
            Header::ArpIpv4(_) => HeaderKind::ArpIpv4,
        }
    }

    /// The fixed-layout bytes of the header.
    pub open spec fn bytes_spec(&self) -> Seq<u8> {
        match self {
            Header::Null => seq![],
            Header::Mac(h) => h.bytes@,
            Header::Ip(h) => h.bytes@,
            Header::Tcp(h) => h.bytes@,
            Header::Udp(h) => h.bytes@,
            Header::ArpIpv4(h) => h.bytes@,
        }
    }

    /// Bytes from the start of the header to its payload, as it announces.
    pub open spec fn offset_spec(&self) -> int {
        match self {
            Header::Null => 0,
            Header::Mac(h) => mac_offset(h.etype_spec()),
            Header::Ip(h) => h.offset_spec(),
            Header::Tcp(h) => h.offset_spec(),
            Header::Udp(h) => UDP_HDR_SIZE as int,
            Header::ArpIpv4(h) => h.offset_spec(),
        }
    }

    pub fn kind(&self) -> (r: HeaderKind)
        ensures
            r == self.kind_spec(),
    {
        match self {
            Header::Null => HeaderKind::Null,
            Header::Mac(_) => HeaderKind::Mac,
            Header::Ip(_) => HeaderKind::Ip,
            Header::Tcp(_) => HeaderKind::Tcp,
            Header::Udp(_) => HeaderKind::Udp,
            Header::ArpIpv4(_) => HeaderKind::ArpIpv4,
        }
    }

    /// The header's length, or `None` for the null header.
    pub fn offset(&self) -> (r: Option<usize>)
        ensures
            self is Null ==> r is None,
            !(self is Null) ==> r == Some(self.offset_spec() as usize),
    {
        match self {
            Header::Null => None,
            Header::Mac(h) => Some(h.offset()),
            Header::Ip(h) => Some(h.offset()),
            Header::Tcp(h) => Some(h.offset()),
            Header::Udp(h) => Some(h.offset()),
            Header::ArpIpv4(h) => Some(h.offset()),
        }
    }

    /// The header's fixed-layout bytes.
    pub fn as_bytes(&self) -> (r: Vec<u8>)
        ensures
            r@ == self.bytes_spec(),
    {
        match self {
            Header::Null => Vec::new(),
            Header::Mac(h) => slice_to_vec(h.bytes.as_slice()),
            Header::Ip(h) => slice_to_vec(h.bytes.as_slice()),
            Header::Tcp(h) => slice_to_vec(h.bytes.as_slice()),
            Header::Udp(h) => slice_to_vec(h.bytes.as_slice()),
            Header::ArpIpv4(h) => slice_to_vec(h.bytes.as_slice()),
        }
    }

    pub fn as_mac(&self) -> (r: Option<MacHeader>)
        ensures
            r == (match self {
                Header::Mac(h) => Some(*h),
                _ => None,
            }),
    {
        match self {
            Header::Mac(h) => Some(*h),
            _ => None,
        }
    }

    pub fn as_ip(&self) -> (r: Option<IpHeader>)
        ensures
            r == (match self {
                Header::Ip(h) => Some(*h),
                _ => None,
            }),
    {
        match self {
            Header::Ip(h) => Some(*h),
            _ => None,
        }
    }

    pub fn as_tcp(&self) -> (r: Option<TcpHeader>)
        ensures
            r == (match self {
                Header::Tcp(h) => Some(*h),
                _ => None,
            }),
    {
        match self {
            Header::Tcp(h) => Some(*h),
            _ => None,
        }
    }

    pub fn as_udp(&self) -> (r: Option<UdpHeader>)
        ensures
            r == (match self {
                Header::Udp(h) => Some(*h),
                _ => None,
            }),
    {
        match self {
            Header::Udp(h) => Some(*h),
            _ => None,
        }
    }

    pub fn as_arpipv4(&self) -> (r: Option<ArpIpv4Header>)
        ensures
            r == (match self {
                Header::ArpIpv4(h) => Some(*h),
                _ => None,
            }),
    {
        match self {
            Header::ArpIpv4(h) => Some(*h),
            _ => None,
        }
    }
}

/// Number of fixed-layout bytes of a header of kind `k`.
pub open spec fn kind_size(k: HeaderKind) -> int {
    match k {
        HeaderKind::Null => 0,
        HeaderKind::Mac => MAC_HDR_SIZE as int,
        HeaderKind::Ip => IP_HDR_SIZE as int,
        HeaderKind::Tcp => TCP_HDR_SIZE as int,
        HeaderKind::Udp => UDP_HDR_SIZE as int,
        HeaderKind::ArpIpv4 => ARP_HDR_SIZE as int,
    }
}

pub fn header_size(k: HeaderKind) -> (r: usize)
    ensures
        r == kind_size(k),
{
    match k {
        HeaderKind::Null => 0,
        HeaderKind::Mac => MAC_HDR_SIZE,
        HeaderKind::Ip => IP_HDR_SIZE,
        HeaderKind::Tcp => TCP_HDR_SIZE,
        HeaderKind::Udp => UDP_HDR_SIZE,
        HeaderKind::ArpIpv4 => ARP_HDR_SIZE,
    }
}

/// The headers of a packet, outermost first.
pub struct HeaderStack {
    pub stack: Vec<HeaderEntry>,
}

impl HeaderStack {
    pub fn new() -> (r: HeaderStack)
        ensures
            r.stack@ == Seq::<HeaderEntry>::empty(),
    {
        HeaderStack { stack: Vec::new() }
    }

    pub fn push(&mut self, h: HeaderEntry)
        ensures
            final(self).stack@ == old(self).stack@.push(h),
    {
        self.stack.push(h);
    }

    pub fn count(&self) -> (r: usize)
        ensures
            r == self.stack@.len(),
    {
        self.stack.len()
    }

    pub fn get(&self, which: usize) -> (r: HeaderEntry)
        requires
            which < self.stack@.len(),
        ensures
            r == self.stack@[which as int],
    {
        self.stack[which]
    }
}

/// A packet: its buffer and the headers recorded for it.
pub struct Pdu {
    pub header_stack: HeaderStack,
    pub mbuf: MBuf,
}

impl Pdu {
    /// The packet data.
    pub open spec fn data(&self) -> Seq<u8> {
        self.mbuf.data()
    }

    /// The recorded headers, outermost first.
    pub open spec fn headers_spec(&self) -> Seq<HeaderEntry> {
        self.header_stack.stack@
    }

    /// The buffer is consistent, and the recorded headers fit in the data.
    pub open spec fn wf(&self) -> bool {
        &&& self.mbuf.wf()
        &&& self.headers_spec().len() <= MAX_HEADERS
        &&& headers_len(self.headers_spec()) <= self.data().len()
    }

    /// Where header `which` starts.
    pub open spec fn header_start(&self, which: int) -> int {
        headers_len(self.headers_spec().take(which))
    }

    /// Where the payload of header `which` starts: right after it.
    pub open spec fn payload_start(&self, which: int) -> int {
        headers_len(self.headers_spec().take(which + 1))
    }

    /// The payload of header `which`: everything after it, padding included.
    pub open spec fn payload_spec(&self, which: int) -> Seq<u8> {
        self.data().subrange(self.payload_start(which), self.data().len() as int)
    }

    /// The fixed-layout bytes of header `which` lie inside the data.
    pub open spec fn header_fits(&self, which: int) -> bool {
        self.header_start(which) + kind_size(self.headers_spec()[which].kind) <= self.data().len()
    }

    /// Byte `i` of the packet data.
    fn byte(&self, i: usize) -> (r: u8)
        requires
            self.mbuf.wf(),
            i < self.mbuf.data_len,
        ensures
            r == self.data()[i as int],
    {
        self.mbuf.buf[self.mbuf.data_off as usize + i]
    }

    fn be16_at(&self, i: usize) -> (r: u16)
        requires
            self.mbuf.wf(),
            i + 1 < self.mbuf.data_len,
        ensures
            r == be16_at(self.data(), i as int),
    {
        read_be16(self.byte(i), self.byte(i + 1))
    }

    /// A packet over `mbuf`, parsed, taking over the reference the caller holds.
    pub fn pdu_from_mbuf_no_increment(mbuf: MBuf) -> (r: Pdu)
        requires
            mbuf.wf(),
        ensures
            r.wf(),
            r.mbuf == mbuf,
            r.headers_spec() == parse_spec(mbuf.data()),
    {
        let mut pdu = Pdu { header_stack: HeaderStack::new(), mbuf };
        pdu.parse();
        pdu
    }

    /// A packet over `mbuf`, parsed, taking a reference of its own.
    pub fn pdu_from_mbuf(mbuf: MBuf) -> (r: Pdu)
        requires
            mbuf.wf(),
            mbuf.refcnt < u16::MAX,
        ensures
            r.wf(),
            r.mbuf == (MBuf { refcnt: (mbuf.refcnt + 1) as u16, ..mbuf }),
            r.headers_spec() == parse_spec(mbuf.data()),
    {
        let mut m = mbuf;
        m.reference();
        Pdu::pdu_from_mbuf_no_increment(m)
    }

    fn parse_tcp(&mut self, pos: usize)
        requires
            old(self).mbuf.wf(),
            old(self).headers_spec().len() <= 2,
            pos <= old(self).mbuf.data_len,
        ensures
            final(self).mbuf == old(self).mbuf,
            final(self).headers_spec() == old(self).headers_spec() + parse_tcp_spec(old(self).data(), pos as int),
    {
        let l = self.mbuf.data_len();
        if pos + TCP_HDR_SIZE <= l {
            let toff = (self.byte(pos + 12) >> 4u8) as usize * 4;
            if pos + toff <= l {
                self.header_stack.push(HeaderEntry { kind: HeaderKind::Tcp, len: toff });
                assert(self.headers_spec() =~= old(self).headers_spec() + parse_tcp_spec(old(self).data(), pos as int));
                return ;
            }
        }
        assert(self.headers_spec() =~= old(self).headers_spec() + parse_tcp_spec(old(self).data(), pos as int));
    }

    fn parse_ipv4(&mut self, pos: usize)
        requires
            old(self).mbuf.wf(),
            old(self).headers_spec().len() <= 1,
            pos + IP_HDR_SIZE <= old(self).mbuf.data_len,
        ensures
            final(self).mbuf == old(self).mbuf,
            final(self).headers_spec() == old(self).headers_spec() + parse_ipv4_spec(old(self).data(), pos as int),
    {
        let l = self.mbuf.data_len();
        let ioff = (self.byte(pos) & 0xf) as usize * 4;
        if pos + ioff <= l {
            let ghost before = self.headers_spec();
            self.header_stack.push(HeaderEntry { kind: HeaderKind::Ip, len: ioff });
            let ip_length = self.be16_at(pos + 2);
            let ip_protocol = self.byte(pos + 9);
            if ip_protocol == 6 && l >= ip_length as usize + pos {
                self.parse_tcp(pos + ioff);
                assert(self.headers_spec() =~= before + parse_ipv4_spec(old(self).data(), pos as int));
            } else {
                assert(self.headers_spec() =~= before + parse_ipv4_spec(old(self).data(), pos as int));
            }
        } else {
            assert(self.headers_spec() =~= old(self).headers_spec() + parse_ipv4_spec(old(self).data(), pos as int));
        }
    }

    fn parse_arp(&mut self, pos: usize)
        requires
            old(self).mbuf.wf(),
            old(self).headers_spec().len() <= 1,
            pos + ARP_HDR_SIZE <= old(self).mbuf.data_len,
        ensures
            final(self).mbuf == old(self).mbuf,
            final(self).headers_spec() == old(self).headers_spec() + parse_arp_spec(old(self).data(), pos as int),
    {
        let l = self.mbuf.data_len();
        if self.be16_at(pos) == 1 && self.be16_at(pos + 2) == 0x0800 {
            let aoff = 2 * self.byte(pos + 4) as usize + 2 * self.byte(pos + 5) as usize + 8;
            if pos + aoff <= l {
                self.header_stack.push(HeaderEntry { kind: HeaderKind::ArpIpv4, len: aoff });
            }
        }
        assert(self.headers_spec() =~= old(self).headers_spec() + parse_arp_spec(old(self).data(), pos as int));
    }

    /// Records the headers of the Ethernet frame, as deep as it holds them
    /// whole, in place of what was recorded before; returns how many.
    pub fn parse(&mut self) -> (r: usize)
        requires
            old(self).mbuf.wf(),
        ensures
            final(self).wf(),
            final(self).mbuf == old(self).mbuf,
            final(self).headers_spec() == parse_spec(old(self).data()),
            r == final(self).headers_spec().len(),
    {
        self.header_stack = HeaderStack::new();
        let l = self.mbuf.data_len();
        proof {
            lemma_parse_fits(self.data());
        }
        if l < MAC_HDR_SIZE {
            assert(self.headers_spec() =~= parse_spec(self.data()));
            return 0;
        }
        let etype = self.be16_at(12);
        let moff: usize = if etype == 0x8100 {
            MAC_HDR_SIZE_802_1Q
        } else if etype == 0x9100 {
            MAC_HDR_SIZE_802_1AD
        } else {
            MAC_HDR_SIZE
        };
        if moff > l {
            assert(self.headers_spec() =~= parse_spec(self.data()));
            return 0;
        }
        self.header_stack.push(HeaderEntry { kind: HeaderKind::Mac, len: moff });
        if (etype == 0x0800 || etype == 0x08FE || etype == 0x08FF) && l >= moff + IP_HDR_SIZE {
            self.parse_ipv4(moff);
        } else if etype == 0x0806 && l >= moff + ARP_HDR_SIZE {
            self.parse_arp(moff);
        }
        assert(self.headers_spec() =~= parse_spec(self.data()));
        self.header_stack.count()
    }

    /// Overwrites byte `i` of the packet data.
    fn set_byte(&mut self, i: usize, v: u8)
        requires
            old(self).mbuf.wf(),
            i < old(self).mbuf.data_len,
        ensures
            final(self).mbuf.wf(),
            final(self).data() == old(self).data().update(i as int, v),
            final(self).header_stack == old(self).header_stack,
            final(self).mbuf.data_len == old(self).mbuf.data_len,
            final(self).mbuf.data_off == old(self).mbuf.data_off,
            final(self).mbuf.buf_len == old(self).mbuf.buf_len,
            final(self).mbuf.refcnt == old(self).mbuf.refcnt,
            final(self).mbuf.ol_flags == old(self).mbuf.ol_flags,
            final(self).mbuf.port == old(self).mbuf.port,
            final(self).mbuf.metadata@ == old(self).mbuf.metadata@,
    {
        let idx = self.mbuf.data_off as usize + i;
        self.mbuf.buf.set(idx, v);
        assert(self.data() =~= old(self).data().update(i as int, v));
    }

    /// Writes `src` over the data starting at `pos`.
    fn write_bytes(&mut self, pos: usize, src: &[u8])
        requires
            old(self).mbuf.wf(),
            pos + src@.len() <= old(self).mbuf.data_len,
        ensures
            final(self).mbuf.wf(),
            final(self).data() == splice(old(self).data(), pos as int, src@),
            final(self).header_stack == old(self).header_stack,
            final(self).mbuf.data_len == old(self).mbuf.data_len,
            final(self).mbuf.data_off == old(self).mbuf.data_off,
            final(self).mbuf.buf_len == old(self).mbuf.buf_len,
            final(self).mbuf.refcnt == old(self).mbuf.refcnt,
            final(self).mbuf.ol_flags == old(self).mbuf.ol_flags,
            final(self).mbuf.port == old(self).mbuf.port,
            final(self).mbuf.metadata@ == old(self).mbuf.metadata@,
    {
        let mut i: usize = 0;
        while i < src.len()
            invariant
                self.mbuf.wf(),
                pos + src@.len() <= self.mbuf.data_len,
                self.header_stack == old(self).header_stack,
                self.mbuf.data_len == old(self).mbuf.data_len,
                self.mbuf.data_off == old(self).mbuf.data_off,
                self.mbuf.buf_len == old(self).mbuf.buf_len,
                self.mbuf.refcnt == old(self).mbuf.refcnt,
                self.mbuf.ol_flags == old(self).mbuf.ol_flags,
                self.mbuf.port == old(self).mbuf.port,
                self.mbuf.metadata@ == old(self).mbuf.metadata@,
                i <= src@.len(),
                self.data().len() == old(self).data().len(),
                forall|k: int| 0 <= k < pos ==> self.data()[k] == old(self).data()[k],
                forall|k: int| pos <= k < pos + i ==> self.data()[k] == src@[k - pos],
                forall|k: int| pos + src@.len() <= k < self.data().len() ==> self.data()[k] == old(self).data()[k],
            decreases src@.len() - i,
        {
            self.set_byte(pos + i, src[i]);
            i += 1;
        }
        assert(self.data() =~= splice(old(self).data(), pos as int, src@));
    }

    /// Overwrites the last `count` bytes of the data with `byte`.
    fn fill_tail(&mut self, count: usize, byte: u8)
        requires
            old(self).mbuf.wf(),
            count <= old(self).mbuf.data_len,
        ensures
            final(self).mbuf.wf(),
            final(self).data() == old(self).data().take(old(self).data().len() - count) + Seq::new(
                count as nat,
                |k: int| byte,
            ),
            final(self).header_stack == old(self).header_stack,
            final(self).mbuf.data_len == old(self).mbuf.data_len,
            final(self).mbuf.buf_len == old(self).mbuf.buf_len,
            final(self).mbuf.refcnt == old(self).mbuf.refcnt,
    {
        let n = self.data_len();
        let start = n - count;
        let mut i: usize = start;
        while i < n
            invariant
                self.mbuf.wf(),
                n == self.mbuf.data_len,
                start == n - count,
                self.header_stack == old(self).header_stack,
                self.mbuf.data_len == old(self).mbuf.data_len,
                self.mbuf.buf_len == old(self).mbuf.buf_len,
                self.mbuf.refcnt == old(self).mbuf.refcnt,
                start <= i <= n,
                self.data().len() == n,
                forall|k: int| 0 <= k < start ==> self.data()[k] == old(self).data()[k],
                forall|k: int| start <= k < i ==> self.data()[k] == byte,
            decreases n - i,
        {
            self.set_byte(i, byte);
            i += 1;
        }
        assert(self.data() =~= old(self).data().take(old(self).data().len() - count) + Seq::new(
            count as nat,
            |k: int| byte,
        ));
    }

    /// Where header `which` starts.
    pub fn header_offset(&self, which: usize) -> (r: usize)
        requires
            self.wf(),
            which < self.headers_spec().len(),
        ensures
            r == self.header_start(which as int),
            r + self.headers_spec()[which as int].len == self.payload_start(which as int),
            self.payload_start(which as int) <= self.data().len(),
    {
        proof {
            lemma_headers_len_prefix(self.headers_spec(), which + 1);
            assert(self.headers_spec().take(which + 1).drop_last() =~= self.headers_spec().take(
                which as int,
            ));
            assert(self.headers_spec().take(which + 1).last() == self.headers_spec()[which as int]);
            assert(headers_len(self.headers_spec().take(which + 1)) == headers_len(
                self.headers_spec().take(which as int),
            ) + self.headers_spec()[which as int].len);
            if which > 0 {
                assert(self.headers_spec().take(which as int) =~= self.headers_spec().take(
                    (which - 1) + 1,
                ));
            } else {
                assert(self.headers_spec().take(0).len() == 0);
            }
        }
        if which == 0 {
            0
        } else {
            let r = self.data_len() - self.payload_size(which - 1);
            r
        }
    }

    /// Header `which`, read from the data.
    pub fn get_header(&self, which: usize) -> (r: Header)
        requires
            self.wf(),
            which < self.headers_spec().len(),
            self.header_fits(which as int),
        ensures
            r.kind_spec() == self.headers_spec()[which as int].kind,
            r.bytes_spec() == self.data().subrange(
                self.header_start(which as int),
                self.header_start(which as int) + kind_size(r.kind_spec()),
            ),
    {
        let start = self.header_offset(which);
        let base = self.mbuf.data_off as usize + start;
        let ghost d = self.data();
        let ghost off = self.mbuf.data_off as int;
        let kind = self.header_stack.get(which).kind;
        let buf = self.mbuf.buf.as_slice();
        let r = match kind {
            HeaderKind::Null => Header::Null,
            HeaderKind::Mac => Header::Mac(MacHeader { bytes: read_array(buf, base) }),
            HeaderKind::Ip => Header::Ip(IpHeader { bytes: read_array(buf, base) }),
            HeaderKind::Tcp => Header::Tcp(TcpHeader { bytes: read_array(buf, base) }),
            HeaderKind::Udp => Header::Udp(UdpHeader { bytes: read_array(buf, base) }),
            HeaderKind::ArpIpv4 => Header::ArpIpv4(ArpIpv4Header { bytes: read_array(buf, base) }),
        };
        assert(r.bytes_spec() =~= d.subrange(start as int, start + kind_size(kind)));
        r
    }

    /// Overwrites header `which` in place with `hdr`, which must be of the
    /// same kind and announce the same length; the header must lie inside the
    /// data.
    pub fn replace_header(&mut self, which: usize, hdr: &Header) -> (r: Result<(), ErrorKind>)
        requires
            old(self).wf(),
            which < old(self).headers_spec().len(),
        ensures
            final(self).wf(),
            final(self).headers_spec() == old(self).headers_spec(),
            final(self).data().len() == old(self).data().len(),
            r is Ok <==> (hdr.kind_spec() == old(self).headers_spec()[which as int].kind
                && hdr.offset_spec() == old(self).headers_spec()[which as int].len
                && old(self).header_fits(which as int)),
            r is Ok ==> final(self).data() == splice(
                old(self).data(),
                old(self).header_start(which as int),
                hdr.bytes_spec(),
            ),
            r is Err ==> *final(self) == *old(self),
            (r is Err && hdr.kind_spec() != old(self).headers_spec()[which as int].kind) ==> r
                == Err::<(), ErrorKind>(ErrorKind::HeaderMismatch),
    {
        let e = self.header_stack.get(which);
        if hdr.kind() != e.kind {
            return Err(ErrorKind::HeaderMismatch);
        }
        match hdr.offset() {
            Some(o) => {
                if o != e.len {
                    return Err(ErrorKind::HeaderMismatch);
                }
            },
            None => {
                if e.len != 0 {
                    return Err(ErrorKind::HeaderMismatch);
                }
            },
        }
        let start = self.header_offset(which);
        let bytes = hdr.as_bytes();
        if bytes.len() > self.data_len() - start {
            return Err(ErrorKind::BadOffset(start));
        }
        self.write_bytes(start, bytes.as_slice());
        Ok(())
    }

    /// A packet over a freshly allocated buffer, with no headers recorded.
    pub fn new_pdu(mbuf: MBuf) -> (r: Pdu)
        requires
            mbuf.wf(),
        ensures
            r.wf(),
            r.mbuf == mbuf,
            r.headers_spec() == Seq::<HeaderEntry>::empty(),
    {
        Pdu { header_stack: HeaderStack::new(), mbuf }
    }

    /// A batch of 32 packets over fresh buffers, with no headers recorded.
    pub fn new_pdu_array() -> (r: Vec<Pdu>)
        ensures
            r@.len() == 32,
            forall|i: int| 0 <= i < 32 ==> (#[trigger] r@[i]).wf() && r@[i].headers_spec().len() == 0
                && r@[i].mbuf.refcnt == 1 && r@[i].data().len() == 0,
    {
        let mut v: Vec<Pdu> = Vec::with_capacity(32);
        let mut i: usize = 0;
        while i < 32
            invariant
                i <= 32,
                v@.len() == i,
                forall|k: int| 0 <= k < i ==> (#[trigger] v@[k]).wf() && v@[k].headers_spec().len() == 0
                    && v@[k].mbuf.refcnt == 1 && v@[k].data().len() == 0,
            decreases 32 - i,
        {
            v.push(Pdu::new_pdu(MBuf::new(VIRTUAL_BUF_LEN, PKTMBUF_HEADROOM)));
            i += 1;
        }
        v
    }

    /// A packet over `mbuf` holding a copy of this packet's data, parsed.
    pub fn copy_use_mbuf(&self, mbuf: MBuf) -> (r: Pdu)
        requires
            self.wf(),
            mbuf.wf(),
            mbuf.buf_len >= self.mbuf.data_off + self.mbuf.data_len,
        ensures
            r.wf(),
            r.data() == self.data(),
            r.mbuf.refcnt == mbuf.refcnt,
            r.headers_spec() == parse_spec(self.data()),
    {
        let mut m = mbuf;
        self.mbuf.copy_to(&mut m);
        Pdu::pdu_from_mbuf_no_increment(m)
    }

    /// Hands the buffer over to the caller, ending this view of it.
    pub fn get_mbuf(self) -> (r: MBuf)
        ensures
            r == self.mbuf,
    {
        self.mbuf
    }

    pub fn refcnt(&self) -> (r: u16)
        ensures
            r == self.mbuf.refcnt,
    {
        self.mbuf.refcnt()
    }

    /// Gives up one reference; returns the count that remains.
    pub fn dereference_mbuf(&mut self) -> (r: u16)
        requires
            old(self).mbuf.refcnt > 0,
        ensures
            final(self).mbuf == (MBuf { refcnt: (old(self).mbuf.refcnt - 1) as u16, ..old(self).mbuf }),
            final(self).header_stack == old(self).header_stack,
            r == final(self).mbuf.refcnt,
    {
        self.mbuf.dereference();
        self.mbuf.refcnt()
    }

    pub fn port_id(&self) -> (r: u16)
        ensures
            r == self.mbuf.port,
    {
        self.mbuf.port
    }

    /// Grows the data at its end by `increase_by` bytes of tailroom; returns
    /// `increase_by`, or 0 (changing nothing) when the tailroom is smaller.
    pub fn increase_payload_size(&mut self, increase_by: usize) -> (r: usize)
        requires
            old(self).wf(),
        ensures
            final(self).wf(),
            final(self).headers_spec() == old(self).headers_spec(),
            increase_by > old(self).mbuf.tailroom() ==> r == 0 && *final(self) == *old(self),
            increase_by <= old(self).mbuf.tailroom() ==> {
                &&& r == increase_by
                &&& final(self).data().len() == old(self).data().len() + increase_by
                &&& final(self).data().take(old(self).data().len() as int) == old(self).data()
                &&& final(self).mbuf.refcnt == old(self).mbuf.refcnt
            },
    {
        let r = self.mbuf.add_data_end(increase_by);
        proof {
            if r > 0 {
                assert(self.data().take(old(self).data().len() as int) =~= old(self).data());
            }
        }
        r
    }

    pub fn add_padding(&mut self, nbytes: usize) -> (r: usize)
        requires
            old(self).wf(),
        ensures
            final(self).wf(),
            final(self).headers_spec() == old(self).headers_spec(),
            nbytes > old(self).mbuf.tailroom() ==> r == 0 && *final(self) == *old(self),
            nbytes <= old(self).mbuf.tailroom() ==> {
                &&& r == nbytes
                &&& final(self).data().len() == old(self).data().len() + nbytes
                &&& final(self).data().take(old(self).data().len() as int) == old(self).data()
            },
    {
        self.increase_payload_size(nbytes)
    }

    /// Grows the data at its end by `size` bytes, or fails with
    /// `FailedAllocation` (changing nothing) when the tailroom is smaller.
    pub fn add_to_payload_tail(&mut self, size: usize) -> (r: Result<(), ErrorKind>)
        requires
            old(self).wf(),
        ensures
            final(self).wf(),
            final(self).headers_spec() == old(self).headers_spec(),
            r is Ok <==> size <= old(self).mbuf.tailroom(),
            r is Err ==> r == Err::<(), ErrorKind>(ErrorKind::FailedAllocation) && *final(self) == *old(self),
            r is Ok ==> final(self).data().len() == old(self).data().len() + size,
    {
        let added = self.mbuf.add_data_end(size);
        if added >= size {
            Ok(())
        } else {
            Err(ErrorKind::FailedAllocation)
        }
    }

    /// Length of everything after the recorded headers.
    pub open spec fn tail_payload_len(&self) -> int {
        self.data().len() - headers_len(self.headers_spec())
    }

    /// Removes `trim_by` bytes from the end of the data; returns `trim_by`, or
    /// 0 (changing nothing) when fewer bytes follow the recorded headers.
    pub fn trim_payload_size(&mut self, trim_by: usize) -> (r: usize)
        requires
            old(self).wf(),
        ensures
            final(self).wf(),
            final(self).headers_spec() == old(self).headers_spec(),
            trim_by > old(self).tail_payload_len() ==> r == 0 && *final(self) == *old(self),
            trim_by <= old(self).tail_payload_len() ==> {
                &&& r == trim_by
                &&& final(self).data() == old(self).data().take(old(self).data().len() - trim_by)
            },
    {
        let count = self.header_stack.count();
        let room = if count == 0 {
            self.data_len()
        } else {
            proof {
                assert(self.headers_spec().take(count as int) =~= self.headers_spec());
            }
            self.payload_size(count - 1)
        };
        if trim_by > room {
            0
        } else {
            self.mbuf.remove_data_end(trim_by)
        }
    }

    /// Writes `payload` at the start of the payload of header `which`,
    /// growing the data when the payload is shorter and the tailroom allows;
    /// returns how many bytes were written.
    pub fn copy_payload_from_u8_slice(&mut self, payload: &[u8], which: usize) -> (r: usize)
        requires
            old(self).wf(),
            which < old(self).headers_spec().len(),
        ensures
            final(self).wf(),
            final(self).headers_spec() == old(self).headers_spec(),
            ({
                let ps = old(self).payload_spec(which as int).len();
                let n = payload@.len();
                let start = old(self).payload_start(which as int);
                let grown = ps < n && n - ps <= old(self).mbuf.tailroom();
                &&& r == (if ps >= n || grown {
                    n
                } else {
                    ps
                })
                &&& final(self).data().len() == (if grown {
                    start + n
                } else {
                    old(self).data().len() as int
                })
                &&& final(self).data().take(start) == old(self).data().take(start)
                &&& final(self).data().subrange(start, start + r) == payload@.take(r as int)
                &&& !grown ==> final(self).data().skip(start + r) == old(self).data().skip(
                    start + r,
                )
            }),
    {
        let copy_len = payload.len();
        let ps = self.payload_size(which);
        let ghost d0 = self.data();
        let should_copy = if ps < copy_len {
            let increment = copy_len - ps;
            ps + self.increase_payload_size(increment)
        } else {
            copy_len
        };
        let ghost d1 = self.data();
        let start = self.data_len() - self.payload_size(which);
        assert(start == old(self).payload_start(which as int)) by {
            assert(self.headers_spec() == old(self).headers_spec());
        }
        let src = slice_prefix(payload, should_copy);
        self.write_bytes(start, src.as_slice());
        proof {
            assert(self.data().take(start as int) =~= d0.take(start as int)) by {
                assert(d1.take(d0.len() as int) == d0 || d1 == d0);
            }
            assert(self.data().subrange(start as int, start + should_copy) =~= payload@.take(
                should_copy as int,
            ));
            if !(ps < copy_len && copy_len - ps <= old(self).mbuf.tailroom()) {
                assert(self.data().skip(start + should_copy) =~= d0.skip(start + should_copy));
            }
        }
        should_copy
    }

    /// Fills the last `min(len, payload size)` bytes of the innermost payload
    /// with `byte`; returns how many bytes were filled.
    pub fn write_from_tail_down(&mut self, len: usize, byte: u8) -> (r: usize)
        requires
            old(self).wf(),
            old(self).headers_spec().len() > 0,
        ensures
            final(self).wf(),
            final(self).headers_spec() == old(self).headers_spec(),
            r == (if old(self).tail_payload_len() < len {
                old(self).tail_payload_len()
            } else {
                len as int
            }),
            final(self).data() == old(self).data().take(old(self).data().len() - r) + Seq::new(
                r as nat,
                |k: int| byte,
            ),
    {
        let count = self.header_stack.count();
        proof {
            assert(self.headers_spec().take(count as int) =~= self.headers_spec());
        }
        let payload_size = self.payload_size(count - 1);
        if payload_size > 0 {
            let n = if payload_size < len {
                payload_size
            } else {
                len
            };
            self.fill_tail(n, byte);
            n
        } else {
            assert(self.data().take(self.data().len() as int) + Seq::new(0, |k: int| byte) =~= self.data());
            0
        }
    }

    pub fn set_tcp_ipv4_checksum_tx_offload(&mut self)
        ensures
            final(self).mbuf == (MBuf {
                ol_flags: old(self).mbuf.ol_flags | PKT_TX_IPV4 | PKT_TX_IP_CKSUM | PKT_TX_TCP_CKSUM,
                ..old(self).mbuf
            }),
            final(self).header_stack == old(self).header_stack,
    {
        self.mbuf.set_tcp_ipv4_checksum_tx_offload();
    }

    pub fn ipv4_checksum_tx_offload(&self) -> (r: bool)
        ensures
            r == (self.mbuf.ol_flags & PKT_TX_IPV4 != 0 && self.mbuf.ol_flags & PKT_TX_IP_CKSUM != 0),
    {
        self.mbuf.ipv4_checksum_tx_offload()
    }

    pub fn tcp_checksum_tx_offload(&self) -> (r: bool)
        ensures
            r == (self.mbuf.ol_flags & PKT_TX_TCP_CKSUM != 0),
    {
        self.mbuf.tcp_checksum_tx_offload()
    }

    pub fn ol_flags(&self) -> (r: u64)
        ensures
            r == self.mbuf.ol_flags,
    {
        self.mbuf.ol_flags
    }

    pub fn clear_offload_flags(&mut self)
        ensures
            final(self).mbuf == (MBuf { ol_flags: 0, ..old(self).mbuf }),
            final(self).header_stack == old(self).header_stack,
    {
        self.mbuf.clear_offload_flags()
    }

    pub fn clear_rx_offload_flags(&mut self) -> (r: u64)
        ensures
            final(self).mbuf == (MBuf {
                ol_flags: old(self).mbuf.ol_flags & !(PKT_RX_OFFLOAD_MASK as u64),
                ..old(self).mbuf
            }),
            final(self).header_stack == old(self).header_stack,
            r == final(self).mbuf.ol_flags,
    {
        self.mbuf.clear_rx_offload_flags()
    }

    pub fn l2_len(&self) -> (r: u64)
        ensures
            holds_field(self.mbuf.tx_offload._bitfield_1, r, 0, 7),
    {
        self.mbuf.l2_len()
    }

    pub fn set_l2_len(&mut self, val: u64)
        ensures
            replaces_field(old(self).mbuf.tx_offload._bitfield_1, final(self).mbuf.tx_offload._bitfield_1, 0, 7, val),
            final(self).mbuf == (MBuf { tx_offload: final(self).mbuf.tx_offload, ..old(self).mbuf }),
            final(self).header_stack == old(self).header_stack,
    {
        self.mbuf.set_l2_len(val)
    }

    pub fn l3_len(&self) -> (r: u64)
        ensures
            holds_field(self.mbuf.tx_offload._bitfield_1, r, 7, 9),
    {
        self.mbuf.l3_len()
    }

    pub fn set_l3_len(&mut self, val: u64)
        ensures
            replaces_field(old(self).mbuf.tx_offload._bitfield_1, final(self).mbuf.tx_offload._bitfield_1, 7, 9, val),
            final(self).mbuf == (MBuf { tx_offload: final(self).mbuf.tx_offload, ..old(self).mbuf }),
            final(self).header_stack == old(self).header_stack,
    {
        self.mbuf.set_l3_len(val)
    }

    pub fn l4_len(&self) -> (r: u64)
        ensures
            holds_field(self.mbuf.tx_offload._bitfield_1, r, 16, 8),
    {
        self.mbuf.l4_len()
    }

    pub fn set_l4_len(&mut self, val: u64)
        ensures
            replaces_field(old(self).mbuf.tx_offload._bitfield_1, final(self).mbuf.tx_offload._bitfield_1, 16, 8, val),
            final(self).mbuf == (MBuf { tx_offload: final(self).mbuf.tx_offload, ..old(self).mbuf }),
            final(self).header_stack == old(self).header_stack,
    {
        self.mbuf.set_l4_len(val)
    }

    /// Number of recorded headers.
    pub fn header_count(&self) -> (r: usize)
        ensures
            r == self.headers_spec().len(),
    {
        self.header_stack.count()
    }

    /// Length of the packet data, padding included.
    pub fn data_len(&self) -> (r: usize)
        requires
            self.mbuf.wf(),
        ensures
            r == self.data().len(),
    {
        self.mbuf.data_len()
    }

    pub fn get_tailroom(&self) -> (r: usize)
        requires
            self.wf(),
        ensures
            r == self.mbuf.tailroom(),
    {
        self.mbuf.pkt_tailroom()
    }

    pub fn headers(&self) -> (r: &HeaderStack)
        ensures
            r == self.header_stack,
    {
        &self.header_stack
    }

    /// Size of the payload of header `which`, padding included.
    pub fn payload_size(&self, which: usize) -> (r: usize)
        requires
            self.wf(),
            which < self.headers_spec().len(),
        ensures
            r == self.data().len() - self.payload_start(which as int),
            r == self.payload_spec(which as int).len(),
            r <= self.data().len(),
            0 <= self.payload_start(which as int) <= self.data().len(),
    {
        proof {
            lemma_headers_len_prefix(self.headers_spec(), which + 1);
            lemma_headers_len_nonneg(self.headers_spec().take(which + 1));
        }
        let mut sum: usize = 0;
        let mut i: usize = 0;
        while i <= which
            invariant
                self.wf(),
                which < self.headers_spec().len(),
                i <= which + 1,
                sum == headers_len(self.headers_spec().take(i as int)),
                headers_len(self.headers_spec().take(which + 1)) <= self.data().len(),
            decreases which + 1 - i,
        {
            proof {
                assert(self.headers_spec().take(i + 1).drop_last() =~= self.headers_spec().take(i as int));
                lemma_headers_len_prefix(self.headers_spec().take(which + 1), i + 1);
                assert(self.headers_spec().take(which + 1).take(i + 1) =~= self.headers_spec().take(i + 1));
                lemma_headers_len_nonneg(self.headers_spec().take(i as int));
            }
            sum = sum + self.header_stack.get(i).len;
            i += 1;
        }
        self.data_len() - sum
    }

    /// A copy of the payload of header `which`.
    pub fn get_payload(&self, which: usize) -> (r: Vec<u8>)
        requires
            self.wf(),
            which < self.headers_spec().len(),
        ensures
            r@ == self.payload_spec(which as int),
    {
        let n = self.data_len();
        let start = n - self.payload_size(which);
        let mut r: Vec<u8> = Vec::new();
        let mut i: usize = start;
        while i < n
            invariant
                self.wf(),
                n == self.data().len(),
                start == self.payload_start(which as int),
                start <= i <= n,
                r@ == self.data().subrange(start as int, i as int),
            decreases n - i,
        {
            r.push(self.byte(i));
            i += 1;
            assert(r@ =~= self.data().subrange(start as int, i as int));
        }
        r
    }

    /// Appends `header` after the innermost recorded header: the data grows by
    /// the header's length, the payload moves back by as much, the header's
    /// bytes are written where the payload began, and the header is recorded.
    /// Returns false, changing nothing, when the header is null, the stack is
    /// full, the header announces a length shorter than its fixed layout, or
    /// the tailroom is too small.
    pub fn push_header(&mut self, header: &Header) -> (r: bool)
        requires
            old(self).wf(),
        ensures
            final(self).wf(),
            r == (!(header is Null) && old(self).headers_spec().len() < MAX_HEADERS
                && kind_size(header.kind_spec()) <= header.offset_spec()
                && header.offset_spec() <= old(self).mbuf.tailroom()),
            !r ==> *final(self) == *old(self),
            r ==> ({
                let p = headers_len(old(self).headers_spec());
                let size = header.offset_spec();
                let n = old(self).data().len() as int;
                &&& final(self).headers_spec() == old(self).headers_spec().push(
                    entry(header.kind_spec(), size),
                )
                &&& final(self).data().len() == n + size
                &&& final(self).data().take(p) == old(self).data().take(p)
                &&& final(self).data().subrange(p, p + kind_size(header.kind_spec()))
                    == header.bytes_spec()
                &&& final(self).data().subrange(p + size, n + size) == old(self).data().subrange(p, n)
            }),
            r ==> ({
                let top = old(self).headers_spec().len() as int;
                &&& final(self).headers_spec()[top].kind == header.kind_spec()
                &&& final(self).header_fits(top)
                &&& final(self).data().subrange(
                    final(self).header_start(top),
                    final(self).header_start(top) + kind_size(header.kind_spec()),
                ) == header.bytes_spec()
                &&& final(self).payload_spec(top) == if top > 0 {
                    old(self).payload_spec(top - 1)
                } else {
                    old(self).data()
                }
                &&& top > 0 ==> final(self).payload_spec(top - 1) == final(self).data().subrange(
                    final(self).header_start(top),
                    final(self).header_start(top) + header.offset_spec(),
                ) + final(self).payload_spec(top)
            }),
    {
        let size = match header.offset() {
            Some(s) => s,
            None => {
                return false;
            },
        };
        if self.header_stack.count() >= MAX_HEADERS {
            return false;
        }
        let fixed = header_size(header.kind());
        if size < fixed {
            return false;
        }
        let len = self.data_len();
        let added = self.mbuf.add_data_end(size);
        if added < size {
            return false;
        }
        let ghost d0 = old(self).data();
        let ghost d1 = self.data();
        assert(d1.take(len as int) =~= d0) by {
            assert(d1.take(len as int) =~= self.mbuf.buf@.subrange(
                self.mbuf.data_off as int,
                self.mbuf.data_off + len,
            ));
        }
        let count = self.header_stack.count();
        let p: usize = if count == 0 {
            0
        } else {
            self.data_len() - self.payload_size(count - 1)
        };
        proof {
            if count > 0 {
                assert(old(self).headers_spec().take(count as int) =~= old(self).headers_spec());
            }
            lemma_headers_len_nonneg(self.headers_spec());
        }
        assert(p == headers_len(old(self).headers_spec()));
        let to_move = len - p;
        let mut i: usize = to_move;
        while i > 0
            invariant
                self.mbuf.wf(),
                self.header_stack == old(self).header_stack,
                self.mbuf.data_len == len + size,
                self.mbuf.data_off == old(self).mbuf.data_off,
                self.mbuf.buf_len == old(self).mbuf.buf_len,
                self.mbuf.refcnt == old(self).mbuf.refcnt,
                self.mbuf.metadata@ == old(self).mbuf.metadata@,
                d1.len() == len + size,
                d1.take(len as int) == d0,
                p + to_move == len,
                size >= fixed,
                fixed > 0,
                i <= to_move,
                forall|k: int| 0 <= k < p + i ==> self.data()[k] == d1[k],
                forall|k: int| p + size + i <= k < len + size ==> self.data()[k] == d0[k - size],
            decreases i,
        {
            i -= 1;
            let b = self.byte(p + i);
            assert(b == d0[p + i]) by {
                assert(d1.take(len as int)[p + i] == d1[p + i]);
            }
            self.set_byte(p + size + i, b);
        }
        let bytes = header.as_bytes();
        let mut j: usize = 0;
        while j < bytes.len()
            invariant
                self.mbuf.wf(),
                self.header_stack == old(self).header_stack,
                self.mbuf.data_len == len + size,
                self.mbuf.data_off == old(self).mbuf.data_off,
                self.mbuf.buf_len == old(self).mbuf.buf_len,
                self.mbuf.refcnt == old(self).mbuf.refcnt,
                self.mbuf.metadata@ == old(self).mbuf.metadata@,
                d1.len() == len + size,
                d0.len() == len,
                d1.take(len as int) == d0,
                p + to_move == len,
                bytes@ == header.bytes_spec(),
                bytes@.len() == fixed,
                fixed <= size,
                j <= bytes@.len(),
                forall|k: int| 0 <= k < p ==> self.data()[k] == d1[k],
                forall|k: int| p + size <= k < len + size ==> self.data()[k] == d0[k - size],
                forall|k: int| p <= k < p + j ==> self.data()[k] == bytes@[k - p],
            decreases bytes@.len() - j,
        {
            self.set_byte(p + j, bytes[j]);
            j += 1;
        }
        let ghost d2 = self.data();
        proof {
            assert(d2.take(p as int) =~= d0.take(p as int)) by {
                assert forall|k: int| 0 <= k < p implies d2[k] == d0[k] by {
                    assert(d1.take(len as int)[k] == d1[k]);
                }
            }
            assert forall|k: int| 0 <= k < fixed implies d2.subrange(p as int, p + fixed)[k]
                == header.bytes_spec()[k] by {
                let q = p + k;
                assert(p <= q < p + j);
                assert(d2[q] == bytes@[q - p]);
            }
            assert(d2.subrange(p as int, p + fixed) =~= header.bytes_spec());
            assert forall|k: int| 0 <= k < len - p implies d2.subrange(p + size, len + size)[k]
                == d0.subrange(p as int, len as int)[k] by {
                let q = p + size + k;
                assert(p + size <= q < len + size);
                assert(d2[q] == d0[q - size]);
            }
            assert(d2.subrange(p + size, len + size) =~= d0.subrange(p as int, len as int));
        }
        self.header_stack.push(HeaderEntry { kind: header.kind(), len: size });
        proof {
            let hs = self.headers_spec();
            assert(hs.drop_last() =~= old(self).headers_spec());
            assert(self.data() == d2);
            let top = old(self).headers_spec().len() as int;
            assert(hs.take(top) =~= old(self).headers_spec());
            assert(hs.take(top + 1) =~= hs);
            assert(headers_len(hs) == headers_len(hs.drop_last()) + hs.last().len);
            if top > 0 {
                assert(old(self).headers_spec().take(top) =~= old(self).headers_spec());
                assert(hs.take(top - 1 + 1) =~= old(self).headers_spec());
                assert(self.data().subrange(p as int, len + size) =~= self.data().subrange(p as int, p + size)
                    + self.data().subrange(p + size, len + size));
            } else {
                assert(d0.subrange(0, len as int) =~= d0);
            }
        }
        true
    }
}

/// The TCP checksum of `segment` between IPv4 addresses `src` and `dst`.
pub open spec fn tcp_checksum_spec(segment: Seq<u8>, src: u32, dst: u32) -> u16 {
    finalize_spec(
        (fold16(src) + fold16(dst) + 6 + segment.len() + be_words_sum(segment, 8) + be_words_sum(
            Seq::<u8>::empty(),
            0,
        )) as u32,
    )
}

/// Writes into bytes 16 and 17 of `segment` (a TCP header followed by its
/// payload) the checksum of its first `ip_payload_size` bytes, the checksum
/// field counting as zero.
pub fn update_tcp_checksum_(segment: &mut Vec<u8>, ip_payload_size: usize, ip_src: u32, ip_dst: u32)
    requires
        TCP_HDR_SIZE <= ip_payload_size <= old(segment)@.len(),
        ip_payload_size < 65536,
    ensures
        final(segment)@ == old(segment)@.update(16, (tcp_checksum_spec(old(segment)@.take(ip_payload_size as int), ip_src, ip_dst) / 256) as u8).update(
            17,
            (tcp_checksum_spec(old(segment)@.take(ip_payload_size as int), ip_src, ip_dst) % 256) as u8,
        ),
{
    let seg = slice_prefix(segment.as_slice(), ip_payload_size);
    let empty: Vec<u8> = Vec::new();
    assert(empty@ =~= Seq::<u8>::empty());
    let chk = ipv4_checksum(seg.as_slice(), 8, empty.as_slice(), ip_src, ip_dst, 6);
    let (hi, lo) = write_be16(chk);
    segment.set(16, hi);
    segment.set(17, lo);
}

/// Writes the TCP checksum into the TCP header at level `which` of `p`,
/// over the `ip_payload_size` bytes from that header on.
pub fn update_tcp_checksum(p: &mut Pdu, which: usize, ip_payload_size: usize, ip_src: u32, ip_dst: u32)
    requires
        old(p).wf(),
        which < old(p).headers_spec().len(),
        old(p).headers_spec()[which as int].kind == HeaderKind::Tcp,
        TCP_HDR_SIZE <= ip_payload_size,
        ip_payload_size < 65536,
        old(p).header_start(which as int) + ip_payload_size <= old(p).data().len(),
    ensures
        final(p).wf(),
        final(p).headers_spec() == old(p).headers_spec(),
        ({
            let st = old(p).header_start(which as int);
            let c = tcp_checksum_spec(old(p).data().subrange(st, st + ip_payload_size), ip_src, ip_dst);
            final(p).data() == old(p).data().update(st + 16, (c / 256) as u8).update(st + 17, (c % 256) as u8)
        }),
{
    let start = p.header_offset(which);
    let mut seg: Vec<u8> = Vec::with_capacity(ip_payload_size);
    let mut i: usize = 0;
    while i < ip_payload_size
        invariant
            p.wf(),
            i <= ip_payload_size,
            start + ip_payload_size <= p.data().len(),
            seg@ == p.data().subrange(start as int, start + i),
        decreases ip_payload_size - i,
    {
        seg.push(p.byte(start + i));
        i += 1;
        assert(seg@ =~= p.data().subrange(start as int, start + i));
    }
    let ghost seg0 = seg@;
    update_tcp_checksum_(&mut seg, ip_payload_size, ip_src, ip_dst);
    assert(seg0.take(ip_payload_size as int) =~= seg0);
    let field = slice_subrange(seg.as_slice(), 16, 18);
    p.write_bytes(start + 16, field.as_slice());
    proof {
        let st = start as int;
        assert(p.data() =~= old(p).data().update(st + 16, seg@[16]).update(st + 17, seg@[17]));
    }
}

} // verus!
