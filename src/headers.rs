//! Header views: fixed-layout headers held as their wire bytes, with field
//! accessors in host byte order.
use vstd::prelude::*;

verus! {

/// Big-endian value of two bytes.
pub open spec fn be16(hi: u8, lo: u8) -> u16 {
    (hi as int * 256 + lo as int) as u16
}

/// Big-endian value of four bytes.
pub open spec fn be32(b0: u8, b1: u8, b2: u8, b3: u8) -> u32 {
    (((b0 as int * 256 + b1 as int) * 256 + b2 as int) * 256 + b3 as int) as u32
}

pub fn read_be16(hi: u8, lo: u8) -> (r: u16)
    ensures
        r == be16(hi, lo),
{
    (hi as u16) * 256 + lo as u16
}

pub fn read_be32(b0: u8, b1: u8, b2: u8, b3: u8) -> (r: u32)
    ensures
        r == be32(b0, b1, b2, b3),
{
    ((((b0 as u32) * 256 + b1 as u32) * 256 + b2 as u32) * 256) + b3 as u32
}

/// The two big-endian bytes of `v`.
pub fn write_be16(v: u16) -> (r: (u8, u8))
    ensures
        be16(r.0, r.1) == v,
        r.0 == v / 256,
        r.1 == v % 256,
{
    ((v / 256) as u8, (v % 256) as u8)
}

/// The four big-endian bytes of `v`.
pub fn write_be32(v: u32) -> (r: (u8, u8, u8, u8))
    ensures
        be32(r.0, r.1, r.2, r.3) == v,
{
    let b0 = (v / 0x100_0000) as u8;
    let b1 = ((v / 0x1_0000) % 256) as u8;
    let b2 = ((v / 256) % 256) as u8;
    let b3 = (v % 256) as u8;
    assert(be32(b0, b1, b2, b3) == v) by (nonlinear_arith)
        requires
            b0 == v / 0x100_0000,
            b1 == (v / 0x1_0000) % 256,
            b2 == (v / 256) % 256,
            b3 == v % 256,
    {
    }
    (b0, b1, b2, b3)
}

/// Copies `N` bytes of `src` starting at `pos` into an array.
pub fn read_array<const N: usize>(src: &[u8], pos: usize) -> (r: [u8; N])
    requires
        pos + N <= src@.len(),
    ensures
        r@ == src@.subrange(pos as int, pos + N),
{
    let mut r = [0u8; N];
    let n = src.len();
    let mut i: usize = 0;
    while i < N
        invariant
            i <= N,
            pos + N <= n,
            n == src@.len(),
            r@.len() == N,
            forall|k: int| 0 <= k < i ==> r@[k] == src@[pos + k],
        decreases N - i,
    {
        r[i] = src[pos + i];
        i += 1;
    }
    assert(r@ =~= src@.subrange(pos as int, pos + N));
    r
}

/// A vector holding the bytes of `src`.
pub fn slice_to_vec(src: &[u8]) -> (r: Vec<u8>)
    ensures
        r@ == src@,
{
    let mut r: Vec<u8> = Vec::with_capacity(src.len());
    let mut i: usize = 0;
    while i < src.len()
        invariant
            i <= src@.len(),
            r@ == src@.take(i as int),
        decreases src@.len() - i,
    {
        r.push(src[i]);
        i += 1;
        assert(r@ =~= src@.take(i as int));
    }
    assert(src@.take(src@.len() as int) =~= src@);
    r
}

/// A vector holding the first `n` bytes of `src`.
pub fn slice_prefix(src: &[u8], n: usize) -> (r: Vec<u8>)
    requires
        n <= src@.len(),
    ensures
        r@ == src@.take(n as int),
{
    let mut r: Vec<u8> = Vec::with_capacity(n);
    let mut i: usize = 0;
    while i < n
        invariant
            i <= n,
            n <= src@.len(),
            r@ == src@.take(i as int),
        decreases n - i,
    {
        r.push(src[i]);
        i += 1;
        assert(r@ =~= src@.take(i as int));
    }
    r
}

/// A vector holding bytes `from .. to` of `src`.
pub fn slice_subrange(src: &[u8], from: usize, to: usize) -> (r: Vec<u8>)
    requires
        from <= to <= src@.len(),
    ensures
        r@ == src@.subrange(from as int, to as int),
{
    let mut r: Vec<u8> = Vec::with_capacity(to - from);
    let mut i: usize = from;
    while i < to
        invariant
            from <= i <= to,
            to <= src@.len(),
            r@ == src@.subrange(from as int, i as int),
        decreases to - i,
    {
        r.push(src[i]);
        i += 1;
        assert(r@ =~= src@.subrange(from as int, i as int));
    }
    r
}

/// A 48-bit Ethernet address.
#[derive(Clone, Copy, Debug)]
pub struct MacAddress {
    pub addr: [u8; 6],
}

impl MacAddress {
    pub fn new(addr: [u8; 6]) -> (r: MacAddress)
        ensures
            r.addr@ == addr@,
    {
        MacAddress { addr }
    }
}

/// Length of the Ethernet header without VLAN tags.
pub const MAC_HDR_SIZE: usize = 14;
/// Length of the Ethernet header with an 802.1Q tag.
pub const MAC_HDR_SIZE_802_1Q: usize = 18;
/// Length of the Ethernet header with an 802.1AD double tag.
pub const MAC_HDR_SIZE_802_1AD: usize = 22;
/// Length of the IPv4 header without options.
pub const IP_HDR_SIZE: usize = 20;
/// Length of the TCP header without options.
pub const TCP_HDR_SIZE: usize = 20;
/// Length of the UDP header.
pub const UDP_HDR_SIZE: usize = 8;
/// Length of an ARP header for Ethernet and IPv4 addresses.
pub const ARP_HDR_SIZE: usize = 28;

/// The Ethernet header: destination, source, ethertype.
#[derive(Clone, Copy, Debug)]
pub struct MacHeader {
    pub bytes: [u8; 14],
}

/// Ethernet header length as its ethertype announces it.
pub open spec fn mac_offset(etype: u16) -> int {
    if etype == 0x8100 {
        MAC_HDR_SIZE_802_1Q as int
    } else if etype == 0x9100 {
        MAC_HDR_SIZE_802_1AD as int
    } else {
        MAC_HDR_SIZE as int
    }
}

impl MacHeader {
    pub open spec fn etype_spec(&self) -> u16 {
        be16(self.bytes@[12], self.bytes@[13])
    }

    pub open spec fn dst_spec(&self) -> Seq<u8> {
        self.bytes@.subrange(0, 6)
    }

    pub open spec fn src_spec(&self) -> Seq<u8> {
        self.bytes@.subrange(6, 12)
    }

    pub fn new() -> (r: MacHeader)
        ensures
            r.bytes@ == Seq::new(14, |i: int| 0u8),
    {
        let r = MacHeader { bytes: [0u8; 14] };
        assert(r.bytes@ =~= Seq::new(14, |i: int| 0u8));
        r
    }

    /// Builds a header from destination, source and ethertype.
    pub fn from_parts(dst: MacAddress, src: MacAddress, etype: u16) -> (r: MacHeader)
        ensures
            r.dst_spec() == dst.addr@,
            r.src_spec() == src.addr@,
            r.etype_spec() == etype,
    {
        let mut r = MacHeader::new();
        r.set_dmac(&dst);
        r.set_smac(&src);
        r.set_etype(etype);
        r
    }

    /// Bytes from the start of this header to its payload.
    pub fn offset(&self) -> (r: usize)
        ensures
            r == mac_offset(self.etype_spec()),
    {
        let e = self.etype();
        if e == 0x8100 {
            MAC_HDR_SIZE_802_1Q
        } else if e == 0x9100 {
            MAC_HDR_SIZE_802_1AD
        } else {
            MAC_HDR_SIZE
        }
    }

    pub fn size() -> (r: usize)
        ensures
            r == MAC_HDR_SIZE,
    {
        MAC_HDR_SIZE
    }

    pub fn payload_size(&self, hint: usize) -> (r: usize)
        requires
            hint >= mac_offset(self.etype_spec()),
        ensures
            r == hint - mac_offset(self.etype_spec()),
    {
        hint - self.offset()
    }

    pub fn etype(&self) -> (r: u16)
        ensures
            r == self.etype_spec(),
    {
        read_be16(self.bytes[12], self.bytes[13])
    }

    pub fn set_etype(&mut self, etype: u16)
        ensures
            final(self).etype_spec() == etype,
            final(self).dst_spec() == old(self).dst_spec(),
            final(self).src_spec() == old(self).src_spec(),
    {
        let (hi, lo) = write_be16(etype);
        self.bytes[12] = hi;
        self.bytes[13] = lo;
        assert(self.dst_spec() =~= old(self).dst_spec());
        assert(self.src_spec() =~= old(self).src_spec());
    }

    pub fn dst(&self) -> (r: MacAddress)
        ensures
            r.addr@ == self.dst_spec(),
    {
        let a: [u8; 6] = read_array(self.bytes.as_slice(), 0);
        MacAddress { addr: a }
    }

    pub fn src(&self) -> (r: MacAddress)
        ensures
            r.addr@ == self.src_spec(),
    {
        let a: [u8; 6] = read_array(self.bytes.as_slice(), 6);
        MacAddress { addr: a }
    }

    pub fn set_dmac(&mut self, dmac: &MacAddress)
        ensures
            final(self).dst_spec() == dmac.addr@,
            final(self).src_spec() == old(self).src_spec(),
            final(self).etype_spec() == old(self).etype_spec(),
    {
        let mut i: usize = 0;
        while i < 6
            invariant
                i <= 6,
                forall|k: int| 0 <= k < i ==> self.bytes@[k] == dmac.addr@[k],
                forall|k: int| 6 <= k < 14 ==> self.bytes@[k] == old(self).bytes@[k],
            decreases 6 - i,
        {
            self.bytes[i] = dmac.addr[i];
            i += 1;
        }
        assert(self.dst_spec() =~= dmac.addr@);
        assert(self.src_spec() =~= old(self).src_spec());
    }

    pub fn set_smac(&mut self, smac: &MacAddress)
        ensures
            final(self).src_spec() == smac.addr@,
            final(self).dst_spec() == old(self).dst_spec(),
            final(self).etype_spec() == old(self).etype_spec(),
    {
        let mut i: usize = 0;
        while i < 6
            invariant
                i <= 6,
                forall|k: int| 0 <= k < i ==> self.bytes@[6 + k] == smac.addr@[k],
                forall|k: int| 0 <= k < 6 ==> self.bytes@[k] == old(self).bytes@[k],
                forall|k: int| 12 <= k < 14 ==> self.bytes@[k] == old(self).bytes@[k],
            decreases 6 - i,
        {
            self.bytes[6 + i] = smac.addr[i];
            i += 1;
        }
        assert(self.src_spec() =~= smac.addr@);
        assert(self.dst_spec() =~= old(self).dst_spec());
    }

    /// Exchanges source and destination addresses.
    pub fn swap_addresses(&mut self)
        ensures
            final(self).dst_spec() == old(self).src_spec(),
            final(self).src_spec() == old(self).dst_spec(),
            final(self).etype_spec() == old(self).etype_spec(),
    {
        let src = self.src();
        let dst = self.dst();
        self.set_dmac(&src);
        self.set_smac(&dst);
    }
}

/// The IPv4 header without options.
#[derive(Clone, Copy, Debug)]
pub struct IpHeader {
    pub bytes: [u8; 20],
}

impl IpHeader {
    pub open spec fn ihl_spec(&self) -> u8 {
        self.bytes@[0] & 0xf
    }

    pub open spec fn offset_spec(&self) -> int {
        self.ihl_spec() as int * 4
    }

    pub open spec fn length_spec(&self) -> u16 {
        be16(self.bytes@[2], self.bytes@[3])
    }

    pub open spec fn src_spec(&self) -> u32 {
        be32(self.bytes@[12], self.bytes@[13], self.bytes@[14], self.bytes@[15])
    }

    pub open spec fn dst_spec(&self) -> u32 {
        be32(self.bytes@[16], self.bytes@[17], self.bytes@[18], self.bytes@[19])
    }

    pub fn new() -> (r: IpHeader)
        ensures
            r.bytes@ == Seq::new(20, |i: int| 0u8),
    {
        let r = IpHeader { bytes: [0u8; 20] };
        assert(r.bytes@ =~= Seq::new(20, |i: int| 0u8));
        r
    }

    pub fn offset(&self) -> (r: usize)
        ensures
            r == self.offset_spec(),
    {
        (self.bytes[0] & 0xf) as usize * 4
    }

    pub fn size() -> (r: usize)
        ensures
            r == IP_HDR_SIZE,
    {
        IP_HDR_SIZE
    }

    pub fn payload_size(&self, hint: usize) -> (r: usize)
        requires
            hint >= self.offset_spec(),
        ensures
            r == hint - self.offset_spec(),
    {
        hint - self.offset()
    }

    pub fn version(&self) -> (r: u8)
        ensures
            r == self.bytes@[0] >> 4u8,
    {
        self.bytes[0] >> 4u8
    }

    pub fn ihl(&self) -> (r: u8)
        ensures
            r == self.ihl_spec(),
    {
        self.bytes[0] & 0xf
    }

    pub fn length(&self) -> (r: u16)
        ensures
            r == self.length_spec(),
    {
        read_be16(self.bytes[2], self.bytes[3])
    }

    pub fn ttl(&self) -> (r: u8)
        ensures
            r == self.bytes@[8],
    {
        self.bytes[8]
    }

    pub fn protocol(&self) -> (r: u8)
        ensures
            r == self.bytes@[9],
    {
        self.bytes[9]
    }

    pub fn csum(&self) -> (r: u16)
        ensures
            r == be16(self.bytes@[10], self.bytes@[11]),
    {
        read_be16(self.bytes[10], self.bytes[11])
    }

    pub fn src(&self) -> (r: u32)
        ensures
            r == self.src_spec(),
    {
        read_be32(self.bytes[12], self.bytes[13], self.bytes[14], self.bytes[15])
    }

    pub fn dst(&self) -> (r: u32)
        ensures
            r == self.dst_spec(),
    {
        read_be32(self.bytes[16], self.bytes[17], self.bytes[18], self.bytes[19])
    }

    pub fn set_version_ihl(&mut self, version: u8, ihl: u8)
        requires
            version < 16,
            ihl < 16,
        ensures
            final(self).bytes@ == old(self).bytes@.update(0, (version * 16 + ihl) as u8),
            final(self).ihl_spec() == ihl,
    {
        let b = version * 16 + ihl;
        self.bytes[0] = b;
        assert(b & 0xf == ihl) by (bit_vector)
            requires
                b == version * 16 + ihl,
                version < 16,
                ihl < 16,
        ;
    }

    pub fn set_length(&mut self, len: u16)
        ensures
            final(self).length_spec() == len,
            final(self).bytes@ == old(self).bytes@.update(2, (len / 256) as u8).update(3, (len % 256) as u8),
    {
        let (hi, lo) = write_be16(len);
        self.bytes[2] = hi;
        self.bytes[3] = lo;
    }

    pub fn set_ttl(&mut self, ttl: u8)
        ensures
            final(self).bytes@ == old(self).bytes@.update(8, ttl),
    {
        self.bytes[8] = ttl;
    }

    pub fn set_protocol(&mut self, protocol: u8)
        ensures
            final(self).bytes@ == old(self).bytes@.update(9, protocol),
    {
        self.bytes[9] = protocol;
    }

    pub fn set_csum(&mut self, csum: u16)
        ensures
            final(self).bytes@ == old(self).bytes@.update(10, (csum / 256) as u8).update(11, (csum % 256) as u8),
    {
        let (hi, lo) = write_be16(csum);
        self.bytes[10] = hi;
        self.bytes[11] = lo;
    }

    pub fn set_src(&mut self, src: u32)
        ensures
            final(self).src_spec() == src,
            forall|k: int| 0 <= k < 20 && !(12 <= k < 16) ==> final(self).bytes@[k] == old(self).bytes@[k],
    {
        let (b0, b1, b2, b3) = write_be32(src);
        self.bytes[12] = b0;
        self.bytes[13] = b1;
        self.bytes[14] = b2;
        self.bytes[15] = b3;
    }

    pub fn set_dst(&mut self, dst: u32)
        ensures
            final(self).dst_spec() == dst,
            forall|k: int| 0 <= k < 16 ==> final(self).bytes@[k] == old(self).bytes@[k],
    {
        let (b0, b1, b2, b3) = write_be32(dst);
        self.bytes[16] = b0;
        self.bytes[17] = b1;
        self.bytes[18] = b2;
        self.bytes[19] = b3;
    }
}

/// The TCP header without options.
#[derive(Clone, Copy, Debug)]
pub struct TcpHeader {
    pub bytes: [u8; 20],
}

impl TcpHeader {
    pub open spec fn data_offset_spec(&self) -> u8 {
        self.bytes@[12] >> 4u8
    }

    pub open spec fn offset_spec(&self) -> int {
        self.data_offset_spec() as int * 4
    }

    pub fn new() -> (r: TcpHeader)
        ensures
            r.bytes@ == Seq::new(20, |i: int| 0u8),
    {
        let r = TcpHeader { bytes: [0u8; 20] };
        assert(r.bytes@ =~= Seq::new(20, |i: int| 0u8));
        r
    }

    pub fn offset(&self) -> (r: usize)
        ensures
            r == self.offset_spec(),
    {
        (self.bytes[12] >> 4u8) as usize * 4
    }

    pub fn size() -> (r: usize)
        ensures
            r == TCP_HDR_SIZE,
    {
        TCP_HDR_SIZE
    }

    pub fn src_port(&self) -> (r: u16)
        ensures
            r == be16(self.bytes@[0], self.bytes@[1]),
    {
        read_be16(self.bytes[0], self.bytes[1])
    }

    pub fn dst_port(&self) -> (r: u16)
        ensures
            r == be16(self.bytes@[2], self.bytes@[3]),
    {
        read_be16(self.bytes[2], self.bytes[3])
    }

    pub fn data_offset(&self) -> (r: u8)
        ensures
            r == self.data_offset_spec(),
    {
        self.bytes[12] >> 4u8
    }

    pub fn checksum(&self) -> (r: u16)
        ensures
            r == be16(self.bytes@[16], self.bytes@[17]),
    {
        read_be16(self.bytes[16], self.bytes[17])
    }

    pub fn set_src_port(&mut self, port: u16)
        ensures
            final(self).bytes@ == old(self).bytes@.update(0, (port / 256) as u8).update(1, (port % 256) as u8),
    {
        let (hi, lo) = write_be16(port);
        self.bytes[0] = hi;
        self.bytes[1] = lo;
    }

    pub fn set_dst_port(&mut self, port: u16)
        ensures
            final(self).bytes@ == old(self).bytes@.update(2, (port / 256) as u8).update(3, (port % 256) as u8),
    {
        let (hi, lo) = write_be16(port);
        self.bytes[2] = hi;
        self.bytes[3] = lo;
    }

    /// Sets the header length in 32-bit words.
    pub fn set_data_offset(&mut self, words: u8)
        requires
            words < 16,
        ensures
            final(self).bytes@ == old(self).bytes@.update(12, (words * 16) as u8),
            final(self).data_offset_spec() == words,
    {
        let b = words * 16;
        self.bytes[12] = b;
        assert(b >> 4u8 == words) by (bit_vector)
            requires
                b == words * 16,
                words < 16,
        ;
    }

    pub fn set_checksum(&mut self, csum: u16)
        ensures
            final(self).bytes@ == old(self).bytes@.update(16, (csum / 256) as u8).update(17, (csum % 256) as u8),
    {
        let (hi, lo) = write_be16(csum);
        self.bytes[16] = hi;
        self.bytes[17] = lo;
    }
}

/// The UDP header.
#[derive(Clone, Copy, Debug)]
pub struct UdpHeader {
    pub bytes: [u8; 8],
}

impl UdpHeader {
    pub fn new() -> (r: UdpHeader)
        ensures
            r.bytes@ == Seq::new(8, |i: int| 0u8),
    {
        let r = UdpHeader { bytes: [0u8; 8] };
        assert(r.bytes@ =~= Seq::new(8, |i: int| 0u8));
        r
    }

    pub fn offset(&self) -> (r: usize)
        ensures
            r == UDP_HDR_SIZE,
    {
        UDP_HDR_SIZE
    }

    pub fn src_port(&self) -> (r: u16)
        ensures
            r == be16(self.bytes@[0], self.bytes@[1]),
    {
        read_be16(self.bytes[0], self.bytes[1])
    }

    pub fn dst_port(&self) -> (r: u16)
        ensures
            r == be16(self.bytes@[2], self.bytes@[3]),
    {
        read_be16(self.bytes[2], self.bytes[3])
    }
}

/// An ARP header for Ethernet hardware and IPv4 protocol addresses.
#[derive(Clone, Copy, Debug)]
pub struct ArpIpv4Header {
    pub bytes: [u8; 28],
}

impl ArpIpv4Header {
    pub open spec fn offset_spec(&self) -> int {
        2 * self.bytes@[4] + 2 * self.bytes@[5] + 8
    }

    pub open spec fn hw_type_spec(&self) -> u16 {
        be16(self.bytes@[0], self.bytes@[1])
    }

    pub open spec fn proto_etype_spec(&self) -> u16 {
        be16(self.bytes@[2], self.bytes@[3])
    }

    pub fn offset(&self) -> (r: usize)
        ensures
            r == self.offset_spec(),
    {
        2 * self.bytes[4] as usize + 2 * self.bytes[5] as usize + 8
    }

    pub fn size() -> (r: usize)
        ensures
            r == ARP_HDR_SIZE,
    {
        ARP_HDR_SIZE
    }

    pub fn hw_type(&self) -> (r: u16)
        ensures
            r == self.hw_type_spec(),
    {
        read_be16(self.bytes[0], self.bytes[1])
    }

    pub fn proto_etype(&self) -> (r: u16)
        ensures
            r == self.proto_etype_spec(),
    {
        read_be16(self.bytes[2], self.bytes[3])
    }

    pub fn operation(&self) -> (r: u16)
        ensures
            r == be16(self.bytes@[6], self.bytes@[7]),
    {
        read_be16(self.bytes[6], self.bytes[7])
    }

    pub fn sender_proto_addr(&self) -> (r: u32)
        ensures
            r == be32(self.bytes@[14], self.bytes@[15], self.bytes@[16], self.bytes@[17]),
    {
        read_be32(self.bytes[14], self.bytes[15], self.bytes[16], self.bytes[17])
    }

    pub fn target_proto_addr(&self) -> (r: u32)
        ensures
            r == be32(self.bytes@[24], self.bytes@[25], self.bytes@[26], self.bytes@[27]),
    {
        read_be32(self.bytes[24], self.bytes[25], self.bytes[26], self.bytes[27])
    }
}

} // verus!
