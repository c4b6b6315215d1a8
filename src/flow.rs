//! Flow keys: the IPv4 five-tuple, read from and written into an IPv4
//! header, its reverse, prefixes, and its hash.
use vstd::prelude::*;
use crate::check::{be_words_sum, checksum, finalize_spec, lemma_words_sum_skipped};
use crate::headers::{be16, be32, read_be16, read_be32, write_be16, write_be32};

verus! {

/// IHL counts 32-bit words.
pub const IHL_TO_BYTE_FACTOR: usize = 4;

/// The IPv4 five-tuple of a flow.
#[derive(Clone, Copy, Debug, PartialEq, Eq, Structural, Hash)]
pub struct FiveTupleV4 {
    pub src_ip: u32,
    pub dst_ip: u32,
    pub src_port: u16,
    pub dst_port: u16,
    pub proto: u8,
}

/// An IPv4 address prefix.
#[derive(Clone, Copy, Debug, PartialEq, Eq, Structural, Hash)]
pub struct Ipv4Prefix {
    pub ip_address: u32,
    pub prefix: u8,
    pub mask: u32,
}

/// The mask of the first `prefix` bits.
pub open spec fn prefix_mask(prefix: u8) -> u32 {
    if prefix == 0 {
        0
    } else {
        !(((1u32 << ((32 - prefix) as u32)) - 1) as u32)
    }
}

impl Ipv4Prefix {
    pub fn new(address: u32, prefix: u8) -> (r: Ipv4Prefix)
        requires
            prefix <= 32,
        ensures
            r.mask == prefix_mask(prefix),
            r.ip_address == address & prefix_mask(prefix),
            r.prefix == prefix,
    {
        let mask = if prefix == 0 {
            0
        } else {
            let inv_pfx = 32 - prefix;
            assert((1u32 << (inv_pfx as u32)) >= 1) by (bit_vector)
                requires
                    inv_pfx < 32,
            ;
            !((1u32 << (inv_pfx as u32)) - 1)
        };
        Ipv4Prefix { ip_address: address & mask, prefix, mask }
    }

    /// Whether `address` lies in the prefix.
    pub fn in_range(&self, address: u32) -> (r: bool)
        ensures
            r == ((address & self.mask) == self.ip_address),
    {
        (address & self.mask) == self.ip_address
    }
}

/// Where the transport ports start in an IPv4 header.
pub open spec fn port_start(b: Seq<u8>) -> int {
    (b[0] & 0xf) as int * 4
}

/// The five-tuple an IPv4 header (with its transport ports) holds.
pub open spec fn extract_flow_spec(b: Seq<u8>) -> FiveTupleV4 {
    let p = port_start(b);
    FiveTupleV4 {
        proto: b[9],
        src_ip: be32(b[12], b[13], b[14], b[15]),
        dst_ip: be32(b[16], b[17], b[18], b[19]),
        src_port: be16(b[p], b[p + 1]),
        dst_port: be16(b[p + 2], b[p + 3]),
    }
}

/// The header is long enough to hold the addresses and the ports.
pub open spec fn flow_fits(b: Seq<u8>) -> bool {
    &&& b.len() >= 20
    &&& port_start(b) + 4 <= b.len()
}

/// The five-tuple of an IPv4 packet, given from its IPv4 header on.
pub fn ipv4_extract_flow(bytes: &[u8]) -> (r: FiveTupleV4)
    requires
        flow_fits(bytes@),
    ensures
        r == extract_flow_spec(bytes@),
{
    let port_start = (bytes[0] & 0xf) as usize * IHL_TO_BYTE_FACTOR;
    FiveTupleV4 {
        proto: bytes[9],
        src_ip: read_be32(bytes[12], bytes[13], bytes[14], bytes[15]),
        dst_ip: read_be32(bytes[16], bytes[17], bytes[18], bytes[19]),
        src_port: read_be16(bytes[port_start], bytes[port_start + 1]),
        dst_port: read_be16(bytes[port_start + 2], bytes[port_start + 3]),
    }
}

/// The header checksum of the 20-byte IPv4 header at the start of `b`.
pub open spec fn ip_header_csum(b: Seq<u8>) -> u16 {
    finalize_spec(be_words_sum(b.take(20), 5) as u32)
}

fn ipcsum(bytes: &Vec<u8>) -> (r: u16)
    requires
        bytes@.len() >= 20,
    ensures
        r == ip_header_csum(bytes@),
{
    let mut head: Vec<u8> = Vec::with_capacity(20);
    let mut i: usize = 0;
    while i < 20
        invariant
            i <= 20,
            bytes@.len() >= 20,
            head@ == bytes@.take(i as int),
        decreases 20 - i,
    {
        head.push(bytes[i]);
        i += 1;
        assert(head@ =~= bytes@.take(i as int));
    }
    checksum(head.as_slice(), 5)
}

fn put_be32(bytes: &mut Vec<u8>, at: usize, v: u32)
    requires
        at + 4 <= old(bytes)@.len(),
    ensures
        final(bytes)@.len() == old(bytes)@.len(),
        be32(final(bytes)@[at as int], final(bytes)@[at + 1], final(bytes)@[at + 2], final(bytes)@[at + 3]) == v,
        forall|k: int| 0 <= k < old(bytes)@.len() && !(at <= k < at + 4) ==> final(bytes)@[k] == old(bytes)@[k],
{
    let (b0, b1, b2, b3) = write_be32(v);
    let _n = bytes.len();
    bytes.set(at, b0);
    bytes.set(at + 1, b1);
    bytes.set(at + 2, b2);
    bytes.set(at + 3, b3);
}

fn put_be16(bytes: &mut Vec<u8>, at: usize, v: u16)
    requires
        at + 2 <= old(bytes)@.len(),
    ensures
        final(bytes)@.len() == old(bytes)@.len(),
        be16(final(bytes)@[at as int], final(bytes)@[at + 1]) == v,
        forall|k: int| 0 <= k < old(bytes)@.len() && !(at <= k < at + 2) ==> final(bytes)@[k] == old(bytes)@[k],
{
    let (hi, lo) = write_be16(v);
    let _n = bytes.len();
    bytes.set(at, hi);
    bytes.set(at + 1, lo);
}

impl FiveTupleV4 {
    /// The flow in the other direction.
    pub fn reverse_flow(&self) -> (r: FiveTupleV4)
        ensures
            r == (FiveTupleV4 {
                src_ip: self.dst_ip,
                dst_ip: self.src_ip,
                src_port: self.dst_port,
                dst_port: self.src_port,
                proto: self.proto,
            }),
    {
        FiveTupleV4 {
            src_ip: self.dst_ip,
            dst_ip: self.src_ip,
            src_port: self.dst_port,
            dst_port: self.src_port,
            proto: self.proto,
        }
    }

    /// Writes the protocol, addresses and ports of the flow into the IPv4
    /// header (and its transport ports) in `bytes`, then recomputes the
    /// header checksum.
    /// The header must announce at least five words, so that the ports lie
    /// behind it.
    pub fn ipv4_stamp_flow(&self, bytes: &mut Vec<u8>)
        requires
            flow_fits(old(bytes)@),
            old(bytes)@[0] & 0xf >= 5,
        ensures
            final(bytes)@.len() == old(bytes)@.len(),
            final(bytes)@[0] == old(bytes)@[0],
            extract_flow_spec(final(bytes)@) == *self,
            be16(final(bytes)@[10], final(bytes)@[11]) == ip_header_csum(final(bytes)@),
            forall|k: int|
                0 <= k < old(bytes)@.len() && k != 9 && !(10 <= k < 20) && !(port_start(old(bytes)@) <= k
                    < port_start(old(bytes)@) + 4) ==> final(bytes)@[k] == old(bytes)@[k],
    {
        let port_start = (bytes[0] & 0xf) as usize * IHL_TO_BYTE_FACTOR;
        let ghost b0 = bytes@;
        bytes.set(9, self.proto);
        put_be32(bytes, 12, self.src_ip);
        put_be32(bytes, 16, self.dst_ip);
        put_be16(bytes, port_start, self.src_port);
        put_be16(bytes, port_start + 2, self.dst_port);
        put_be16(bytes, 10, 0);
        let ghost b1 = bytes@;
        let csum = ipcsum(bytes);
        put_be16(bytes, 10, csum);
        proof {
            lemma_words_sum_skipped(b1.take(20), bytes@.take(20), 10, 5);
        }
    }
}

/// FNV-1a from state `h`: for each byte, xor it in, then multiply by the
/// 64-bit FNV prime, wrapping.
pub open spec fn fnv1a_from(h: u64, bytes: Seq<u8>) -> u64
    decreases bytes.len(),
{
    if bytes.len() == 0 {
        h
    } else {
        fnv1a_from(((((h ^ (bytes[0] as u64)) as int) * 0x100000001b3) % 0x1_0000_0000_0000_0000) as u64, bytes.drop_first())
    }
}

/// The 64-bit FNV-1a hash of a byte string.
pub open spec fn fnv1a_of(bytes: Seq<u8>) -> u64 {
    fnv1a_from(0xcbf29ce484222325, bytes)
}

/// Relies on `fnv::FnvHasher` (`default`, `write`, `finish`): the 64-bit
/// FNV-1a hash of the bytes written.
#[verifier::external_body]
fn fnv_hash(bytes: &[u8]) -> (r: u64)
    ensures
        r == fnv1a_of(bytes@),
{
    let mut hasher = fnv::FnvHasher::default();
    std::hash::Hasher::write(&mut hasher, bytes);
    std::hash::Hasher::finish(&hasher)
}

/// Little-endian bytes of a 32-bit value.
pub open spec fn le32_bytes(v: u32) -> Seq<u8> {
    seq![(v % 256) as u8, ((v / 256) % 256) as u8, ((v / 0x1_0000) % 256) as u8, (v / 0x100_0000) as u8]
}

/// Little-endian bytes of a 16-bit value.
pub open spec fn le16_bytes(v: u16) -> Seq<u8> {
    seq![(v % 256) as u8, (v / 256) as u8]
}

/// The thirteen bytes of a five-tuple as the machine lays it out, fields in
/// order with no padding, little-endian.
pub open spec fn flow_bytes_spec(f: FiveTupleV4) -> Seq<u8> {
    le32_bytes(f.src_ip) + le32_bytes(f.dst_ip) + le16_bytes(f.src_port) + le16_bytes(f.dst_port)
        + seq![f.proto]
}

/// The bytes of `flow` as the machine lays it out.
pub fn flow_as_u8(flow: &FiveTupleV4) -> (r: Vec<u8>)
    ensures
        r@ == flow_bytes_spec(*flow),
{
    let mut r: Vec<u8> = Vec::with_capacity(13);
    r.push((flow.src_ip % 256) as u8);
    r.push(((flow.src_ip / 256) % 256) as u8);
    r.push(((flow.src_ip / 0x1_0000) % 256) as u8);
    r.push((flow.src_ip / 0x100_0000) as u8);
    r.push((flow.dst_ip % 256) as u8);
    r.push(((flow.dst_ip / 256) % 256) as u8);
    r.push(((flow.dst_ip / 0x1_0000) % 256) as u8);
    r.push((flow.dst_ip / 0x100_0000) as u8);
    r.push((flow.src_port % 256) as u8);
    r.push((flow.src_port / 256) as u8);
    r.push((flow.dst_port % 256) as u8);
    r.push((flow.dst_port / 256) as u8);
    r.push(flow.proto);
    assert(r@ =~= flow_bytes_spec(*flow));
    r
}

/// The FNV-1a hash of the flow's bytes.
pub fn flow_hash(flow: &FiveTupleV4) -> (r: usize)
    ensures
        r == fnv1a_of(flow_bytes_spec(*flow)) as usize,
{
    let bytes = flow_as_u8(flow);
    fnv_hash(bytes.as_slice()) as usize
}

/// The hash of the flow of an IPv4 packet, given from its IPv4 header on.
/// The initial value is not used.
pub fn ipv4_flow_hash(bytes: &[u8], _iv: u32) -> (r: usize)
    requires
        flow_fits(bytes@),
    ensures
        r == fnv1a_of(flow_bytes_spec(extract_flow_spec(bytes@))) as usize,
{
    let flow = ipv4_extract_flow(bytes);
    flow_hash(&flow)
}

} // verus!
