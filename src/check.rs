//! Internet checksums: one's-complement sums of big-endian 16-bit words.
use vstd::prelude::*;
use crate::headers::be16;

verus! {

/// Sum of the first `n` big-endian words of `d`, leaving out word `skip`.
pub open spec fn words_sum(d: Seq<u8>, n: int, skip: int) -> int
    decreases n,
{
    if n <= 0 {
        0
    } else {
        words_sum(d, n - 1, skip) + if n - 1 == skip {
            0
        } else {
            be16(d[2 * (n - 1)], d[2 * (n - 1) + 1]) as int
        }
    }
}

/// Sum of the big-endian words of `d` but word `skip`, a last odd byte
/// counting as the high half of a word.
pub open spec fn be_words_sum(d: Seq<u8>, skip: int) -> int {
    words_sum(d, (d.len() / 2) as int, skip) + if d.len() % 2 == 1 {
        d[d.len() - 1] as int * 256
    } else {
        0
    }
}

/// The word left out does not count: sequences that differ only there have
/// the same sum.
pub proof fn lemma_words_sum_skipped(d1: Seq<u8>, d2: Seq<u8>, n: int, skip: int)
    requires
        d1.len() == d2.len(),
        0 <= n,
        2 * n <= d1.len(),
        forall|k: int| 0 <= k < 2 * n && k / 2 != skip ==> d1[k] == d2[k],
    ensures
        words_sum(d1, n, skip) == words_sum(d2, n, skip),
        d1.len() == 2 * n ==> be_words_sum(d1, skip) == be_words_sum(d2, skip),
    decreases n,
{
    if n > 0 {
        lemma_words_sum_skipped(d1, d2, n - 1, skip);
        if n - 1 != skip {
            assert((2 * (n - 1)) / 2 == n - 1);
            assert((2 * (n - 1) + 1) / 2 == n - 1);
        }
    }
    if d1.len() == 2 * n {
        assert(d1.len() / 2 == n);
        assert(d1.len() % 2 == 0);
    }
}

pub proof fn lemma_words_sum_bound(d: Seq<u8>, n: int, skip: int)
    requires
        0 <= n,
        2 * n <= d.len(),
    ensures
        0 <= words_sum(d, n, skip) <= n * 65535,
    decreases n,
{
    if n > 0 {
        lemma_words_sum_bound(d, n - 1, skip);
    }
}

/// The one's-complement fold of `s`: carries added back until 16 bits remain.
pub open spec fn fold16(s: u32) -> u32
    decreases s,
{
    if s >> 16u32 == 0 {
        s
    } else if (s >> 16u32) + (s & 0xffffu32) < s {
        fold16(((s >> 16u32) + (s & 0xffffu32)) as u32)
    } else {
        s
    }
}

/// The checksum of a sum: the complement of its fold.
pub open spec fn finalize_spec(s: u32) -> u16 {
    (!fold16(s)) as u16
}

fn sum_be_words(data: &[u8], skipword: usize) -> (r: u32)
    requires
        data@.len() < 131072,
    ensures
        r == be_words_sum(data@, skipword as int),
{
    let len = data.len();
    let words = len / 2;
    let mut sum: u32 = 0;
    let mut i: usize = 0;
    while i < words
        invariant
            len == data@.len(),
            len < 131072,
            words == len / 2,
            i <= words,
            sum == words_sum(data@, i as int, skipword as int),
        decreases words - i,
    {
        proof {
            lemma_words_sum_bound(data@, i as int + 1, skipword as int);
        }
        if i != skipword {
            sum = sum + read_word(data[2 * i], data[2 * i + 1]) as u32;
        }
        i += 1;
    }
    proof {
        lemma_words_sum_bound(data@, words as int, skipword as int);
    }
    if len % 2 != 0 {
        sum = sum + (data[len - 1] as u32) * 256;
    }
    sum
}

fn read_word(hi: u8, lo: u8) -> (r: u16)
    ensures
        r == be16(hi, lo),
{
    crate::headers::read_be16(hi, lo)
}

/// Folds the carries of `sum` back in and returns the complement.
pub fn finalize_checksum(sum: u32) -> (r: u16)
    ensures
        r == finalize_spec(sum),
{
    let mut s = sum;
    while s >> 16u32 != 0
        invariant
            fold16(s) == fold16(sum),
        decreases s,
    {
        let t = s;
        assert((t >> 16u32) + (t & 0xffffu32) < t) by (bit_vector)
            requires
                t >> 16u32 != 0,
        ;
        s = (s >> 16u32) + (s & 0xffffu32);
    }
    !s as u16
}

/// The Internet checksum of `data`, the word at `skipword` (the checksum
/// field) counting as zero.
pub fn checksum(data: &[u8], skipword: usize) -> (r: u16)
    requires
        data@.len() < 131072,
    ensures
        r == finalize_spec(be_words_sum(data@, skipword as int) as u32),
{
    let sum = sum_be_words(data, skipword);
    finalize_checksum(sum)
}

/// The checksum of a TCP or UDP segment over IPv4: the segment `data`
/// (whose word `skipword` counts as zero), then `extra_data`, and the
/// pseudo-header of addresses, protocol and length.
pub fn ipv4_checksum(
    data: &[u8],
    skipword: usize,
    extra_data: &[u8],
    src_ip: u32,
    dst_ip: u32,
    next_level_protocol: u32,
) -> (r: u16)
    requires
        data@.len() + extra_data@.len() < 65536,
        next_level_protocol < 65536,
    ensures
        r == finalize_spec(
            (fold16(src_ip) + fold16(dst_ip) + next_level_protocol + data@.len() + extra_data@.len()
                + be_words_sum(data@, skipword as int) + be_words_sum(
                extra_data@,
                (extra_data@.len() / 2) as int,
            )) as u32,
        ),
{
    let mut sum: u32 = 0;
    let s = finalize_checksum(src_ip);
    let d = finalize_checksum(dst_ip);
    proof {
        lemma_fold_small(src_ip);
        lemma_fold_small(dst_ip);
        lemma_words_sum_bound(data@, (data@.len() / 2) as int, skipword as int);
        lemma_words_sum_bound(
            extra_data@,
            (extra_data@.len() / 2) as int,
            (extra_data@.len() / 2) as int,
        );
    }
    let fs = (!s) as u32;
    let fd = (!d) as u32;
    assert(fs == fold16(src_ip) && fd == fold16(dst_ip)) by {
        let a = fold16(src_ip);
        let b = fold16(dst_ip);
        assert((!((!a) as u16)) as u32 == a) by (bit_vector)
            requires
                a < 0x10000u32,
        ;
        assert((!((!b) as u16)) as u32 == b) by (bit_vector)
            requires
                b < 0x10000u32,
        ;
    }
    sum = sum + fs;
    sum = sum + fd;
    sum = sum + next_level_protocol;
    let len = data.len() + extra_data.len();
    sum = sum + len as u32;
    sum = sum + sum_be_words(data, skipword);
    sum = sum + sum_be_words(extra_data, extra_data.len() / 2);
    finalize_checksum(sum)
}

pub proof fn lemma_fold_small(s: u32)
    ensures
        fold16(s) < 0x10000,
    decreases s,
{
    if s >> 16u32 == 0 {
        assert(s >> 16u32 == 0 ==> s < 0x10000u32) by (bit_vector);
    } else {
        assert((s >> 16u32) + (s & 0xffffu32) < s) by (bit_vector)
            requires
                s >> 16u32 != 0,
        ;
        lemma_fold_small(((s >> 16u32) + (s & 0xffffu32)) as u32);
    }
}

/// Updates a checksum for a change of the data it covers from one checksum
/// to another (all in host order).
pub fn update_checksum_incremental(old_check: u16, old_data_csum: u16, new_data_csum: u16) -> (r: u16)
    ensures
        r == finalize_spec(((!old_check) as u32 + (!old_data_csum) as u32 + new_data_csum as u32) as u32),
{
    let tmp: u32 = (!old_check) as u32 + (!old_data_csum) as u32 + new_data_csum as u32;
    finalize_checksum(tmp)
}

} // verus!
