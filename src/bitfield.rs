//! Little-endian bit fields packed into an eight-byte storage unit, as used by
//! the transmit-offload length fields of a packet buffer.
use vstd::prelude::*;

verus! {

/// Number of bytes in a bit-field storage unit.
pub const STORAGE_BYTES: usize = 8;

/// An eight-byte unit holding packed bit fields; bit `i` lives in byte `i / 8`
/// at position `i % 8`.
#[allow(non_camel_case_types)]
#[derive(Clone, Copy, Debug)]
pub struct __BindgenBitfieldUnit {
    pub storage: [u8; 8],
}

/// The bit at position `pos` of byte `b`.
pub open spec fn byte_bit(b: u8, pos: int) -> bool {
    (b >> (pos as u8)) & 1u8 == 1u8
}

/// The bit at position `pos` of `v`.
pub open spec fn word_bit(v: u64, pos: int) -> bool {
    (v >> (pos as u64)) & 1u64 == 1u64
}

/// `r` holds, in its low `width` bits, the bits of `u` from `off` on, and zero above.
pub open spec fn holds_field(u: __BindgenBitfieldUnit, r: u64, off: int, width: int) -> bool {
    forall|j: int| 0 <= j < 64 ==> word_bit(r, j) == (j < width && u.bit(off + j))
}

/// `after` is `before` with bits `off .. off + width` replaced by the low bits of `val`.
pub open spec fn replaces_field(
    before: __BindgenBitfieldUnit,
    after: __BindgenBitfieldUnit,
    off: int,
    width: int,
    val: u64,
) -> bool {
    forall|j: int|
        0 <= j < 64 ==> after.bit(j) == if off <= j < off + width {
            word_bit(val, j - off)
        } else {
            before.bit(j)
        }
}

impl __BindgenBitfieldUnit {
    /// Bit `index` of the unit.
    pub open spec fn bit(&self, index: int) -> bool {
        byte_bit(self.storage@[index / 8], index % 8)
    }

    pub fn new(storage: [u8; 8]) -> (r: Self)
        ensures
            r.storage@ == storage@,
    {
        __BindgenBitfieldUnit { storage }
    }

    pub fn get_bit(&self, index: usize) -> (r: bool)
        requires
            index < 64,
        ensures
            r == self.bit(index as int),
    {
        let byte_index = index / 8;
        let byte = self.storage[byte_index];
        let bit_index = (index % 8) as u8;
        let mask: u8 = 1u8 << bit_index;
        assert((byte & mask == mask) == ((byte >> bit_index) & 1u8 == 1u8)) by (bit_vector)
            requires
                bit_index < 8,
                mask == 1u8 << bit_index,
        ;
        byte & mask == mask
    }

    pub fn set_bit(&mut self, index: usize, val: bool)
        requires
            index < 64,
        ensures
            final(self).bit(index as int) == val,
            forall|j: int| 0 <= j < 64 && j != index ==> final(self).bit(j) == old(self).bit(j),
    {
        let byte_index = index / 8;
        let bit_index = (index % 8) as u8;
        let mask: u8 = 1u8 << bit_index;
        let byte = self.storage[byte_index];
        let nb: u8 = if val {
            byte | mask
        } else {
            byte & !mask
        };
        assert(((nb >> bit_index) & 1u8 == 1u8) == val) by (bit_vector)
            requires
                bit_index < 8,
                mask == 1u8 << bit_index,
                val ==> nb == byte | mask,
                !val ==> nb == byte & !mask,
        ;
        assert forall|p: u8| p < 8 && p != bit_index implies ((nb >> p) & 1u8 == 1u8) == ((byte >> p) & 1u8 == 1u8) by {
            assert(((nb >> p) & 1u8 == 1u8) == ((byte >> p) & 1u8 == 1u8)) by (bit_vector)
                requires
                    bit_index < 8,
                    p < 8,
                    p != bit_index,
                    mask == 1u8 << bit_index,
                    val ==> nb == byte | mask,
                    !val ==> nb == byte & !mask,
            ;
        }
        let ghost before = *self;
        self.storage[byte_index] = nb;
        assert forall|j: int| 0 <= j < 64 && j != index implies self.bit(j) == before.bit(j) by {
            if j / 8 == byte_index as int {
                assert((j % 8) as u8 != bit_index);
                assert(((nb >> ((j % 8) as u8)) & 1u8 == 1u8) == ((byte >> ((j % 8) as u8)) & 1u8 == 1u8));
            }
        }
    }

    /// Reads `bit_width` bits starting at `bit_offset`; bit `i` of the field is
    /// bit `i` of the result.
    pub fn get(&self, bit_offset: usize, bit_width: u8) -> (r: u64)
        requires
            bit_width <= 64,
            bit_offset + bit_width <= 64,
        ensures
            holds_field(*self, r, bit_offset as int, bit_width as int),
    {
        let mut val: u64 = 0;
        let mut i: usize = 0;
        proof {
            assert forall|j: int| 0 <= j < 64 implies !word_bit(0u64, j) by {
                let jj = j as u64;
                assert(((0u64 >> jj) & 1u64 == 1u64) == false) by (bit_vector);
            }
        }
        while i < bit_width as usize
            invariant
                i <= bit_width,
                bit_width <= 64,
                bit_offset + bit_width <= 64,
                forall|j: int| 0 <= j < 64 ==> word_bit(val, j) == (j < i && self.bit(bit_offset + j)),
            decreases bit_width - i,
        {
            if self.get_bit(i + bit_offset) {
                let ghost old_val = val;
                let ii = i as u64;
                val = val | (1u64 << ii);
                proof {
                    assert forall|j: int| 0 <= j < 64 implies word_bit(val, j) == (word_bit(old_val, j) || j == i) by {
                        let jj = j as u64;
                        assert((((old_val | (1u64 << ii)) >> jj) & 1u64 == 1u64) == (((old_val >> jj) & 1u64 == 1u64) || jj == ii)) by (bit_vector)
                            requires
                                ii < 64,
                                jj < 64,
                        ;
                    }
                }
            }
            i += 1;
        }
        val
    }

    /// Writes the low `bit_width` bits of `val` starting at `bit_offset`,
    /// leaving every other bit as it was.
    pub fn set(&mut self, bit_offset: usize, bit_width: u8, val: u64)
        requires
            bit_width <= 64,
            bit_offset + bit_width <= 64,
        ensures
            replaces_field(*old(self), *final(self), bit_offset as int, bit_width as int, val),
    {
        let ghost orig = *self;
        let mut i: usize = 0;
        while i < bit_width as usize
            invariant
                i <= bit_width,
                bit_width <= 64,
                bit_offset + bit_width <= 64,
                forall|j: int|
                    0 <= j < 64 ==> self.bit(j) == if bit_offset <= j < bit_offset + i {
                        word_bit(val, j - bit_offset)
                    } else {
                        orig.bit(j)
                    },
            decreases bit_width - i,
        {
            let ii = i as u64;
            let mask: u64 = 1u64 << ii;
            let val_bit_is_set = val & mask == mask;
            assert(val_bit_is_set == ((val >> ii) & 1u64 == 1u64)) by (bit_vector)
                requires
                    ii < 64,
                    mask == 1u64 << ii,
                    val_bit_is_set == (val & mask == mask),
            ;
            self.set_bit(i + bit_offset, val_bit_is_set);
            i += 1;
        }
    }
}

} // verus!
