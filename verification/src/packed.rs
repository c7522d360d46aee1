//! Flat storage of small unsigned values at the narrowest of four bit
//! widths (4, 8, 16 or 32 bits per element), rescaled upward when a
//! value arrives that the current width cannot hold.

use vstd::prelude::*;

verus! {

/// The backing buffer, tagged by element width. 4-bit elements pack two
/// to a byte, the even index in the low nibble.
#[derive(Clone, Debug)]
pub enum PackedData {
    U4(Vec<u8>),
    U8(Vec<u8>),
    U16(Vec<u16>),
    U32(Vec<u32>),
}

/// A fixed-length array of unsigned values, packed at the narrowest
/// width that has held every value written so far.
#[derive(Clone, Debug)]
pub struct PackedUints {
    pub data: PackedData,
    /// Largest value the current width can hold.
    pub mask: usize,
    /// Number of elements addressed, independent of width.
    pub length: usize,
}

/// One half of a packed byte.
pub open spec fn spec_nibble(b: u8, hi: bool) -> u8 {
    if hi {
        b >> 4u8
    } else {
        b & 15u8
    }
}

/// Both halves of a packed byte are 4-bit values.
proof fn lemma_nibble_bounds(b: u8)
    ensures
        spec_nibble(b, true) <= 15,
        spec_nibble(b, false) <= 15,
{
    assert((b >> 4u8) <= 15 && (b & 15u8) <= 15) by (bit_vector);
}

/// Writing one nibble keeps the other and stores the value exactly.
proof fn lemma_nibble_set(b: u8, v: u8, hi: bool)
    requires
        v <= 15,
    ensures
        hi ==> spec_nibble((b & 15u8) | (v << 4u8), true) == v && spec_nibble(
            (b & 15u8) | (v << 4u8),
            false,
        ) == spec_nibble(b, false),
        !hi ==> spec_nibble((b & 0xF0u8) | v, false) == v && spec_nibble(
            (b & 0xF0u8) | v,
            true,
        ) == spec_nibble(b, true),
{
    assert(v <= 15 ==> ((b & 15u8) | (v << 4u8)) >> 4u8 == v) by (bit_vector);
    assert(((b & 15u8) | (v << 4u8)) & 15u8 == b & 15u8) by (bit_vector);
    assert(v <= 15 ==> ((b & 0xF0u8) | v) & 15u8 == v) by (bit_vector);
    assert(v <= 15 ==> ((b & 0xF0u8) | v) >> 4u8 == b >> 4u8) by (bit_vector);
}

impl PackedUints {
    /// The value stored at an element index, whatever the width.
    pub open spec fn value_at(&self, i: int) -> usize {
        match self.data {
            PackedData::U4(b) => spec_nibble(b@[i / 2], i % 2 == 1) as usize,
            PackedData::U8(b) => b@[i] as usize,
            PackedData::U16(b) => b@[i] as usize,
            PackedData::U32(b) => b@[i] as usize,
        }
    }

    /// The buffer length and width tag agree with the element count,
    /// and the width can hold exactly the values up to `mask`.
    pub open spec fn wf(&self) -> bool {
        match self.data {
            PackedData::U4(b) => self.mask == 15 && b@.len() == (self.length + 1) / 2,
            PackedData::U8(b) => self.mask == 255 && b@.len() == self.length,
            PackedData::U16(b) => self.mask == 65535 && b@.len() == self.length,
            PackedData::U32(b) => self.mask == 0xFFFF_FFFFusize && b@.len() == self.length,
        }
    }

    /// Every stored value fits under the current mask.
    pub proof fn lemma_values_bounded(&self, i: int)
        requires
            self.wf(),
            0 <= i < self.length,
        ensures
            self@[i] <= self.mask,
            self@[i] <= 0xFFFF_FFFFusize,
    {
        match self.data {
            PackedData::U4(b) => {
                lemma_nibble_bounds(b@[i / 2]);
            },
            _ => {},
        }
    }
}

impl View for PackedUints {
    type V = Seq<usize>;

    open spec fn view(&self) -> Seq<usize> {
        Seq::new(self.length as nat, |i: int| self.value_at(i))
    }
}

/// Stores a 4-bit value in one half of the byte `i / 2`, leaving the
/// other half and every other byte unchanged.
fn set_nibble(b: &mut Vec<u8>, i: usize, v: u8)
    requires
        i / 2 < old(b)@.len(),
        v <= 15,
    ensures
        final (b)@.len() == old(b)@.len(),
        forall|k: int| 0 <= k < old(b)@.len() && k != i as int / 2 ==> final (b)@[k] == old(
            b,
        )@[k],
        spec_nibble(final (b)@[i as int / 2], i % 2 == 1) == v,
        spec_nibble(final (b)@[i as int / 2], i % 2 == 0) == spec_nibble(
            old(b)@[i as int / 2],
            i % 2 == 0,
        ),
{
    let j = i / 2;
    let old_b = b[j];
    let new_b: u8 = if i % 2 == 0 {
        (old_b & 0xF0) | v
    } else {
        (old_b & 15) | (v << 4u8)
    };
    b[j] = new_b;
    proof {
        lemma_nibble_set(old_b, v, i % 2 == 1);
    }
}

/// A vector of `n` copies of one value.
pub(crate) fn filled<T: Copy>(v: T, n: usize) -> (r: Vec<T>)
    ensures
        r@ == Seq::new(n as nat, |i: int| v),
{
    let mut r: Vec<T> = Vec::new();
    let mut i: usize = 0;
    while i < n
        invariant
            i <= n,
            r@ =~= Seq::new(i as nat, |j: int| v),
        decreases n - i,
    {
        r.push(v);
        i = i + 1;
    }
    proof {
        assert(r@ =~= Seq::new(n as nat, |i: int| v));
    }
    r
}

impl PackedUints {
    /// A packed array of `length` zeros, at the narrowest width.
    pub fn new(length: usize) -> (r: Self)
        requires
            length < usize::MAX,
        ensures
            r.wf(),
            r.length == length,
            r@ == Seq::new(length as nat, |i: int| 0usize),
    {
        let buf = filled(0u8, (length + 1) / 2);
        let r = PackedUints { data: PackedData::U4(buf), mask: 15, length };
        proof {
            assert forall|i: int| 0 <= i < length implies r.value_at(i) == 0usize by {
                assert(spec_nibble(0u8, true) == 0 && spec_nibble(0u8, false) == 0)
                    by (bit_vector);
            }
            assert(r@ =~= Seq::new(length as nat, |i: int| 0usize));
        }
        r
    }

    /// The narrowest mask that holds `value`.
    pub open spec fn spec_mask_for(value: usize) -> usize {
        if value <= 15 {
            15usize
        } else if value <= 255 {
            255usize
        } else if value <= 65535 {
            65535usize
        } else {
            0xFFFF_FFFFusize
        }
    }

    /// Builds a packed array holding exactly `values`, at the narrowest
    /// width that fits their maximum.
    pub fn from_values(values: &[usize]) -> (r: Self)
        requires
            values@.len() < usize::MAX,
            forall|i: int| 0 <= i < values@.len() ==> values@[i] <= 0xFFFF_FFFFusize,
        ensures
            r.wf(),
            r.length == values@.len(),
            r@ == values@,
    {
        let n = values.len();
        let mut max: usize = 0;
        let mut i: usize = 0;
        while i < n
            invariant
                i <= n,
                n == values@.len(),
                forall|j: int| 0 <= j < i ==> values@[j] <= max,
                max == 0 || exists|j: int| 0 <= j < i && values@[j] == max,
                forall|j: int| 0 <= j < values@.len() ==> values@[j] <= 0xFFFF_FFFFusize,
                max <= 0xFFFF_FFFFusize,
            decreases n - i,
        {
            if values[i] > max {
                max = values[i];
            }
            i = i + 1;
        }
        let mut r = if max <= 15 {
            PackedUints { data: PackedData::U4(filled(0u8, (n + 1) / 2)), mask: 15, length: n }
        } else if max <= 255 {
            PackedUints { data: PackedData::U8(filled(0u8, n)), mask: 255, length: n }
        } else if max <= 65535 {
            PackedUints { data: PackedData::U16(filled(0u16, n)), mask: 65535, length: n }
        } else {
            PackedUints {
                data: PackedData::U32(filled(0u32, n)),
                mask: 0xFFFF_FFFF,
                length: n,
            }
        };
        proof {
            assert forall|k: int| 0 <= k < n implies r.value_at(k) == 0usize by {
                if r.data is U4 {
                    assert(spec_nibble(0u8, true) == 0 && spec_nibble(0u8, false) == 0)
                        by (bit_vector);
                }
            }
        }
        let mut i: usize = 0;
        while i < n
            invariant
                i <= n,
                n == values@.len(),
                r.wf(),
                r.length == n,
                forall|j: int| 0 <= j < values@.len() ==> values@[j] <= max,
                max <= r.mask,
                forall|k: int| 0 <= k < i ==> r@[k] == values@[k],
                forall|k: int| i <= k < n ==> r@[k] == 0usize,
            decreases n - i,
        {
            proof {
                assert(values@[i as int] <= max);
            }
            r.set_in_place(i, values[i]);
            i = i + 1;
        }
        proof {
            assert(r@ =~= values@);
        }
        r
    }

    /// Reads the element at `i`.
    pub fn get(&self, i: usize) -> (r: usize)
        requires
            self.wf(),
            i < self.length,
        ensures
            r == self@[i as int],
            r <= self.mask,
    {
        proof {
            self.lemma_values_bounded(i as int);
        }
        match &self.data {
            PackedData::U4(b) => {
                let byte = b[i / 2];
                let v: u8 = if i % 2 == 0 {
                    byte & 15
                } else {
                    byte >> 4
                };
                v as usize
            },
            PackedData::U8(b) => b[i] as usize,
            PackedData::U16(b) => b[i] as usize,
            PackedData::U32(b) => b[i] as usize,
        }
    }

    /// Writes `value` at `i` without changing the width; the value must
    /// already fit.
    fn set_in_place(&mut self, i: usize, value: usize)
        requires
            old(self).wf(),
            i < old(self).length,
            value <= old(self).mask,
        ensures
            final (self).wf(),
            final (self).length == old(self).length,
            final (self).mask == old(self).mask,
            final (self)@ == old(self)@.update(i as int, value),
    {
        let ghost prev = *self;
        match &mut self.data {
            PackedData::U4(b) => {
                set_nibble(b, i, value as u8);
            },
            PackedData::U8(b) => {
                b[i] = value as u8;
            },
            PackedData::U16(b) => {
                b[i] = value as u16;
            },
            PackedData::U32(b) => {
                b[i] = value as u32;
            },
        }
        proof {
            assert forall|k: int| 0 <= k < self.length && k != i implies self.value_at(k)
                == prev.value_at(k) by {
                match prev.data {
                    PackedData::U4(pb) => {
                        if k / 2 == i as int / 2 {
                            assert(k % 2 != i as int % 2);
                        }
                    },
                    _ => {},
                }
            }
            assert(self.value_at(i as int) == value);
            assert(self@ =~= prev@.update(i as int, value));
        }
    }

    /// Re-encodes every element at the narrowest width that holds
    /// `value`, which must exceed the current mask.
    fn rescale(&mut self, value: usize)
        requires
            old(self).wf(),
            old(self).mask < value <= 0xFFFF_FFFFusize,
        ensures
            final (self).wf(),
            final (self).length == old(self).length,
            final (self)@ == old(self)@,
            final (self).mask == Self::spec_mask_for(value),
            value <= final (self).mask,
    {
        let n = self.length;
        if value <= 255 {
            let mut buf: Vec<u8> = Vec::new();
            let mut i: usize = 0;
            while i < n
                invariant
                    i <= n,
                    self == old(self),
                    self.wf(),
                    n == self.length,
                    self.mask <= 255,
                    buf@.len() == i,
                    forall|k: int| 0 <= k < i ==> buf@[k] as usize == self@[k],
                decreases n - i,
            {
                buf.push(self.get(i) as u8);
                i = i + 1;
            }
            let r = PackedUints { data: PackedData::U8(buf), mask: 255, length: n };
            proof {
                assert(r@ =~= old(self)@);
            }
            *self = r;
        } else if value <= 65535 {
            let mut buf: Vec<u16> = Vec::new();
            let mut i: usize = 0;
            while i < n
                invariant
                    i <= n,
                    self == old(self),
                    self.wf(),
                    n == self.length,
                    self.mask <= 65535,
                    buf@.len() == i,
                    forall|k: int| 0 <= k < i ==> buf@[k] as usize == self@[k],
                decreases n - i,
            {
                buf.push(self.get(i) as u16);
                i = i + 1;
            }
            let r = PackedUints { data: PackedData::U16(buf), mask: 65535, length: n };
            proof {
                assert(r@ =~= old(self)@);
            }
            *self = r;
        } else {
            let mut buf: Vec<u32> = Vec::new();
            let mut i: usize = 0;
            while i < n
                invariant
                    i <= n,
                    self == old(self),
                    self.wf(),
                    n == self.length,
                    buf@.len() == i,
                    forall|k: int| 0 <= k < i ==> buf@[k] as usize == self@[k],
                decreases n - i,
            {
                proof {
                    self.lemma_values_bounded(i as int);
                }
                buf.push(self.get(i) as u32);
                i = i + 1;
            }
            let r = PackedUints { data: PackedData::U32(buf), mask: 0xFFFF_FFFF, length: n };
            proof {
                assert(r@ =~= old(self)@);
            }
            *self = r;
        }
    }

    /// Writes `value` at `i`, first widening the encoding if the value
    /// does not fit the current width.
    pub fn set(&mut self, i: usize, value: usize)
        requires
            old(self).wf(),
            i < old(self).length,
            value <= 0xFFFF_FFFFusize,
        ensures
            final (self).wf(),
            final (self).length == old(self).length,
            final (self)@ == old(self)@.update(i as int, value),
            old(self).mask <= final (self).mask,
    {
        if value > self.mask {
            self.rescale(value);
        }
        self.set_in_place(i, value);
    }

    /// Writes `value` at `start`, `start + step`, ... below `end`.
    pub fn set_range_step(&mut self, start: usize, end: usize, step: usize, value: usize)
        requires
            old(self).wf(),
            end <= old(self).length,
            step > 0,
            value <= 0xFFFF_FFFFusize,
        ensures
            final (self).wf(),
            final (self).length == old(self).length,
            final (self)@ == Seq::new(
                old(self)@.len(),
                |k: int|
                    if start <= k < end && (k - start) % (step as int) == 0 {
                        value
                    } else {
                        old(self)@[k]
                    },
            ),
            old(self).mask <= final (self).mask,
    {
        let ghost target = Seq::new(
            old(self)@.len(),
            |k: int|
                if start <= k < end && (k - start) % (step as int) == 0 {
                    value
                } else {
                    old(self)@[k]
                },
        );
        let mut i: usize = start;
        proof {
            vstd::arithmetic::div_mod::lemma_small_mod(0nat, step as nat);
        }
        while i < end
            invariant
                old(self).wf(),
                self.wf(),
                self.length == old(self).length,
                end <= self.length,
                step > 0,
                value <= 0xFFFF_FFFFusize,
                old(self).mask <= self.mask,
                start <= i,
                (i - start) % (step as int) == 0 || i == end,
                target == Seq::new(
                    old(self)@.len(),
                    |k: int|
                        if start <= k < end && (k - start) % (step as int) == 0 {
                            value
                        } else {
                            old(self)@[k]
                        },
                ),
                forall|k: int| 0 <= k < i && k < self@.len() ==> self@[k] == target[k],
                forall|k: int| i <= k < self@.len() ==> self@[k] == old(self)@[k],
            decreases end - i,
        {
            self.set(i, value);
            proof {
                assert(target[i as int] == value);
                assert forall|k: int| i < k < i + step && k < self@.len() implies target[k]
                    == old(self)@[k] by {
                    if start <= k < end {
                        vstd::arithmetic::div_mod::lemma_add_mod_noop(
                            i as int - start,
                            k - i,
                            step as int,
                        );
                        vstd::arithmetic::div_mod::lemma_small_mod(
                            (k - i) as nat,
                            step as nat,
                        );
                        vstd::arithmetic::div_mod::lemma_mod_self_0(step as int);
                    }
                }
            }
            if end - i > step {
                proof {
                    vstd::arithmetic::div_mod::lemma_add_mod_noop(
                        i as int - start,
                        step as int,
                        step as int,
                    );
                    vstd::arithmetic::div_mod::lemma_mod_self_0(step as int);
                    vstd::arithmetic::div_mod::lemma_small_mod(0nat, step as nat);
                }
                i = i + step;
            } else {
                i = end;
            }
        }
        proof {
            assert(final (self)@ =~= target);
        }
    }

    /// Every element, widened to 16 bits.
    pub fn unpack_u16(&self) -> (r: Vec<u16>)
        requires
            self.wf(),
            forall|i: int| 0 <= i < self@.len() ==> self@[i] <= u16::MAX as usize,
        ensures
            r@.len() == self@.len(),
            forall|i: int| 0 <= i < self@.len() ==> r@[i] as usize == self@[i],
    {
        let n = self.length;
        let mut r: Vec<u16> = Vec::new();
        let mut i: usize = 0;
        while i < n
            invariant
                i <= n,
                self.wf(),
                n == self.length,
                forall|k: int| 0 <= k < self@.len() ==> self@[k] <= u16::MAX as usize,
                r@.len() == i,
                forall|k: int| 0 <= k < i ==> r@[k] as usize == self@[k],
            decreases n - i,
        {
            r.push(self.get(i) as u16);
            i = i + 1;
        }
        r
    }
}

} // verus!
