use vstd::prelude::*;

verus! {

/// Whether bit `i` of `v` is set.
pub open spec fn bit_of(v: u8, i: int) -> bool {
    0 <= i < 8 && (v >> (i as u8)) & 1u8 == 1u8
}

/// A byte whose bits can be set, cleared and tested one at a time.
pub struct BitManipulator {
    value: u8,
}

impl View for BitManipulator {
    type V = u8;

    closed spec fn view(&self) -> u8 {
        self.value
    }
}

impl BitManipulator {
    /// A byte with every bit clear.
    pub fn new() -> (r: Self)
        ensures
            r@ == 0,
    {
        BitManipulator { value: 0 }
    }

    /// A byte holding `value`.
    pub fn new_from(value: u8) -> (r: Self)
        ensures
            r@ == value,
    {
        BitManipulator { value }
    }

    /// Sets bit `position`; the other bits keep their value.
    pub fn set_bit(&mut self, position: usize)
        requires
            position < 8,
        ensures
            final(self)@ == old(self)@ | (1u8 << position as u8),
            bit_of(final(self)@, position as int),
            forall|j: int| 0 <= j < 8 && j != position ==> bit_of(final(self)@, j) == bit_of(old(self)@, j),
    {
        let p = position as u8;
        let old_v = self.value;
        self.value = self.value | (1u8 << p);
        proof {
            let nv = self.value;
            assert((nv >> p) & 1u8 == 1u8) by (bit_vector)
                requires nv == old_v | (1u8 << p), p < 8u8;
            assert forall|j: int| 0 <= j < 8 && j != position implies bit_of(nv, j) == bit_of(old_v, j) by {
                let q = j as u8;
                assert((nv >> q) & 1u8 == (old_v >> q) & 1u8) by (bit_vector)
                    requires nv == old_v | (1u8 << p), p < 8u8, q < 8u8, q != p;
            }
        }
    }

    /// Clears bit `position`; the other bits keep their value.
    pub fn unset_bit(&mut self, position: usize)
        requires
            position < 8,
        ensures
            final(self)@ == old(self)@ & !(1u8 << position as u8),
            !bit_of(final(self)@, position as int),
            forall|j: int| 0 <= j < 8 && j != position ==> bit_of(final(self)@, j) == bit_of(old(self)@, j),
    {
        let p = position as u8;
        let old_v = self.value;
        self.value = self.value & !(1u8 << p);
        proof {
            let nv = self.value;
            assert((nv >> p) & 1u8 == 0u8) by (bit_vector)
                requires nv == old_v & !(1u8 << p), p < 8u8;
            assert forall|j: int| 0 <= j < 8 && j != position implies bit_of(nv, j) == bit_of(old_v, j) by {
                let q = j as u8;
                assert((nv >> q) & 1u8 == (old_v >> q) & 1u8) by (bit_vector)
                    requires nv == old_v & !(1u8 << p), p < 8u8, q < 8u8, q != p;
            }
        }
    }

    /// Whether bit `position` is set.
    pub fn extract_bit(&self, position: usize) -> (r: bool)
        requires
            position < 8,
        ensures
            r == bit_of(self@, position as int),
    {
        let p = position as u8;
        let v = self.value;
        assert((v >> p) & 1u8 != 0u8 <==> (v >> p) & 1u8 == 1u8) by (bit_vector);
        ((self.value >> p) & 1u8) != 0
    }

    /// The whole byte.
    pub fn get(&self) -> (r: u8)
        ensures
            r == self@,
    {
        self.value
    }

    /// Replaces the whole byte.
    pub fn set(&mut self, new_value: u8)
        ensures
            final(self)@ == new_value,
    {
        self.value = new_value;
    }

    /// Toggles the bits that are set in `other`.
    pub fn bitxor_assign(&mut self, other: u8)
        ensures
            final(self)@ == old(self)@ ^ other,
    {
        self.value = self.value ^ other;
    }

    /// Sets the bits that are set in `other`.
    pub fn bitor_assign(&mut self, other: u8)
        ensures
            final(self)@ == old(self)@ | other,
    {
        self.value = self.value | other;
    }
}

} // verus!
