//! Pointer buttons and the set of buttons held down.
use vstd::prelude::*;

verus! {

/// A pointer button as the window reports it.
#[derive(Debug, Clone, Copy, PartialEq, Eq, Hash, Structural)]
pub enum PointerButton {
    /// The left mouse button.
    Primary,
    /// The right mouse button.
    Secondary,
    /// The middle mouse button.
    Tertiary,
}

impl PointerButton {
    /// The bit that stands for the button in [`PointerButtons`].
    pub open spec fn spec_bit(self) -> u8 {
        match self {
            PointerButton::Primary => 1u8,
            PointerButton::Secondary => 4u8,
            PointerButton::Tertiary => 8u8,
        }
    }

    /// The bit that stands for the button in [`PointerButtons`]: `1`, `1 << 2` or `1 << 3`.
    pub fn bit(self) -> (r: u8)
        ensures
            r == self.spec_bit(),
    {
        match self {
            PointerButton::Primary => 1,
            PointerButton::Secondary => 4,
            PointerButton::Tertiary => 8,
        }
    }
}

/// The buttons held down, one bit each.
#[derive(Debug, Default, Clone, Copy)]
pub struct PointerButtons(u8);

/// Whether `bits` has the bit of `which`.
pub open spec fn has_button(bits: u8, which: PointerButton) -> bool {
    bits & which.spec_bit() == which.spec_bit()
}

impl PointerButtons {
    /// The bits of the held buttons.
    pub closed spec fn bits(&self) -> u8 {
        self.0
    }

    /// Whether button `which` is held.
    pub fn contains(&self, which: PointerButton) -> (r: bool)
        ensures
            r == has_button(self.bits(), which),
    {
        let bit = which.bit();
        self.0 & bit == bit
    }

    /// Marks button `which` held (`value`) or released; the other buttons keep their state.
    pub fn set(&mut self, which: PointerButton, value: bool)
        ensures
            has_button(final(self).bits(), which) == value,
            forall|other: PointerButton|
                other != which ==> has_button(final(self).bits(), other) == has_button(
                    old(self).bits(),
                    other,
                ),
    {
        let bit = which.bit();
        let old_bits = self.0;
        if value {
            self.0 = old_bits | bit;
        } else {
            self.0 = old_bits & !bit;
        }
        let new_bits = self.0;
        proof {
            assert forall|other: PointerButton| other != which implies has_button(new_bits, other)
                == has_button(old_bits, other) by {
                let ob = other.spec_bit();
                assert(ob != bit);
                assert((bit == 1u8 || bit == 4u8 || bit == 8u8) && (ob == 1u8 || ob == 4u8 || ob
                    == 8u8) && ob != bit ==> ((old_bits | bit) & ob == ob) == (old_bits & ob == ob)
                    && ((old_bits & !bit) & ob == ob) == (old_bits & ob == ob)) by (bit_vector);
            }
            assert((bit == 1u8 || bit == 4u8 || bit == 8u8) ==> (old_bits | bit) & bit == bit
                && (old_bits & !bit) & bit != bit) by (bit_vector);
        }
    }
}

} // verus!
