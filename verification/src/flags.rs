//! The flags that describe one register slot, kept as a bit mask.

use vstd::prelude::*;

verus! {

/// One flag of a register slot.
#[derive(Debug, Clone, Copy, PartialEq, Eq, Structural)]
pub enum Flag {
    /// The slot currently holds a live value.
    Used,
    /// The slot holds its value until the function ends and is never handed out again.
    Persistent,
}

impl Flag {
    /// The bit that stands for this flag in the mask of a [`RegisterFlags`].
    spec fn mask(self) -> u8 {
        match self {
            Flag::Used => 0b0000_0001,
            Flag::Persistent => 0b0000_0010,
        }
    }

    fn bit(self) -> (m: u8)
        ensures
            m == self.mask(),
    {
        match self {
            Flag::Used => 0b0000_0001,
            Flag::Persistent => 0b0000_0010,
        }
    }
}

/// A set of [`Flag`]s.
#[derive(Debug, Clone, Copy)]
pub struct RegisterFlags {
    bits: u8,
}

/// Setting one bit of a mask leaves every other single bit as it was.
proof fn lemma_set_bit(bits: u8, m: u8, other: u8)
    requires
        m == 1 || m == 2,
        other == 1 || other == 2,
    ensures
        (bits | m) & m == m,
        other != m ==> ((bits | m) & other == other <==> bits & other == other),
{
    assert((bits | m) & m == m) by (bit_vector);
    assert((m == 1 || m == 2) && (other == 1 || other == 2) && other != m ==> ((bits | m) & other
        == other <==> bits & other == other)) by (bit_vector);
}

/// Clearing one bit of a mask leaves every other single bit as it was.
proof fn lemma_clear_bit(bits: u8, m: u8, other: u8)
    requires
        m == 1 || m == 2,
        other == 1 || other == 2,
    ensures
        (bits & !m) & m != m,
        other != m ==> ((bits & !m) & other == other <==> bits & other == other),
{
    assert((m == 1 || m == 2) ==> (bits & !m) & m != m) by (bit_vector);
    assert((m == 1 || m == 2) && (other == 1 || other == 2) && other != m ==> ((bits & !m) & other
        == other <==> bits & other == other)) by (bit_vector);
}

impl RegisterFlags {
    /// Whether `flag` is in the set.
    pub closed spec fn has(self, flag: Flag) -> bool {
        self.bits & flag.mask() == flag.mask()
    }

    /// The set that holds no flag.
    pub fn empty() -> (flags: Self)
        ensures
            forall|flag: Flag| !flags.has(flag),
    {
        assert(0u8 & 1u8 != 1u8 && 0u8 & 2u8 != 2u8) by (bit_vector);
        RegisterFlags { bits: 0 }
    }

    /// Tells whether `flag` is in the set.
    pub fn contains(self, flag: Flag) -> (b: bool)
        ensures
            b == self.has(flag),
    {
        let m: u8 = flag.bit();
        self.bits & m == m
    }

    /// Adds `flag` to the set.
    pub fn insert(&mut self, flag: Flag)
        ensures
            forall|other: Flag| final(self).has(other) == (other == flag || old(self).has(other)),
    {
        let m: u8 = flag.bit();
        proof {
            lemma_set_bit(self.bits, m, Flag::Used.mask());
            lemma_set_bit(self.bits, m, Flag::Persistent.mask());
        }
        self.bits = self.bits | m;
    }

    /// Takes `flag` out of the set.
    pub fn remove(&mut self, flag: Flag)
        ensures
            forall|other: Flag| final(self).has(other) == (other != flag && old(self).has(other)),
    {
        let m: u8 = flag.bit();
        proof {
            lemma_clear_bit(self.bits, m, Flag::Used.mask());
            lemma_clear_bit(self.bits, m, Flag::Persistent.mask());
        }
        self.bits = self.bits & !m;
    }

    /// Adds `flag` to the set when `value` is true and takes it out otherwise.
    pub fn set(&mut self, flag: Flag, value: bool)
        ensures
            forall|other: Flag|
                final(self).has(other) == (if other == flag {
                    value
                } else {
                    old(self).has(other)
                }),
    {
        if value {
            self.insert(flag);
        } else {
            self.remove(flag);
        }
    }

    /// Tells whether the slot holds a live value.
    pub fn is_used(self) -> (b: bool)
        ensures
            b == self.has(Flag::Used),
    {
        self.contains(Flag::Used)
    }

    /// Tells whether the slot is kept until the function ends.
    pub fn is_persistent(self) -> (b: bool)
        ensures
            b == self.has(Flag::Persistent),
    {
        self.contains(Flag::Persistent)
    }
}

impl Default for RegisterFlags {
    /// The empty set.
    fn default() -> (flags: Self)
        ensures
            forall|flag: Flag| !flags.has(flag),
    {
        RegisterFlags::empty()
    }
}

} // verus!
