//! The allocator of virtual registers for one function body, and the handles it issues.

use crate::flags::{Flag, RegisterFlags};
use crate::model::{
    acquired, acquired_persistent, has_room, is_lowest_free, lemma_acquire_then_persist,
    lemma_lowest_free_is_next_index, next_index, persisted, releasable, released, settled,
    SlotState,
};
use vstd::prelude::*;

verus! {

/// One slot of the register file.
#[derive(Debug)]
pub(crate) struct Register {
    flags: RegisterFlags,
}

impl Register {
    /// What the flags of the slot mean.
    pub(crate) closed spec fn state(self) -> SlotState {
        if !self.flags.has(Flag::Used) {
            SlotState::Free
        } else if self.flags.has(Flag::Persistent) {
            SlotState::Persistent
        } else {
            SlotState::Transient
        }
    }

    /// A slot that is not in use is not persistent either.
    pub(crate) closed spec fn sound(self) -> bool {
        self.flags.has(Flag::Persistent) ==> self.flags.has(Flag::Used)
    }
}

/// A handle on one register. It cannot be copied: whoever holds it is the only one to
/// name its slot, until the handle goes back to the allocator.
#[derive(Debug)]
pub struct Reg {
    index: u32,
    flags: RegisterFlags,
}

impl Reg {
    /// The index of the slot that the handle names.
    pub closed spec fn spec_index(&self) -> u32 {
        self.index
    }

    /// Whether the handle was issued for a persistent register.
    pub closed spec fn spec_is_persistent(&self) -> bool {
        self.flags.has(Flag::Persistent)
    }

    /// The index of the slot that the handle names; it is the operand that stands for
    /// the register in an instruction.
    #[verifier::when_used_as_spec(spec_index)]
    pub fn index(&self) -> (index: u32)
        ensures
            index == self.spec_index(),
    {
        self.index
    }

    /// Tells whether the handle was issued for a persistent register. Such a handle is
    /// never released.
    #[verifier::when_used_as_spec(spec_is_persistent)]
    pub fn is_persistent(&self) -> (b: bool)
        ensures
            b == self.spec_is_persistent(),
    {
        self.flags.is_persistent()
    }
}

/// The register file of one function body.
#[derive(Debug)]
pub struct RegisterAllocator {
    registers: Vec<Register>,
}

impl View for RegisterAllocator {
    type V = Seq<SlotState>;

    /// The state of every slot, by index.
    closed spec fn view(&self) -> Seq<SlotState> {
        self.registers@.map_values(|register: Register| register.state())
    }
}

impl RegisterAllocator {
    /// Every index fits the operand of an instruction, and no slot is persistent
    /// without being in use.
    #[verifier::type_invariant]
    spec fn well_formed(&self) -> bool {
        &&& self.registers.len() <= u32::MAX
        &&& forall|i: int|
            0 <= i < self.registers.len() ==> (#[trigger] self.registers[i]).sound()
    }

    /// The index of the lowest free slot, or the number of slots when none is free.
    fn lowest_free(&self) -> (index: usize)
        ensures
            index == next_index(self@),
            is_lowest_free(self@, index as int),
    {
        let n: usize = self.registers.len();
        let mut i: usize = 0;
        while i < n && self.registers[i].flags.is_used()
            invariant
                n == self.registers.len(),
                i <= n,
                forall|j: int| 0 <= j < i ==> (#[trigger] self@[j]).in_use(),
            decreases n - i,
        {
            i += 1;
        }
        proof {
            lemma_lowest_free_is_next_index(self@, i as int);
        }
        i
    }

    /// Tells whether a register can still be acquired: whether the index of the next
    /// register fits the operand of an instruction.
    pub fn can_alloc(&self) -> (b: bool)
        ensures
            b == has_room(self@),
    {
        self.registers.len() < u32::MAX as usize || self.lowest_free() < self.registers.len()
    }

    /// Acquires a register: the free slot of lowest index, or a new slot at the end of
    /// the register file when every slot is in use.
    pub fn allocate(&mut self) -> (reg: Reg)
        requires
            has_room(old(self)@),
        ensures
            reg.index() == next_index(old(self)@),
            is_lowest_free(old(self)@, reg.index() as int),
            !reg.is_persistent(),
            final(self)@ == acquired(old(self)@),
    {
        proof {
            use_type_invariant(&*self);
        }
        let i: usize = self.lowest_free();
        let mut registers: Vec<Register> = Vec::new();
        std::mem::swap(&mut registers, &mut self.registers);
        let mut flags = RegisterFlags::empty();
        if i < registers.len() {
            flags = registers[i].flags;
            assert(!flags.has(Flag::Persistent));
            flags.insert(Flag::Used);
            registers.set(i, Register { flags });
        } else {
            flags.insert(Flag::Used);
            registers.push(Register { flags });
        }
        self.registers = registers;
        assert(self@ == acquired(old(self)@));
        Reg { index: i as u32, flags }
    }

    /// Makes a transient register persistent. The handle that comes back names the same
    /// slot and can no longer be released.
    fn persist(&mut self, reg: Reg) -> (kept: Reg)
        requires
            !reg.is_persistent(),
            releasable(old(self)@, reg.index() as int),
        ensures
            kept.index() == reg.index(),
            kept.is_persistent(),
            final(self)@ == persisted(old(self)@, reg.index() as int),
    {
        proof {
            use_type_invariant(&*self);
        }
        let index: usize = reg.index as usize;
        let mut registers: Vec<Register> = Vec::new();
        std::mem::swap(&mut registers, &mut self.registers);
        let mut flags = registers[index].flags;
        flags.insert(Flag::Persistent);
        registers.set(index, Register { flags });
        self.registers = registers;
        assert(self@ == persisted(old(self)@, reg.index() as int));
        Reg { index: reg.index, flags }
    }

    /// Acquires a register that is kept until the function ends. Its slot is chosen as
    /// [`RegisterAllocator::allocate`] chooses it, and is never handed out again.
    pub fn alloc_persistent(&mut self) -> (reg: Reg)
        requires
            has_room(old(self)@),
        ensures
            reg.index() == next_index(old(self)@),
            is_lowest_free(old(self)@, reg.index() as int),
            reg.is_persistent(),
            final(self)@ == acquired_persistent(old(self)@),
    {
        let reg = self.allocate();
        proof {
            lemma_acquire_then_persist(old(self)@);
        }
        self.persist(reg)
    }

    /// Tells whether `reg` can be released: whether it is a transient handle and its
    /// slot holds a transient value.
    pub fn can_dealloc(&self, reg: &Reg) -> (b: bool)
        ensures
            b == (!reg.is_persistent() && releasable(self@, reg.index() as int)),
    {
        let index: usize = reg.index as usize;
        if reg.flags.is_persistent() || index >= self.registers.len() {
            false
        } else {
            let flags = self.registers[index].flags;
            flags.is_used() && !flags.is_persistent()
        }
    }

    /// Releases a transient register: its slot is free again and is the one handed out
    /// next, unless a slot of lower index is free too.
    pub fn dealloc(&mut self, reg: Reg)
        requires
            !reg.is_persistent(),
            releasable(old(self)@, reg.index() as int),
        ensures
            final(self)@ == released(old(self)@, reg.index() as int),
    {
        proof {
            use_type_invariant(&*self);
        }
        let index: usize = reg.index as usize;
        let mut registers: Vec<Register> = Vec::new();
        std::mem::swap(&mut registers, &mut self.registers);
        let mut flags = registers[index].flags;
        flags.set(Flag::Used, false);
        registers.set(index, Register { flags });
        self.registers = registers;
        assert(self@ == released(old(self)@, reg.index() as int));
    }

    /// Tells whether the register file can be closed: whether no transient register is
    /// still in use.
    pub fn can_finish(&self) -> (b: bool)
        ensures
            b == settled(self@),
    {
        let n: usize = self.registers.len();
        let mut i: usize = 0;
        while i < n
            invariant
                n == self.registers.len(),
                i <= n,
                forall|j: int| 0 <= j < i ==> !(#[trigger] self@[j] is Transient),
            decreases n - i,
        {
            let flags = self.registers[i].flags;
            if flags.is_used() && !flags.is_persistent() {
                assert(self@[i as int] is Transient);
                return false;
            }
            i += 1;
        }
        true
    }

    /// Closes the register file and returns the number of slots that were ever created,
    /// which is the size of the frame that the function needs when it runs.
    pub fn finish(self) -> (frame_size: u32)
        requires
            settled(self@),
        ensures
            frame_size == self@.len(),
    {
        proof {
            use_type_invariant(&self);
        }
        self.registers.len() as u32
    }
}

impl Default for RegisterAllocator {
    /// A register file without any slot.
    fn default() -> (allocator: Self)
        ensures
            allocator@ == Seq::<SlotState>::empty(),
    {
        RegisterAllocator { registers: Vec::new() }
    }
}

} // verus!
