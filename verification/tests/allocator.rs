use register_allocator::register::{Reg, RegisterAllocator};

fn acquire(allocator: &mut RegisterAllocator) -> Reg {
    assert!(allocator.can_alloc());
    allocator.allocate()
}

fn acquire_persistent(allocator: &mut RegisterAllocator) -> Reg {
    assert!(allocator.can_alloc());
    allocator.alloc_persistent()
}

fn release(allocator: &mut RegisterAllocator, reg: Reg) {
    assert!(allocator.can_dealloc(&reg));
    allocator.dealloc(reg);
}

fn close(allocator: RegisterAllocator) -> u32 {
    assert!(allocator.can_finish());
    allocator.finish()
}

#[test]
fn new_allocator_has_no_slots() {
    let allocator = RegisterAllocator::default();
    assert!(allocator.can_alloc());
    assert!(allocator.can_finish());
    assert_eq!(allocator.finish(), 0);
}

#[test]
fn first_register_is_slot_zero() {
    let mut allocator = RegisterAllocator::default();
    let reg = acquire(&mut allocator);
    assert_eq!(reg.index(), 0);
    assert!(!reg.is_persistent());
    release(&mut allocator, reg);
    assert_eq!(close(allocator), 1);
}

#[test]
fn released_slot_is_reused_before_growth() {
    let mut allocator = RegisterAllocator::default();
    let r0 = acquire(&mut allocator);
    let r1 = acquire(&mut allocator);
    let r2 = acquire(&mut allocator);
    assert_eq!(r0.index(), 0);
    assert_eq!(r1.index(), 1);
    assert_eq!(r2.index(), 2);
    release(&mut allocator, r1);
    let again = acquire(&mut allocator);
    assert_eq!(again.index(), 1);
    release(&mut allocator, r0);
    release(&mut allocator, r2);
    release(&mut allocator, again);
    assert_eq!(close(allocator), 3);
}

#[test]
fn persistent_register_needs_no_release() {
    let mut allocator = RegisterAllocator::default();
    let reg = acquire_persistent(&mut allocator);
    assert_eq!(reg.index(), 0);
    assert!(reg.is_persistent());
    assert!(allocator.can_finish());
    assert_eq!(allocator.finish(), 1);
}

#[test]
fn second_release_of_a_slot_is_refused() {
    let mut allocator = RegisterAllocator::default();
    let mut twin = RegisterAllocator::default();
    let reg = acquire(&mut allocator);
    let same_index = acquire(&mut twin);
    assert_eq!(reg.index(), 0);
    assert_eq!(same_index.index(), 0);
    release(&mut allocator, reg);
    assert!(!allocator.can_dealloc(&same_index));
    release(&mut twin, same_index);
    assert_eq!(close(allocator), 1);
    assert_eq!(close(twin), 1);
}

#[test]
fn nested_allocators_are_independent() {
    let mut outer = RegisterAllocator::default();
    let o0 = acquire(&mut outer);
    let o1 = acquire(&mut outer);
    assert_eq!(o0.index(), 0);
    assert_eq!(o1.index(), 1);

    let mut inner = RegisterAllocator::default();
    let i0 = acquire(&mut inner);
    let i1 = acquire(&mut inner);
    let i2 = acquire_persistent(&mut inner);
    assert_eq!(i0.index(), 0);
    assert_eq!(i1.index(), 1);
    assert_eq!(i2.index(), 2);
    release(&mut inner, i0);
    release(&mut inner, i1);
    assert_eq!(close(inner), 3);

    let o2 = acquire(&mut outer);
    assert_eq!(o2.index(), 2);
    release(&mut outer, o1);
    let o3 = acquire(&mut outer);
    assert_eq!(o3.index(), 1);
    release(&mut outer, o0);
    release(&mut outer, o2);
    release(&mut outer, o3);
    assert_eq!(close(outer), 3);
}

#[test]
fn frame_size_is_the_high_water_mark() {
    let mut allocator = RegisterAllocator::default();
    let mut acquisitions: u32 = 0;
    let mut round: u32 = 0;
    while round < 10 {
        let a = acquire(&mut allocator);
        let b = acquire(&mut allocator);
        acquisitions += 2;
        assert_eq!(a.index(), 0);
        assert_eq!(b.index(), 1);
        release(&mut allocator, b);
        release(&mut allocator, a);
        round += 1;
    }
    let a = acquire(&mut allocator);
    let b = acquire(&mut allocator);
    let c = acquire(&mut allocator);
    acquisitions += 3;
    release(&mut allocator, a);
    release(&mut allocator, c);
    release(&mut allocator, b);
    assert_eq!(acquisitions, 23);
    assert_eq!(close(allocator), 3);
}

#[test]
fn high_water_mark_counts_persistent_registers() {
    let mut allocator = RegisterAllocator::default();
    let kept = acquire_persistent(&mut allocator);
    let a = acquire(&mut allocator);
    let b = acquire(&mut allocator);
    assert_eq!(kept.index(), 0);
    assert_eq!(a.index(), 1);
    assert_eq!(b.index(), 2);
    release(&mut allocator, a);
    release(&mut allocator, b);
    let c = acquire(&mut allocator);
    assert_eq!(c.index(), 1);
    release(&mut allocator, c);
    assert_eq!(close(allocator), 3);
}

#[test]
fn outstanding_handles_name_distinct_slots() {
    let mut allocator = RegisterAllocator::default();
    let mut held: Vec<Reg> = Vec::new();
    let mut step: usize = 0;
    while step < 40 {
        if step % 3 == 2 {
            let victim = held.remove(step % held.len());
            if victim.is_persistent() {
                held.push(victim);
            } else {
                release(&mut allocator, victim);
            }
        } else if step % 7 == 0 {
            held.push(acquire_persistent(&mut allocator));
        } else {
            held.push(acquire(&mut allocator));
        }
        let mut i: usize = 0;
        while i < held.len() {
            let mut j: usize = i + 1;
            while j < held.len() {
                assert_ne!(held[i].index(), held[j].index());
                j += 1;
            }
            i += 1;
        }
        step += 1;
    }
}

#[test]
fn lowest_free_slot_wins() {
    let mut allocator = RegisterAllocator::default();
    let r0 = acquire(&mut allocator);
    let r1 = acquire(&mut allocator);
    let r2 = acquire(&mut allocator);
    let r3 = acquire(&mut allocator);
    release(&mut allocator, r2);
    release(&mut allocator, r0);
    let first = acquire(&mut allocator);
    assert_eq!(first.index(), 0);
    let second = acquire(&mut allocator);
    assert_eq!(second.index(), 2);
    let third = acquire(&mut allocator);
    assert_eq!(third.index(), 4);
    release(&mut allocator, r1);
    release(&mut allocator, r3);
    release(&mut allocator, first);
    release(&mut allocator, second);
    release(&mut allocator, third);
    assert_eq!(close(allocator), 5);
}

#[test]
fn persistent_register_cannot_be_released() {
    let mut allocator = RegisterAllocator::default();
    let transient = acquire(&mut allocator);
    let kept = acquire_persistent(&mut allocator);
    assert_eq!(kept.index(), 1);
    assert!(kept.is_persistent());
    assert!(!allocator.can_dealloc(&kept));
    assert!(allocator.can_dealloc(&transient));
    release(&mut allocator, transient);
    assert!(!allocator.can_dealloc(&kept));
    assert_eq!(close(allocator), 2);
}

#[test]
fn persistent_slot_is_never_handed_out_again() {
    let mut allocator = RegisterAllocator::default();
    let kept = acquire_persistent(&mut allocator);
    assert_eq!(kept.index(), 0);
    let a = acquire(&mut allocator);
    assert_eq!(a.index(), 1);
    release(&mut allocator, a);
    let b = acquire(&mut allocator);
    assert_eq!(b.index(), 1);
    let c = acquire_persistent(&mut allocator);
    assert_eq!(c.index(), 2);
    release(&mut allocator, b);
    assert_eq!(close(allocator), 3);
}

#[test]
fn persistent_acquisition_reuses_a_released_slot() {
    let mut allocator = RegisterAllocator::default();
    let a = acquire(&mut allocator);
    let b = acquire(&mut allocator);
    release(&mut allocator, a);
    let kept = acquire_persistent(&mut allocator);
    assert_eq!(kept.index(), 0);
    assert!(kept.is_persistent());
    assert!(!allocator.can_dealloc(&kept));
    release(&mut allocator, b);
    let c = acquire(&mut allocator);
    assert_eq!(c.index(), 1);
    release(&mut allocator, c);
    assert_eq!(close(allocator), 2);
}

#[test]
fn transient_register_in_use_blocks_finish() {
    let mut allocator = RegisterAllocator::default();
    let kept = acquire_persistent(&mut allocator);
    assert!(allocator.can_finish());
    let reg = acquire(&mut allocator);
    assert!(!allocator.can_finish());
    release(&mut allocator, reg);
    assert!(allocator.can_finish());
    assert!(kept.is_persistent());
    assert_eq!(allocator.finish(), 2);
}

#[test]
fn handle_of_a_missing_slot_cannot_be_released() {
    let mut big = RegisterAllocator::default();
    let b0 = acquire(&mut big);
    let b1 = acquire(&mut big);
    let small = RegisterAllocator::default();
    assert!(!small.can_dealloc(&b0));
    assert!(!small.can_dealloc(&b1));
    release(&mut big, b0);
    release(&mut big, b1);
    assert_eq!(close(big), 2);
    assert_eq!(close(small), 0);
}

#[test]
fn handle_of_a_persistent_slot_cannot_be_released() {
    let mut first = RegisterAllocator::default();
    let kept = acquire_persistent(&mut first);
    let mut second = RegisterAllocator::default();
    let transient = acquire(&mut second);
    assert_eq!(kept.index(), transient.index());
    assert!(!first.can_dealloc(&transient));
    release(&mut second, transient);
    assert_eq!(close(first), 1);
    assert_eq!(close(second), 1);
}

#[test]
fn release_keeps_the_frame_size() {
    let mut allocator = RegisterAllocator::default();
    let a = acquire(&mut allocator);
    let b = acquire(&mut allocator);
    let c = acquire(&mut allocator);
    release(&mut allocator, c);
    release(&mut allocator, b);
    release(&mut allocator, a);
    assert!(allocator.can_alloc());
    assert_eq!(close(allocator), 3);
}
