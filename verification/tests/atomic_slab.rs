use anglerkit::allocator::atomic_slab::{
    retag, untagged_index, AllocOp, AtomicSlab, AtomicSlabPtr, FreeOp, Index, GEN_INCREMENT,
    MAX_CAPACITY, NULL_INDEX,
};
use anglerkit::allocator::AllocError;
use rand::{Rng, RngExt};

const NUM_OPS: usize = 10000000;

#[test]
fn test_ctor() {
    let atomic_slab: AtomicSlab<u128> = AtomicSlab::new(0x10000, size_of::<[u128; 2048]>());
    assert!(atomic_slab.capacity() == 2048);
}

#[test]
fn test_fill_and_free() {
    let mut atomic_slab: AtomicSlab<u128> = AtomicSlab::new(0x10000, size_of::<[u128; 2048]>());

    let mut rng = rand::rng();
    let mut pointers = Vec::new();
    for _ in 0..2048 {
        let ptr = atomic_slab.allocate().unwrap();
        let val: u128 = rng.random();
        atomic_slab.write(ptr, val);
        pointers.push((ptr, val));
    }

    // Should have run out of memory here
    assert!(atomic_slab.allocate().is_err());

    // Check that all pointers still match the written value as we deallocate in a
    // random order
    while !pointers.is_empty() {
        let to_pop = rng.random_range(0..pointers.len());
        let (ptr, value) = pointers.swap_remove(to_pop);
        assert_eq!(atomic_slab.read(ptr), Some(&value));
        atomic_slab.free(ptr);
    }
}

#[test]
fn test_random_ops() {
    let mut atomic_slab: AtomicSlab<usize> = AtomicSlab::new(0x10000, size_of::<[usize; 2048]>());

    let mut rng = rand::rng();
    let mut pointers = Vec::new();

    let mut max_used_slots = 0;
    for _ in 0..NUM_OPS {
        if rng.random() {
            if let Ok(ptr) = atomic_slab.allocate() {
                let value = rng.next_u64() as usize;
                atomic_slab.write(ptr, value);
                pointers.push((ptr, value));
                max_used_slots = max_used_slots.max(pointers.len());
            }
        } else if !pointers.is_empty() {
            let to_pop = rng.random_range(0..pointers.len());
            let (ptr, value) = pointers.swap_remove(to_pop);

            assert_eq!(atomic_slab.read(ptr), Some(&value));
            atomic_slab.free(ptr)
        }
    }

    // Ensure we only grew by the optimal amount
    assert_eq!(max_used_slots, atomic_slab.len());
}

#[test]
fn slots_lie_in_the_storage() {
    // the storage does not start at a multiple of the alignment
    let mut slab: AtomicSlab<u128> = AtomicSlab::new(0x1003, 100);
    assert_eq!(slab.capacity(), 5);
    assert_eq!(slab.min_address(), 0x1010);
    assert_eq!(slab.max_address(), 0x1010 + 4 * 16);
    let addresses: Vec<usize> = (0..5).map(|_| slab.allocate().unwrap().ptr()).collect();
    assert_eq!(addresses, vec![0x1010, 0x1020, 0x1030, 0x1040, 0x1050]);
    assert_eq!(slab.allocate().err(), Some(AllocError::OutOfMemory));
    assert_eq!(slab.len(), 5);
}

#[test]
fn small_values_take_the_room_of_an_index() {
    let slab: AtomicSlab<u8> = AtomicSlab::new(0x1000, 80);
    assert_eq!(slab.capacity(), 10);
    assert_eq!(slab.max_address(), 0x1000 + 9 * 8);
}

#[test]
fn storage_without_room_is_full_at_once() {
    let mut slab: AtomicSlab<u128> = AtomicSlab::new(0x1008, 20);
    assert_eq!(slab.capacity(), 0);
    assert_eq!(slab.max_address(), slab.min_address());
    assert_eq!(slab.allocate().err(), Some(AllocError::OutOfMemory));
}

#[test]
fn capacity_is_limited() {
    let slab: AtomicSlab<u64> = AtomicSlab::new(0x1000, 8 * (MAX_CAPACITY + 10));
    assert_eq!(slab.capacity(), MAX_CAPACITY);
}

#[test]
fn last_freed_slot_is_reused_first() {
    let mut slab: AtomicSlab<u64> = AtomicSlab::new(0x2000, 64);
    let a = slab.allocate().unwrap();
    let b = slab.allocate().unwrap();
    let c = slab.allocate().unwrap();
    slab.free(a);
    slab.free(c);
    let d = slab.allocate().unwrap();
    let e = slab.allocate().unwrap();
    assert_eq!(d.ptr(), 0x2010);
    assert_eq!(e.ptr(), 0x2000);
    assert_eq!(b.ptr(), 0x2008);
    assert_eq!(slab.len(), 3);
    // nothing is read before it is written
    assert_eq!(slab.read(d), None);
}

#[test]
fn pointers_to_one_slot_are_equal() {
    let mut slab: AtomicSlab<u64> = AtomicSlab::new(0x2000, 64);
    let a: AtomicSlabPtr<u64> = slab.allocate().unwrap();
    let b = slab.allocate().unwrap();
    slab.free(a);
    let again = slab.allocate().unwrap();
    assert!(a == again);
    assert!(a != b);
    assert!(a < b);
    assert_eq!(*a, 0x2000);
    assert_eq!(a.clone().ptr(), 0x2000);
}

#[test]
fn generations_wrap_around() {
    assert_eq!(untagged_index(5 + 7 * GEN_INCREMENT), 5);
    assert_eq!(untagged_index(NULL_INDEX), MAX_CAPACITY);
    assert_eq!(retag(5), 5 + GEN_INCREMENT);
    assert_eq!(retag(5 + 0xFFFF_FFFF * GEN_INCREMENT), 5);
}

#[test]
fn steps_of_an_allocation() {
    assert_eq!(AllocOp::head_loaded(NULL_INDEX), AllocOp::Reserve);
    assert_eq!(AllocOp::head_loaded(NULL_INDEX + GEN_INCREMENT), AllocOp::Reserve);
    assert_eq!(AllocOp::head_loaded(3), AllocOp::LoadNext { head: 3 });
    assert_eq!(AllocOp::slot_reserved(4, 5), AllocOp::Done(Ok(4)));
    assert_eq!(AllocOp::slot_reserved(5, 5), AllocOp::ResetLen);
    assert_eq!(AllocOp::len_reset(), AllocOp::Done(Err(AllocError::OutOfMemory)));
    assert_eq!(AllocOp::next_loaded(3, 8), AllocOp::Exchange { head: 3, next: 8 });
    assert_eq!(AllocOp::exchanged(3, Ok(3)), AllocOp::Done(Ok(3)));
    assert_eq!(AllocOp::exchanged(3, Err(9)), AllocOp::LoadNext { head: 9 });
    assert_eq!(FreeOp::head_loaded(1, 2), FreeOp::StoreLink { tagged: 1, head: 2 });
    assert_eq!(FreeOp::link_stored(1, 2), FreeOp::Exchange { tagged: 1, head: 2 });
    assert_eq!(FreeOp::exchanged(1, Ok(2)), FreeOp::Done);
    assert_eq!(FreeOp::exchanged(1, Err(7)), FreeOp::StoreLink { tagged: 1, head: 7 });
}

/// The state that the steps of all operations share.
struct Shared {
    head: Index,
    len: usize,
    links: Vec<Index>,
}

impl Shared {
    fn exchange(&mut self, head: Index, new: Index) -> Result<Index, Index> {
        if self.head == head {
            self.head = new;
            Ok(head)
        } else {
            Err(self.head)
        }
    }

    fn alloc_step(&mut self, op: AllocOp) -> AllocOp {
        match op {
            AllocOp::LoadHead => AllocOp::head_loaded(self.head),
            AllocOp::Reserve => {
                let slot = self.len;
                self.len += 1;
                AllocOp::slot_reserved(slot, self.links.len())
            }
            AllocOp::ResetLen => {
                self.len = self.links.len();
                AllocOp::len_reset()
            }
            AllocOp::LoadNext { head } => {
                AllocOp::next_loaded(head, self.links[untagged_index(head)])
            }
            AllocOp::Exchange { head, next } => {
                AllocOp::exchanged(head, self.exchange(head, next))
            }
            AllocOp::Done(_) => op,
        }
    }

    fn free_step(&mut self, op: FreeOp) -> FreeOp {
        match op {
            FreeOp::LoadHead { tagged } => FreeOp::head_loaded(tagged, self.head),
            FreeOp::StoreLink { tagged, head } => {
                self.links[untagged_index(tagged)] = head;
                FreeOp::link_stored(tagged, head)
            }
            FreeOp::Exchange { tagged, head } => {
                FreeOp::exchanged(tagged, self.exchange(head, retag(tagged)))
            }
            FreeOp::Done => op,
        }
    }
}

enum Task {
    Idle,
    Allocating(AllocOp),
    Freeing(FreeOp),
}

#[test]
fn interleaved_steps_never_share_a_slot() {
    const CAPACITY: usize = 16;
    let mut rng = rand::rng();
    let mut shared = Shared { head: NULL_INDEX, len: 0, links: vec![0; CAPACITY] };
    let mut owned = [false; CAPACITY];
    let mut tasks: Vec<(Task, Vec<Index>)> = (0..4).map(|_| (Task::Idle, Vec::new())).collect();
    for _ in 0..1000000 {
        let who = rng.random_range(0..tasks.len());
        let (task, held) = &mut tasks[who];
        match task {
            Task::Idle => {
                if rng.random() {
                    *task = Task::Allocating(AllocOp::LoadHead);
                } else if !held.is_empty() {
                    let tagged = held.swap_remove(rng.random_range(0..held.len()));
                    owned[untagged_index(tagged)] = false;
                    *task = Task::Freeing(FreeOp::LoadHead { tagged });
                }
            }
            Task::Allocating(op) => {
                let op = shared.alloc_step(*op);
                *task = Task::Allocating(op);
                if let AllocOp::Done(outcome) = op {
                    if let Ok(tagged) = outcome {
                        assert!(!owned[untagged_index(tagged)]);
                        owned[untagged_index(tagged)] = true;
                        held.push(tagged);
                    }
                    *task = Task::Idle;
                }
            }
            Task::Freeing(op) => {
                let op = shared.free_step(*op);
                *task = Task::Freeing(op);
                if op == FreeOp::Done {
                    *task = Task::Idle;
                }
            }
        }
    }
}
