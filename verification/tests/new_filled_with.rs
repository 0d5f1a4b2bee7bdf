use core::marker::PhantomData;
use std::sync::atomic::AtomicUsize;

use pinned_concurrent_col::backing::Backing;
use pinned_concurrent_col::col::PinnedConcurrentCol;
use pinned_concurrent_col::state::ConcurrentState;
use pinned_concurrent_col::write_permit::WritePermit;

#[derive(Debug)]
pub struct MyConState<T> {
    pub initial_len: usize,
    pub initial_cap: usize,
    pub len: AtomicUsize,
    phantom: PhantomData<T>,
}

impl<T> MyConState<T> {
    pub fn new(initial_len: usize, initial_cap: usize) -> Self {
        Self { initial_len, initial_cap, len: initial_len.into(), phantom: Default::default() }
    }
}

impl<T> ConcurrentState<T> for MyConState<T> {
    fn fills(&self) -> bool {
        false
    }

    fn fill_value(&self) -> T {
        panic!("a policy without a filler has no fill value")
    }

    fn fill_memory_with(&self) -> Option<T> {
        None
    }

    fn new_for_pinned_vec(pinned_vec: &Backing<T>) -> Self {
        Self::new(pinned_vec.len(), pinned_vec.capacity())
    }

    fn new_for_con_pinned_vec(con_pinned_vec: &Backing<T>, len: usize) -> Self {
        Self::new(len, con_pinned_vec.capacity())
    }

    fn write_permit(&self, capacity: usize, idx: usize) -> WritePermit {
        if idx < capacity {
            WritePermit::JustWrite
        } else if idx == capacity {
            WritePermit::GrowThenWrite
        } else {
            WritePermit::Spin
        }
    }

    fn write_permit_n_items(
        &self,
        capacity: usize,
        begin_idx: usize,
        num_items: usize,
    ) -> WritePermit {
        let last_idx = begin_idx + num_items - 1;
        if last_idx < capacity {
            WritePermit::JustWrite
        } else if begin_idx <= capacity {
            WritePermit::GrowThenWrite
        } else {
            WritePermit::Spin
        }
    }

    fn release_growth_handle(&self) {}

    fn update_after_write(&self, _begin_idx: usize, _end_idx: usize) {}
}

#[derive(Debug)]
pub struct MyConStateFilled<T: Default> {
    pub initial_len: usize,
    pub initial_cap: usize,
    pub len: AtomicUsize,
    phantom: PhantomData<T>,
}

impl<T: Default> MyConStateFilled<T> {
    pub fn new(initial_len: usize, initial_cap: usize) -> Self {
        Self { initial_len, initial_cap, len: initial_len.into(), phantom: Default::default() }
    }
}

impl<T: Default> ConcurrentState<T> for MyConStateFilled<T> {
    fn fills(&self) -> bool {
        true
    }

    fn fill_value(&self) -> T {
        Default::default()
    }

    fn fill_memory_with(&self) -> Option<T> {
        Some(Default::default())
    }

    fn new_for_pinned_vec(pinned_vec: &Backing<T>) -> Self {
        Self::new(pinned_vec.len(), pinned_vec.capacity())
    }

    fn new_for_con_pinned_vec(con_pinned_vec: &Backing<T>, len: usize) -> Self {
        Self::new(len, con_pinned_vec.capacity())
    }

    fn write_permit(&self, capacity: usize, idx: usize) -> WritePermit {
        if idx < capacity {
            WritePermit::JustWrite
        } else if idx == capacity {
            WritePermit::GrowThenWrite
        } else {
            WritePermit::Spin
        }
    }

    fn write_permit_n_items(
        &self,
        capacity: usize,
        begin_idx: usize,
        num_items: usize,
    ) -> WritePermit {
        let last_idx = begin_idx + num_items - 1;
        if last_idx < capacity {
            WritePermit::JustWrite
        } else if begin_idx <= capacity {
            WritePermit::GrowThenWrite
        } else {
            WritePermit::Spin
        }
    }

    fn release_growth_handle(&self) {}

    fn update_after_write(&self, _begin_idx: usize, _end_idx: usize) {}
}

fn backings() -> Vec<Backing<String>> {
    vec![
        Backing::with_fixed_capacity(222),
        Backing::with_doubling_growth(16),
        Backing::with_linear_growth(10, 33),
    ]
}

#[test]
fn new_no_fill() {
    for mut vec in backings() {
        vec.push("first".to_string());

        let initial_len = vec.len();
        let initial_capacity = vec.capacity();

        let col: PinnedConcurrentCol<_, MyConState<_>> = PinnedConcurrentCol::new_from_pinned(vec);

        let vec = col.into_inner(initial_len);

        assert_eq!(vec.len(), 1);
        assert_eq!(vec.capacity(), initial_capacity);
        assert_eq!(vec.get(0), Some(&"first".to_string()));
    }
}

#[test]
fn new_fill_with() {
    for mut vec in backings() {
        vec.push("first".to_string());

        let initial_capacity = vec.capacity();

        let col: PinnedConcurrentCol<_, MyConStateFilled<_>> =
            PinnedConcurrentCol::new_from_pinned(vec);

        let vec = col.into_inner(initial_capacity);

        assert_eq!(vec.len(), initial_capacity);
        assert_eq!(vec.capacity(), initial_capacity);
        assert_eq!(vec.get(0), Some(&"first".to_string()));
        for i in 1..initial_capacity {
            assert_eq!(vec.get(i), Some(&String::default()));
        }
    }
}

#[test]
fn clone_with_len_keeps_prefix_and_fills_tail() {
    let mut col: PinnedConcurrentCol<String, MyConStateFilled<_>> =
        PinnedConcurrentCol::with_doubling_growth();
    col.write(0, "zero".to_string());
    col.write(1, "one".to_string());

    let clone = col.clone_with_len(2);

    assert_eq!(clone.get(0), Some(&"zero".to_string()));
    assert_eq!(clone.get(1), Some(&"one".to_string()));
    assert_eq!(clone.maximum_capacity(), col.maximum_capacity());
    for i in 2..clone.capacity() {
        assert_eq!(clone.get(i), Some(&String::default()));
    }

    // the original is untouched
    assert_eq!(col.get(0), Some(&"zero".to_string()));
    assert_eq!(col.get(1), Some(&"one".to_string()));
}

#[test]
fn single_item_as_ref_within_and_at_frontier() {
    let mut col: PinnedConcurrentCol<String, MyConStateFilled<String>> =
        PinnedConcurrentCol::with_doubling_growth();
    let frontier = col.capacity();

    col.write(1, "one".to_string());
    assert_eq!(col.single_item_as_ref(1), &"one".to_string());

    // at the frontier the call itself grows, and the fresh slot carries the
    // policy's filler
    assert_eq!(col.single_item_as_ref(frontier), &String::default());
    assert!(col.capacity() >= frontier + 1);
}
