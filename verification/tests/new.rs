use core::marker::PhantomData;
use std::sync::atomic::AtomicUsize;

use pinned_concurrent_col::backing::Backing;
use pinned_concurrent_col::col::PinnedConcurrentCol;
use pinned_concurrent_col::state::ConcurrentState;
use pinned_concurrent_col::write_permit::WritePermit;

#[derive(Debug)]
pub struct MyConState<T> {
    pub initial_len: usize,
    pub initial_cap: usize,
    pub len: AtomicUsize,
    phantom: PhantomData<T>,
}

impl<T> MyConState<T> {
    pub fn new(initial_len: usize, initial_cap: usize) -> Self {
        Self { initial_len, initial_cap, len: initial_len.into(), phantom: Default::default() }
    }
}

impl<T> ConcurrentState<T> for MyConState<T> {
    fn fills(&self) -> bool {
        false
    }

    fn fill_value(&self) -> T {
        panic!("a policy without a filler has no fill value")
    }

    fn fill_memory_with(&self) -> Option<T> {
        None
    }

    fn new_for_pinned_vec(pinned_vec: &Backing<T>) -> Self {
        Self::new(pinned_vec.len(), pinned_vec.capacity())
    }

    fn new_for_con_pinned_vec(con_pinned_vec: &Backing<T>, len: usize) -> Self {
        Self::new(len, con_pinned_vec.capacity())
    }

    fn write_permit(&self, capacity: usize, idx: usize) -> WritePermit {
        if idx < capacity {
            WritePermit::JustWrite
        } else if idx == capacity {
            WritePermit::GrowThenWrite
        } else {
            WritePermit::Spin
        }
    }

    fn write_permit_n_items(
        &self,
        capacity: usize,
        begin_idx: usize,
        num_items: usize,
    ) -> WritePermit {
        let last_idx = begin_idx + num_items - 1;
        if last_idx < capacity {
            WritePermit::JustWrite
        } else if begin_idx <= capacity {
            WritePermit::GrowThenWrite
        } else {
            WritePermit::Spin
        }
    }

    fn release_growth_handle(&self) {}

    fn update_after_write(&self, _begin_idx: usize, _end_idx: usize) {}
}

#[test]
fn with_doubling_growth() {
    let col: PinnedConcurrentCol<String, MyConState<_>> =
        PinnedConcurrentCol::with_doubling_growth();

    assert_eq!(col.capacity(), 4);
    assert_eq!(col.maximum_capacity(), 17_179_869_180);
    assert_eq!(col.state().initial_len, 0);
    assert_eq!(col.state().initial_cap, 4);
}

#[test]
fn with_linear_growth() {
    let col: PinnedConcurrentCol<String, MyConState<_>> =
        PinnedConcurrentCol::with_linear_growth(4, 10);

    assert_eq!(col.capacity(), 2usize.pow(4));
    assert_eq!(col.maximum_capacity(), 2usize.pow(4) * 10);
    assert_eq!(col.state().initial_len, 0);
    assert_eq!(col.state().initial_cap, 2usize.pow(4));
}

#[test]
fn with_fixed_capacity() {
    let col: PinnedConcurrentCol<String, MyConState<_>> =
        PinnedConcurrentCol::with_fixed_capacity(5648);

    assert_eq!(col.capacity(), 5648);
    assert_eq!(col.maximum_capacity(), 5648);
    assert_eq!(col.state().initial_len, 0);
    assert_eq!(col.state().initial_cap, 5648);
}

#[test]
fn from() {
    fn validate(pinned_vec: Backing<String>) {
        let max_cap = pinned_vec.max_capacity();
        let expected_con_state = MyConState::<String>::new_for_pinned_vec(&pinned_vec);
        let col: PinnedConcurrentCol<_, MyConState<_>> =
            PinnedConcurrentCol::new_from_pinned(pinned_vec);

        assert_eq!(col.capacity(), expected_con_state.initial_cap);
        assert_eq!(col.maximum_capacity(), max_cap);
        assert_eq!(col.state().initial_len, expected_con_state.initial_len);
        assert_eq!(col.state().initial_cap, expected_con_state.initial_cap);
    }

    validate(Backing::with_doubling_growth(32));
    validate(Backing::with_linear_growth(10, 10));
    validate(Backing::with_fixed_capacity(1024));

    let mut vec = Backing::with_doubling_growth(32);
    for _ in 0..1234 {
        vec.push("hello".to_string());
    }
    assert_eq!(vec.len(), 1234);
    assert_eq!(vec.capacity(), 2044);
    validate(vec);
}
