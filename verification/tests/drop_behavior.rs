use core::marker::PhantomData;
use std::cell::Cell;
use std::rc::Rc;

use pinned_concurrent_col::backing::Backing;
use pinned_concurrent_col::col::PinnedConcurrentCol;
use pinned_concurrent_col::state::ConcurrentState;
use pinned_concurrent_col::write_permit::WritePermit;

/// An element whose liveness is visible from outside: while a probe is alive
/// or leaked, the shared token's reference count stays raised; the count
/// falls back only when a probe's destructor actually runs.
#[derive(Debug)]
struct Probe {
    _token: Rc<()>,
}

impl Default for Probe {
    fn default() -> Self {
        Probe { _token: Rc::new(()) }
    }
}

/// A policy without a filler that vouches for no gap-free prefix: its
/// `try_get_no_gap_len` keeps the trait's conservative `None` default.
#[derive(Debug)]
struct NoFillerNoGapState<T> {
    phantom: PhantomData<T>,
}

impl<T> ConcurrentState<T> for NoFillerNoGapState<T> {
    fn fills(&self) -> bool {
        false
    }

    fn fill_value(&self) -> T {
        panic!("a policy without a filler has no fill value")
    }

    fn fill_memory_with(&self) -> Option<T> {
        None
    }

    fn new_for_pinned_vec(_pinned_vec: &Backing<T>) -> Self {
        Self { phantom: PhantomData }
    }

    fn new_for_con_pinned_vec(_con_pinned_vec: &Backing<T>, _len: usize) -> Self {
        Self { phantom: PhantomData }
    }

    fn write_permit(&self, capacity: usize, idx: usize) -> WritePermit {
        if idx < capacity {
            WritePermit::JustWrite
        } else if idx == capacity {
            WritePermit::GrowThenWrite
        } else {
            WritePermit::Spin
        }
    }

    fn write_permit_n_items(
        &self,
        capacity: usize,
        begin_idx: usize,
        num_items: usize,
    ) -> WritePermit {
        let last_idx = begin_idx + num_items - 1;
        if last_idx < capacity {
            WritePermit::JustWrite
        } else if begin_idx <= capacity {
            WritePermit::GrowThenWrite
        } else {
            WritePermit::Spin
        }
    }

    fn release_growth_handle(&self) {}

    fn update_after_write(&self, _begin_idx: usize, _end_idx: usize) {}
}

/// A policy without a filler that tracks the written prefix length handed to
/// it and vouches for it at drop time.
#[derive(Debug)]
struct NoFillerTrackedState<T> {
    len: Cell<usize>,
    phantom: PhantomData<T>,
}

impl<T> NoFillerTrackedState<T> {
    fn set_final_len(&self, len: usize) {
        self.len.set(len);
    }
}

impl<T> ConcurrentState<T> for NoFillerTrackedState<T> {
    fn fills(&self) -> bool {
        false
    }

    fn fill_value(&self) -> T {
        panic!("a policy without a filler has no fill value")
    }

    fn fill_memory_with(&self) -> Option<T> {
        None
    }

    fn new_for_pinned_vec(pinned_vec: &Backing<T>) -> Self {
        Self { len: Cell::new(pinned_vec.len()), phantom: PhantomData }
    }

    fn new_for_con_pinned_vec(_con_pinned_vec: &Backing<T>, len: usize) -> Self {
        Self { len: Cell::new(len), phantom: PhantomData }
    }

    fn write_permit(&self, capacity: usize, idx: usize) -> WritePermit {
        if idx < capacity {
            WritePermit::JustWrite
        } else if idx == capacity {
            WritePermit::GrowThenWrite
        } else {
            WritePermit::Spin
        }
    }

    fn write_permit_n_items(
        &self,
        capacity: usize,
        begin_idx: usize,
        num_items: usize,
    ) -> WritePermit {
        let last_idx = begin_idx + num_items - 1;
        if last_idx < capacity {
            WritePermit::JustWrite
        } else if begin_idx <= capacity {
            WritePermit::GrowThenWrite
        } else {
            WritePermit::Spin
        }
    }

    fn release_growth_handle(&self) {}

    fn update_after_write(&self, _begin_idx: usize, _end_idx: usize) {}

    fn no_gap_len(&self) -> Option<usize> {
        Some(self.len.get())
    }

    fn try_get_no_gap_len(&self) -> Option<usize> {
        Some(self.len.get())
    }
}

/// A policy that fills every new allocation with a default value.
#[derive(Debug)]
struct FillerState<T: Default> {
    phantom: PhantomData<T>,
}

impl<T: Default> ConcurrentState<T> for FillerState<T> {
    fn fills(&self) -> bool {
        true
    }

    fn fill_value(&self) -> T {
        Default::default()
    }

    fn fill_memory_with(&self) -> Option<T> {
        Some(Default::default())
    }

    fn new_for_pinned_vec(_pinned_vec: &Backing<T>) -> Self {
        Self { phantom: PhantomData }
    }

    fn new_for_con_pinned_vec(_con_pinned_vec: &Backing<T>, _len: usize) -> Self {
        Self { phantom: PhantomData }
    }

    fn write_permit(&self, capacity: usize, idx: usize) -> WritePermit {
        if idx < capacity {
            WritePermit::JustWrite
        } else if idx == capacity {
            WritePermit::GrowThenWrite
        } else {
            WritePermit::Spin
        }
    }

    fn write_permit_n_items(
        &self,
        capacity: usize,
        begin_idx: usize,
        num_items: usize,
    ) -> WritePermit {
        let last_idx = begin_idx + num_items - 1;
        if last_idx < capacity {
            WritePermit::JustWrite
        } else if begin_idx <= capacity {
            WritePermit::GrowThenWrite
        } else {
            WritePermit::Spin
        }
    }

    fn release_growth_handle(&self) {}

    fn update_after_write(&self, _begin_idx: usize, _end_idx: usize) {}
}

#[test]
fn filled_drop_runs_destructors_over_capacity() {
    let token = Rc::new(());
    {
        let mut col: PinnedConcurrentCol<Probe, FillerState<Probe>> =
            PinnedConcurrentCol::with_fixed_capacity(4);
        col.write(0, Probe { _token: token.clone() });
        assert_eq!(Rc::strong_count(&token), 2);
    }
    // every filled slot was destroyed as a live element, the written one
    // included: its destructor ran and released the token
    assert_eq!(Rc::strong_count(&token), 1);
}

#[test]
fn no_filler_drop_with_no_prefix_runs_no_destructor() {
    let token = Rc::new(());
    {
        let mut col: PinnedConcurrentCol<Probe, NoFillerNoGapState<Probe>> =
            PinnedConcurrentCol::with_fixed_capacity(4);
        col.write(2, Probe { _token: token.clone() });
        assert_eq!(Rc::strong_count(&token), 2);
    }
    // the policy vouched for nothing, so the drop was conservative: exactly
    // zero destructors ran, and the written value was left untouched
    assert_eq!(Rc::strong_count(&token), 2);
}

#[test]
fn no_filler_drop_destroys_exactly_the_vouched_prefix() {
    let prefix_token = Rc::new(());
    let beyond_token = Rc::new(());
    {
        let mut col: PinnedConcurrentCol<Probe, NoFillerTrackedState<Probe>> =
            PinnedConcurrentCol::with_fixed_capacity(4);
        col.write(0, Probe { _token: prefix_token.clone() });
        col.write(1, Probe { _token: prefix_token.clone() });
        col.write(3, Probe { _token: beyond_token.clone() });
        col.state().set_final_len(2);
        assert_eq!(Rc::strong_count(&prefix_token), 3);
        assert_eq!(Rc::strong_count(&beyond_token), 2);
    }
    // destructors ran over the vouched prefix alone
    assert_eq!(Rc::strong_count(&prefix_token), 1);
    assert_eq!(Rc::strong_count(&beyond_token), 2);
}

#[test]
fn extraction_leaves_the_engine_nothing_to_destroy() {
    let token = Rc::new(());
    let vec_back: Backing<Probe>;
    {
        let mut col: PinnedConcurrentCol<Probe, NoFillerTrackedState<Probe>> =
            PinnedConcurrentCol::with_fixed_capacity(4);
        col.write(0, Probe { _token: token.clone() });
        col.state().set_final_len(1);
        vec_back = col.into_inner(1);
        // the engine's own drop ran on the husk and touched no element
        assert_eq!(Rc::strong_count(&token), 2);
    }
    assert_eq!(Rc::strong_count(&token), 2);
    drop(vec_back);
    // dropping the extracted backing destroys its single element
    assert_eq!(Rc::strong_count(&token), 1);
}
