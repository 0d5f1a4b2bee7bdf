use pinned_concurrent_col::backing::Backing;
use pinned_concurrent_col::capacity::CapacityState;

fn validate(backing: &Backing<String>) {
    let capacity = CapacityState::new_for_pinned_vec(backing);
    assert_eq!(capacity.current(), backing.capacity());
    assert_eq!(capacity.maximum(), backing.max_capacity());
}

#[test]
fn new_for_pinned_vec() {
    validate(&Backing::with_doubling_growth(32));
    validate(&Backing::with_linear_growth(10, 10));
    validate(&Backing::with_fixed_capacity(1024));
}

#[test]
fn set_capacity() {
    let pinned: Backing<char> = Backing::with_doubling_growth(4);
    let mut capacity = CapacityState::new_for_pinned_vec(&pinned);

    assert_eq!(capacity.current(), 4);
    assert_eq!(capacity.maximum(), pinned.max_capacity());

    capacity.set_capacity(12);

    assert_eq!(capacity.current(), 12);
    assert_eq!(capacity.maximum(), pinned.max_capacity());
}

#[test]
fn set_max_capacity() {
    let pinned: Backing<char> = Backing::with_linear_growth(3, 10);
    let mut capacity = CapacityState::new_for_pinned_vec(&pinned);

    assert_eq!(capacity.current(), 8);
    assert_eq!(capacity.maximum(), 8 * 10);

    capacity.set_max_capacity(8 * 15);

    assert_eq!(capacity.current(), 8);
    assert_eq!(capacity.maximum(), 8 * 15);
}

#[test]
fn debug() {
    let pinned: Backing<char> = Backing::with_linear_growth(3, 10);
    let capacity = CapacityState::new_for_pinned_vec(&pinned);

    let debug = format!("{:?}", capacity);
    assert_eq!(debug, "CapacityState { capacity: 8, maximum_capacity: 80 }");
}
