use ruspiro_singleton::{LazyValue, Singleton};
use std::cell::Cell;

#[test]
fn lazy_value_read_then_incremented() {
    let s = Singleton::lazy(|| 20u32);
    assert_eq!(s.with_ref(|v| *v), 20);
    assert_eq!(
        s.with_mut(|v| {
            *v += 5;
            *v
        }),
        25
    );
    assert_eq!(s.with_ref(|v| *v), 25);
}

#[test]
fn new_holds_given_value() {
    let s: Singleton<u32> = Singleton::new(20);
    assert_eq!(s.with_ref(|v| *v), 20);
    s.with_mut(|v| *v = 7);
    assert_eq!(s.with_ref(|v| *v), 7);
}

#[test]
fn initializer_runs_once_across_accessors() {
    let runs = Cell::new(0u32);
    let s = Singleton::lazy(|| {
        runs.set(runs.get() + 1);
        String::from("foo")
    });
    assert_eq!(runs.get(), 0);
    assert_eq!(s.with_ref(|v| v.len()), 3);
    assert_eq!(runs.get(), 1);
    s.with_mut(|v| v.push('!'));
    assert_eq!(s.with_ref(|v| v.clone()), "foo!");
    assert_eq!(s.take_for(|v| v.len()), 4);
    assert_eq!(runs.get(), 1);
}

#[test]
fn first_access_by_writer_initializes_once() {
    let runs = Cell::new(0u32);
    let s = Singleton::lazy(|| {
        runs.set(runs.get() + 1);
        vec![1u8, 2, 3]
    });
    s.with_mut(|v| v.push(4));
    assert_eq!(s.with_ref(|v| v.clone()), vec![1, 2, 3, 4]);
    assert_eq!(runs.get(), 1);
}

#[test]
fn increments_from_every_context_add_up() {
    let s: Singleton<u64> = Singleton::new(0);
    let contexts = 4u64;
    let per_context = 250u64;
    for _ in 0..contexts {
        for _ in 0..per_context {
            s.with_mut(|v| *v += 1);
        }
    }
    assert_eq!(s.with_ref(|v| *v), contexts * per_context);
}

#[test]
fn readers_coexist() {
    let s = Singleton::lazy(|| 20u32);
    assert_eq!(s.with_ref(|v| *v), 20);
    assert_eq!(s.with_ref(|a| s.with_ref(|b| *a + *b)), 40);
}

#[test]
fn take_for_gives_exclusive_access() {
    let s: Singleton<i32> = Singleton::new(-3);
    assert_eq!(
        s.take_for(|v| {
            *v *= 2;
            *v
        }),
        -6
    );
    assert_eq!(s.with_ref(|v| *v), -6);
}

fn no_initializer() -> u32 {
    panic!("an eager cell has no initializer to run")
}

#[test]
fn eager_cell_never_initializes() {
    let mut cell: LazyValue<u32, fn() -> u32> = LazyValue::with_value(5);
    assert_eq!(cell.try_get(), Some(&5));
    assert_eq!(*cell.get(), 5);
    *cell.get_mut() += 1;
    assert_eq!(*cell.get(), 6);
    let s: Singleton<u32, fn() -> u32> = Singleton::new(9);
    assert_eq!(s.with_ref(|v| *v), 9);
    let lazy: Singleton<u32, fn() -> u32> = Singleton::lazy(no_initializer);
    drop(lazy);
}

#[test]
fn lazy_cell_is_empty_until_accessed() {
    let runs = Cell::new(0u32);
    let mut cell = LazyValue::with_init(|| {
        runs.set(runs.get() + 1);
        42u32
    });
    assert_eq!(cell.try_get(), None);
    assert_eq!(runs.get(), 0);
    assert_eq!(*cell.get(), 42);
    assert_eq!(cell.try_get(), Some(&42));
    assert_eq!(*cell.get(), 42);
    assert_eq!(runs.get(), 1);
}

#[test]
fn writes_through_get_mut_are_seen_by_get() {
    let mut cell = LazyValue::with_init(|| vec![1u32]);
    cell.get_mut().push(2);
    assert_eq!(cell.get().clone(), vec![1, 2]);
    *cell.get_mut() = vec![9];
    assert_eq!(cell.get().clone(), vec![9]);
}

#[test]
fn set_never_overwrites_a_populated_slot() {
    let mut cell: LazyValue<u32, fn() -> u32> = LazyValue::with_value(3);
    assert_eq!(cell.set(8), Err(8));
    assert_eq!(*cell.get(), 3);
}

#[test]
fn set_fills_an_empty_slot_once() {
    let runs = Cell::new(0u32);
    let mut cell = LazyValue::with_init(|| {
        runs.set(runs.get() + 1);
        1u32
    });
    assert_eq!(cell.set(8), Ok(()));
    assert_eq!(cell.set(9), Err(9));
    assert_eq!(*cell.get(), 8);
    assert_eq!(runs.get(), 0);
}

#[test]
fn init_runs_the_initializer_only_for_an_empty_slot() {
    let runs = Cell::new(0u32);
    let mut cell = LazyValue::with_init(|| {
        runs.set(runs.get() + 1);
        11u32
    });
    cell.init();
    cell.init();
    assert_eq!(cell.try_get(), Some(&11));
    assert_eq!(runs.get(), 1);
}
