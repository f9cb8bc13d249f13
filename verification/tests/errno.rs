use guest_bridge::libc::errno::{State, __error, EDEADLK, EINVAL, EPERM};
use guest_bridge::mem::Mem;
use guest_bridge::Environment;

#[test]
fn cell_is_made_on_first_access_and_holds_zero() {
    let mut mem = Mem::new(0x10000);
    let mut state = State::new();
    assert!(state.cell(0).is_none());
    let cell = state.errno_for_thread(&mut mem, 0);
    assert!(!cell.is_null());
    assert_eq!(mem.read(cell), 0);
    assert_eq!(mem.allocation_size(cell), Some(4));
    assert_eq!(state.cell(0).map(|c| c.to_bits()), Some(cell.to_bits()));
}

#[test]
fn later_accesses_give_the_same_cell_and_allocate_nothing() {
    let mut mem = Mem::new(0x10000);
    let mut state = State::new();
    let first = state.errno_for_thread(&mut mem, 3);
    let free = mem.available();
    state.set_errno_for_thread(&mut mem, 3, EINVAL);
    let second = state.errno_for_thread(&mut mem, 3);
    assert_eq!(first.to_bits(), second.to_bits());
    assert_eq!(mem.available(), free);
    assert_eq!(mem.read(second), EINVAL);
}

#[test]
fn each_thread_has_its_own_cell() {
    let mut mem = Mem::new(0x10000);
    let mut state = State::new();
    state.set_errno_for_thread(&mut mem, 0, EPERM);
    state.set_errno_for_thread(&mut mem, 1, EDEADLK);
    let a = state.errno_for_thread(&mut mem, 0);
    let b = state.errno_for_thread(&mut mem, 1);
    assert!(a.to_bits() != b.to_bits());
    assert_eq!(mem.read(a), 1);
    assert_eq!(mem.read(b), 11);
    state.set_errno_for_thread(&mut mem, 0, 22);
    assert_eq!(mem.read(a), 22);
    assert_eq!(mem.read(b), 11);
}

#[test]
fn error_cell_of_the_running_thread() {
    let mut env = Environment::new(0x10000);
    let main_cell = __error(&mut env);
    assert_eq!(env.mem.read(main_cell), 0);
    let other = env.new_thread();
    env.current_thread = other;
    let other_cell = __error(&mut env);
    assert!(main_cell.to_bits() != other_cell.to_bits());
    env.current_thread = 0;
    assert_eq!(__error(&mut env).to_bits(), main_cell.to_bits());
    assert!(env.owns(main_cell.to_bits()));
    assert!(env.owns(other_cell.to_bits()));
    assert!(!env.owns(0x8000));
}

#[test]
fn setting_one_thread_leaves_a_new_cell_of_another_alone() {
    let mut mem = Mem::new(0x10000);
    let mut state = State::new();
    state.set_errno_for_thread(&mut mem, 5, 77);
    // The other thread's cell is made by this very call.
    state.set_errno_for_thread(&mut mem, 6, 88);
    let a = state.errno_for_thread(&mut mem, 5);
    let b = state.errno_for_thread(&mut mem, 6);
    assert_eq!((mem.read(a), mem.read(b)), (77, 88));
}
