use guest_bridge::dyld::{
    arity, call_host_function, check_call, same_bytes, Dyld, ExportError, HostFunction, Lookup,
    MissingSymbolPolicy, Resolved, SymbolCall, Trap,
};
use guest_bridge::frameworks::core_graphics::cg_image::from_image;
use guest_bridge::image::Image;
use guest_bridge::libc::pthread::semaphore::sem_open;
use guest_bridge::mem::{ConstPtr, MutPtr};
use guest_bridge::scheduler::{BlockReason, ThreadState};
use guest_bridge::Environment;

fn table() -> Dyld {
    let mut dyld = Dyld::new();
    dyld.register(b"_sem_open".to_vec(), 4, HostFunction::sem_open).unwrap();
    dyld.register(b"_sem_post".to_vec(), 1, HostFunction::sem_post).unwrap();
    dyld.register(b"_sem_wait".to_vec(), 1, HostFunction::sem_wait).unwrap();
    dyld.register(b"___error".to_vec(), 0, HostFunction::__error).unwrap();
    dyld
}

#[test]
fn registered_names_resolve_to_their_entries() {
    let dyld = table();
    assert_eq!(dyld.len(), 4);
    assert_eq!(
        dyld.resolve(b"_sem_open"),
        Some(Resolved { arity: 4, function: HostFunction::sem_open })
    );
    assert_eq!(
        dyld.resolve(b"___error"),
        Some(Resolved { arity: 0, function: HostFunction::__error })
    );
}

#[test]
fn resolving_is_repeatable_and_changes_nothing() {
    let dyld = table();
    let first = dyld.resolve(b"_sem_post");
    let second = dyld.resolve(b"_sem_post");
    assert_eq!(first, second);
    assert_eq!(dyld.len(), 4);
}

#[test]
fn unknown_and_near_miss_names_do_not_resolve() {
    let dyld = table();
    assert_eq!(dyld.resolve(b"_sem_destroy"), None);
    assert_eq!(dyld.resolve(b"_sem_pos"), None);
    assert_eq!(dyld.resolve(b"_sem_post2"), None);
    assert_eq!(dyld.resolve(b""), None);
}

#[test]
fn a_name_is_registered_once() {
    let mut dyld = table();
    assert_eq!(
        dyld.register(b"_sem_post".to_vec(), 9, HostFunction::sem_close),
        Err(ExportError::DuplicateName)
    );
    assert_eq!(dyld.len(), 4);
    assert_eq!(
        dyld.resolve(b"_sem_post"),
        Some(Resolved { arity: 1, function: HostFunction::sem_post })
    );
}

#[test]
fn call_of_an_unregistered_symbol_reports_its_name() {
    let dyld = table();
    let env = Environment::new(0x10000);
    let free = env.mem.available();
    let registers = [1u32, 2, 3, 4];
    match dyld.lookup(b"_sem_getvalue", MissingSymbolPolicy::NoOpStub) {
        Lookup::Missing { name, policy } => {
            assert_eq!(name, b"_sem_getvalue".to_vec());
            assert_eq!(policy, MissingSymbolPolicy::NoOpStub);
        }
        Lookup::Found(_) => panic!("resolved a symbol that has no entry"),
    }
    match dyld.lookup(b"_sem_getvalue", MissingSymbolPolicy::HardStop) {
        Lookup::Missing { name, policy } => {
            assert_eq!(name, b"_sem_getvalue".to_vec());
            assert_eq!(policy, MissingSymbolPolicy::HardStop);
        }
        Lookup::Found(_) => panic!("resolved a symbol that has no entry"),
    }
    // Neither memory nor registers were touched.
    assert_eq!(env.mem.available(), free);
    assert_eq!(registers, [1, 2, 3, 4]);
    assert_eq!(dyld.len(), 4);
}

#[test]
fn lookup_of_a_registered_symbol_finds_it() {
    let dyld = table();
    match dyld.lookup(b"_sem_wait", MissingSymbolPolicy::HardStop) {
        Lookup::Found(resolved) => {
            assert_eq!(resolved, Resolved { arity: 1, function: HostFunction::sem_wait })
        }
        Lookup::Missing { .. } => panic!("missed a symbol that has an entry"),
    }
}

#[test]
fn byte_strings_compare_by_content() {
    assert!(same_bytes(b"abc", b"abc"));
    assert!(!same_bytes(b"abc", b"abd"));
    assert!(!same_bytes(b"abc", b"ab"));
    assert!(same_bytes(b"", b""));
}

#[test]
fn arities() {
    assert_eq!(arity(HostFunction::sem_open), 4);
    assert_eq!(arity(HostFunction::CFDataGetBytes), 4);
    assert_eq!(arity(HostFunction::if_indextoname), 2);
    assert_eq!(arity(HostFunction::__error), 0);
    assert_eq!(arity(HostFunction::CFTimeZoneCopySystem), 0);
    assert_eq!(arity(HostFunction::sem_post), 1);
    assert_eq!(arity(HostFunction::CGImageGetWidth), 1);
}

#[test]
fn semaphore_calls_go_through_the_argument_window() {
    let mut env = Environment::new(0x10000);
    let returned = call_host_function(&mut env, HostFunction::sem_open, &[0, 0, 0, 1, 99]).unwrap();
    assert_eq!(returned.len(), 1);
    let sem = returned[0];
    assert_eq!(env.semaphore_count(sem), 1);

    assert_eq!(call_host_function(&mut env, HostFunction::sem_trywait, &[sem]), Ok(vec![0]));
    assert_eq!(
        call_host_function(&mut env, HostFunction::sem_trywait, &[sem]),
        Ok(vec![0xffff_ffff])
    );
    assert_eq!(call_host_function(&mut env, HostFunction::sem_post, &[sem]), Ok(vec![0]));
    assert_eq!(env.semaphore_count(sem), 1);
    assert_eq!(call_host_function(&mut env, HostFunction::sem_wait, &[sem]), Ok(vec![0]));
    assert_eq!(call_host_function(&mut env, HostFunction::sem_wait, &[sem]), Ok(vec![0]));
    assert_eq!(env.threads[0].state, ThreadState::Blocked(BlockReason::Semaphore(sem)));
    assert!(env.semaphore_has_waiter(sem));
    assert_eq!(call_host_function(&mut env, HostFunction::sem_unlink, &[0]), Ok(vec![0]));
}

#[test]
fn calls_that_cannot_be_carried_out_are_refused_without_change() {
    let mut env = Environment::new(0x10000);
    let sem = sem_open(&mut env, ConstPtr::null(), 0, 0, 0);
    let free = env.mem.available();

    assert_eq!(call_host_function(&mut env, HostFunction::sem_open, &[0, 0, 0]), Err(Trap::MissingArguments));
    assert_eq!(call_host_function(&mut env, HostFunction::sem_post, &[]), Err(Trap::MissingArguments));
    assert_eq!(call_host_function(&mut env, HostFunction::sem_post, &[0x5000]), Err(Trap::Refused));
    assert_eq!(call_host_function(&mut env, HostFunction::sem_close, &[0x5000]), Err(Trap::Refused));
    assert_eq!(
        call_host_function(&mut env, HostFunction::sem_open, &[0, 0, 0, 0x8000_0000]),
        Err(Trap::Refused)
    );
    assert_eq!(call_host_function(&mut env, HostFunction::if_indextoname, &[3, 0x2000]), Err(Trap::Refused));
    assert_eq!(call_host_function(&mut env, HostFunction::if_indextoname, &[2, 0]), Err(Trap::Refused));
    assert_eq!(call_host_function(&mut env, HostFunction::CGImageGetWidth, &[sem.to_bits()]), Err(Trap::Refused));
    assert_eq!(call_host_function(&mut env, HostFunction::CGImageRelease, &[0x5000]), Err(Trap::Refused));

    // A blocked thread cannot wait again, and a semaphore with a waiter cannot be closed.
    call_host_function(&mut env, HostFunction::sem_wait, &[sem.to_bits()]).unwrap();
    assert_eq!(call_host_function(&mut env, HostFunction::sem_wait, &[sem.to_bits()]), Err(Trap::Refused));
    assert_eq!(call_host_function(&mut env, HostFunction::sem_close, &[sem.to_bits()]), Err(Trap::Refused));
    // A wait that does not block is open to it all the same, and fails for want of a unit.
    assert!(check_call(&env, HostFunction::sem_trywait, &[sem.to_bits()]));
    assert_eq!(
        call_host_function(&mut env, HostFunction::sem_trywait, &[sem.to_bits()]),
        Ok(vec![0xffff_ffff])
    );
    assert!(check_call(&env, HostFunction::sem_post, &[sem.to_bits()]));

    assert_eq!(env.mem.available(), free);
    assert_eq!(env.semaphore_count(sem.to_bits()), 0);
}

#[test]
fn error_cell_and_interface_name_through_the_window() {
    let mut env = Environment::new(0x10000);
    let first = call_host_function(&mut env, HostFunction::__error, &[]).unwrap();
    let second = call_host_function(&mut env, HostFunction::__error, &[7, 8]).unwrap();
    assert_eq!(first, second);
    assert_eq!(env.libc_state.errno.cell(0).map(|c| c.to_bits()), Some(first[0]));

    let buffer: MutPtr<u8> = env.mem.allocate(8).cast();
    assert_eq!(
        call_host_function(&mut env, HostFunction::if_indextoname, &[2, buffer.to_bits()]),
        Ok(vec![buffer.to_bits()])
    );
    assert_eq!(env.mem.cstr_at(buffer), b"en0");
    assert_eq!(call_host_function(&mut env, HostFunction::if_nameindex, &[buffer.to_bits()]), Ok(vec![0]));
    assert_eq!(call_host_function(&mut env, HostFunction::CFTimeZoneCopySystem, &[]), Ok(vec![0]));
}

#[test]
fn image_calls_through_the_window() {
    let mut env = Environment::new(0x10000);
    let pixels: Vec<u8> = (0..24).collect();
    let image = Image::from_pixels(3, 2, pixels.clone()).unwrap();
    let object = from_image(&mut env, image).to_bits();

    assert_eq!(call_host_function(&mut env, HostFunction::CGImageGetWidth, &[object]), Ok(vec![3]));
    assert_eq!(call_host_function(&mut env, HostFunction::CGImageGetHeight, &[object]), Ok(vec![2]));
    assert_eq!(call_host_function(&mut env, HostFunction::CGImageGetAlphaInfo, &[object]), Ok(vec![3]));
    assert_eq!(call_host_function(&mut env, HostFunction::CGImageGetDataProvider, &[object]), Ok(vec![object]));
    assert_eq!(call_host_function(&mut env, HostFunction::CGDataProviderCopyData, &[object]), Ok(vec![object]));
    assert_eq!(call_host_function(&mut env, HostFunction::CFDataGetLength, &[object]), Ok(vec![24]));

    let buffer: MutPtr<u8> = env.mem.allocate(24).cast();
    assert_eq!(
        call_host_function(&mut env, HostFunction::CFDataGetBytes, &[object, 0, 24, buffer.to_bits()]),
        Ok(vec![])
    );
    assert_eq!(env.mem.bytes_at(buffer, 24), &pixels[..]);

    assert_eq!(call_host_function(&mut env, HostFunction::CGImageRetain, &[object]), Ok(vec![object]));
    assert_eq!(call_host_function(&mut env, HostFunction::CGImageRetain, &[0]), Ok(vec![0]));
    assert_eq!(call_host_function(&mut env, HostFunction::CGImageRelease, &[object]), Ok(vec![]));
    assert_eq!(call_host_function(&mut env, HostFunction::CGImageRelease, &[0]), Ok(vec![]));
    assert_eq!(call_host_function(&mut env, HostFunction::CGImageRelease, &[object]), Ok(vec![]));
    assert_eq!(call_host_function(&mut env, HostFunction::CGImageRelease, &[object]), Err(Trap::Refused));

    let space = call_host_function(&mut env, HostFunction::CGImageGetColorSpace, &[0]).unwrap();
    assert_eq!(env.objc.refcount(MutPtr::from_bits(space[0])), Some(1));
}

#[test]
fn call_by_name_goes_to_the_entry() {
    let dyld = table();
    let mut env = Environment::new(0x10000);
    let sem = match dyld.call_symbol(&mut env, b"_sem_open", &[0, 0, 0, 2], MissingSymbolPolicy::HardStop) {
        SymbolCall::Returned(returned) => returned[0],
        _ => panic!("the call was not carried out"),
    };
    assert_eq!(env.semaphore_count(sem), 2);
    match dyld.call_symbol(&mut env, b"_sem_wait", &[sem], MissingSymbolPolicy::HardStop) {
        SymbolCall::Returned(returned) => assert_eq!(returned, vec![0]),
        _ => panic!("the call was not carried out"),
    }
    assert_eq!(env.semaphore_count(sem), 1);
    assert!(matches!(
        dyld.call_symbol(&mut env, b"_sem_wait", &[], MissingSymbolPolicy::HardStop),
        SymbolCall::Trapped(Trap::MissingArguments)
    ));
    assert!(matches!(
        dyld.call_symbol(&mut env, b"_sem_post", &[0x7000], MissingSymbolPolicy::HardStop),
        SymbolCall::Trapped(Trap::Refused)
    ));
    assert_eq!(env.semaphore_count(sem), 1);
}

#[test]
fn call_by_an_unregistered_name_changes_nothing_and_names_the_symbol() {
    let dyld = table();
    let mut env = Environment::new(0x10000);
    let sem = sem_open(&mut env, ConstPtr::null(), 0, 0, 1);
    let free = env.mem.available();
    let bytes = env.mem.bytes_at(ConstPtr::<u8>::from_bits(0x1000), 0x100).to_vec();
    let window = [sem.to_bits(), 2, 3, 4];
    for policy in [MissingSymbolPolicy::NoOpStub, MissingSymbolPolicy::HardStop] {
        match dyld.call_symbol(&mut env, b"_sem_destroy", &window, policy) {
            SymbolCall::Missing { name, policy: chosen } => {
                assert_eq!(name, b"_sem_destroy".to_vec());
                assert_eq!(chosen, policy);
            }
            _ => panic!("a symbol without an entry was called"),
        }
    }
    assert_eq!(window, [sem.to_bits(), 2, 3, 4]);
    assert_eq!(env.mem.available(), free);
    assert_eq!(env.mem.bytes_at(ConstPtr::<u8>::from_bits(0x1000), 0x100), &bytes[..]);
    assert_eq!(env.semaphore_count(sem.to_bits()), 1);
    assert_eq!(env.threads.len(), 1);
}
