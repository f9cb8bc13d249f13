use guest_bridge::libc::pthread::semaphore::{
    sem_close, sem_open, sem_post, sem_trywait, sem_unlink, sem_wait,
};
use guest_bridge::mem::ConstPtr;
use guest_bridge::scheduler::{BlockReason, ThreadState};
use guest_bridge::Environment;

fn state(env: &Environment, thread: usize) -> ThreadState {
    env.threads[thread].state
}

fn count(env: &Environment, sem: u32) -> i32 {
    env.libc_state.pthread.semaphore.semaphores[&sem].value
}

#[test]
fn open_sets_count_and_no_waiters() {
    let mut env = Environment::new(0x10000);
    let sem = sem_open(&mut env, ConstPtr::null(), 0, 0, 3);
    assert!(!sem.is_null());
    assert_eq!(count(&env, sem.to_bits()), 3);
    assert!(env.libc_state.pthread.semaphore.semaphores[&sem.to_bits()]
        .waiting
        .is_empty());
    assert_eq!(env.mem.allocation_size(sem), Some(4));
    assert_eq!(env.mem.read(sem), 0);
}

#[test]
fn wait_takes_a_unit_when_there_is_one() {
    let mut env = Environment::new(0x10000);
    let sem = sem_open(&mut env, ConstPtr::null(), 0, 0, 2);
    assert_eq!(sem_wait(&mut env, sem), 0);
    assert_eq!(count(&env, sem.to_bits()), 1);
    assert_eq!(state(&env, 0), ThreadState::Runnable);
    assert_eq!(sem_trywait(&mut env, sem), 0);
    assert_eq!(count(&env, sem.to_bits()), 0);
    assert_eq!(sem_trywait(&mut env, sem), -1);
    assert_eq!(count(&env, sem.to_bits()), 0);
    assert_eq!(state(&env, 0), ThreadState::Runnable);
}

#[test]
fn post_without_waiter_raises_count_by_one() {
    let mut env = Environment::new(0x10000);
    let sem = sem_open(&mut env, ConstPtr::null(), 0, 0, 0);
    assert_eq!(sem_post(&mut env, sem), 0);
    assert_eq!(count(&env, sem.to_bits()), 1);
    assert_eq!(sem_post(&mut env, sem), 0);
    assert_eq!(count(&env, sem.to_bits()), 2);
}

#[test]
fn blocked_thread_resumes_after_post_and_trywait_then_fails() {
    let mut env = Environment::new(0x10000);
    let sem = sem_open(&mut env, ConstPtr::null(), 0, 0, 0);
    let t1 = env.new_thread();
    assert_eq!(t1, 1);

    // The new thread takes its turn and waits.
    assert_eq!(env.schedule(), Some(t1));
    assert_eq!(sem_wait(&mut env, sem), 0);
    assert_eq!(
        state(&env, t1),
        ThreadState::Blocked(BlockReason::Semaphore(sem.to_bits()))
    );
    assert_eq!(count(&env, sem.to_bits()), 0);

    // Control goes back to the main thread, which posts.
    assert_eq!(env.schedule(), Some(0));
    assert_eq!(sem_post(&mut env, sem), 0);
    assert_eq!(state(&env, t1), ThreadState::Runnable);
    assert_eq!(count(&env, sem.to_bits()), 0);
    assert!(env.libc_state.pthread.semaphore.semaphores[&sem.to_bits()]
        .waiting
        .is_empty());

    // The woken thread runs again; there is nothing left to take.
    assert_eq!(env.schedule(), Some(t1));
    assert_eq!(sem_trywait(&mut env, sem), -1);
    assert_eq!(state(&env, t1), ThreadState::Runnable);
}

#[test]
fn post_wakes_exactly_one_waiter_lowest_number_first() {
    let mut env = Environment::new(0x10000);
    let sem = sem_open(&mut env, ConstPtr::null(), 0, 0, 0);
    let t1 = env.new_thread();
    let t2 = env.new_thread();
    env.current_thread = t2;
    sem_wait(&mut env, sem);
    env.current_thread = t1;
    sem_wait(&mut env, sem);
    env.current_thread = 0;

    assert_eq!(env.unsleep_sem(sem), Some(t1));
    assert_eq!(state(&env, t1), ThreadState::Runnable);
    assert_eq!(
        state(&env, t2),
        ThreadState::Blocked(BlockReason::Semaphore(sem.to_bits()))
    );
    assert_eq!(count(&env, sem.to_bits()), 0);

    assert_eq!(env.unsleep_sem(sem), Some(t2));
    assert_eq!(state(&env, t2), ThreadState::Runnable);
    assert_eq!(env.unsleep_sem(sem), None);
    assert_eq!(count(&env, sem.to_bits()), 1);
}

#[test]
fn schedule_reports_when_no_thread_can_run() {
    let mut env = Environment::new(0x10000);
    let sem = sem_open(&mut env, ConstPtr::null(), 0, 0, 0);
    sem_wait(&mut env, sem);
    assert_eq!(env.schedule(), None);
    assert_eq!(env.current_thread, 0);
    // A post from outside the guest lets the thread go on.
    sem_post(&mut env, sem);
    assert_eq!(env.schedule(), Some(0));
}

#[test]
fn close_forgets_the_semaphore_and_frees_its_cell() {
    let mut env = Environment::new(0x10000);
    let sem = sem_open(&mut env, ConstPtr::null(), 0, 0, 1);
    assert_eq!(sem_unlink(&mut env, ConstPtr::null()), 0);
    assert_eq!(sem_close(&mut env, sem), 0);
    assert!(!env
        .libc_state
        .pthread
        .semaphore
        .semaphores
        .contains_key(&sem.to_bits()));
    assert_eq!(env.mem.allocation_size(sem), None);
}

#[derive(Clone, Copy)]
enum Op {
    TryWait(usize),
    Wait(usize),
    Post,
}

fn check_invariants(env: &Environment, sem: u32) {
    let host = &env.libc_state.pthread.semaphore.semaphores[&sem];
    assert!(host.value >= 0);
    if !host.waiting.is_empty() {
        assert_eq!(host.value, 0);
    }
    for (id, thread) in env.threads.iter().enumerate() {
        let blocked = thread.state == ThreadState::Blocked(BlockReason::Semaphore(sem));
        assert_eq!(blocked, host.waiting.contains(&id));
    }
}

fn run_history(history: &[Op]) {
    let mut env = Environment::new(0x2000);
    let sem = sem_open(&mut env, ConstPtr::null(), 0, 0, 1);
    env.new_thread();
    env.new_thread();
    check_invariants(&env, sem.to_bits());
    for op in history {
        let count_before = count(&env, sem.to_bits());
        let waiting_before = env.libc_state.pthread.semaphore.semaphores[&sem.to_bits()].waiting.len();
        match *op {
            Op::TryWait(thread) => {
                if !env.is_runnable(thread) {
                    continue;
                }
                env.current_thread = thread;
                let result = sem_trywait(&mut env, sem);
                assert_eq!(result == 0, count_before > 0);
                assert!(env.is_runnable(thread));
            }
            Op::Wait(thread) => {
                if !env.is_runnable(thread) {
                    continue;
                }
                env.current_thread = thread;
                assert_eq!(sem_wait(&mut env, sem), 0);
                assert_eq!(env.is_runnable(thread), count_before > 0);
            }
            Op::Post => {
                assert_eq!(sem_post(&mut env, sem), 0);
                let waiting_after =
                    env.libc_state.pthread.semaphore.semaphores[&sem.to_bits()].waiting.len();
                if waiting_before > 0 {
                    assert_eq!(waiting_after, waiting_before - 1);
                    assert_eq!(count(&env, sem.to_bits()), count_before);
                } else {
                    assert_eq!(waiting_after, 0);
                    assert_eq!(count(&env, sem.to_bits()), count_before + 1);
                }
            }
        }
        check_invariants(&env, sem.to_bits());
    }
}

#[test]
fn every_short_history_keeps_the_count_and_the_waiters_in_order() {
    let ops = [
        Op::TryWait(0),
        Op::TryWait(1),
        Op::Wait(0),
        Op::Wait(1),
        Op::Wait(2),
        Op::Post,
    ];
    let length = 5;
    let mut index = vec![0usize; length];
    loop {
        let history: Vec<Op> = index.iter().map(|i| ops[*i]).collect();
        run_history(&history);
        let mut place = 0;
        while place < length {
            index[place] += 1;
            if index[place] < ops.len() {
                break;
            }
            index[place] = 0;
            place += 1;
        }
        if place == length {
            break;
        }
    }
}

#[test]
fn every_waiter_runs_again_after_as_many_posts_as_there_are_waiters() {
    let mut env = Environment::new(0x10000);
    let sem = sem_open(&mut env, ConstPtr::null(), 0, 0, 0);
    for _ in 0..4 {
        env.new_thread();
    }
    for thread in [3, 1, 4, 2] {
        env.current_thread = thread;
        sem_wait(&mut env, sem);
        assert!(!env.is_runnable(thread));
    }
    env.current_thread = 0;
    for posts in 1..=4 {
        sem_post(&mut env, sem);
        // The waiters run again in the order of their numbers.
        for thread in 1..=4 {
            assert_eq!(env.is_runnable(thread), thread <= posts);
        }
    }
    assert_eq!(count(&env, sem.to_bits()), 0);
}

#[test]
fn scheduling_goes_round_and_skips_threads_that_cannot_run() {
    let mut env = Environment::new(0x10000);
    let sem = sem_open(&mut env, ConstPtr::null(), 0, 0, 0);
    let t1 = env.new_thread();
    let t2 = env.new_thread();
    let t3 = env.new_thread();
    assert_eq!((t1, t2, t3), (1, 2, 3));
    assert_eq!(env.schedule(), Some(1));
    assert_eq!(env.schedule(), Some(2));
    // Thread 2 blocks, thread 3 ends.
    sem_wait(&mut env, sem);
    assert_eq!(env.schedule(), Some(3));
    env.exit_current_thread();
    assert_eq!(state(&env, 3), ThreadState::Terminated);
    assert_eq!(env.schedule(), Some(0));
    assert_eq!(env.schedule(), Some(1));
    assert_eq!(env.schedule(), Some(0));
    // A thread that alone can run is scheduled again and again.
    env.exit_current_thread();
    assert_eq!(env.schedule(), Some(1));
    assert_eq!(env.schedule(), Some(1));
    assert!(!env.is_runnable(2));
    assert!(!env.is_runnable(3));
    assert!(!env.is_runnable(17));
    sem_post(&mut env, sem);
    assert_eq!(env.schedule(), Some(2));
}
