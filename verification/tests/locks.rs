use cynthia::platform::lock::barrier::{Barrier, BarrierStep, BarrierWait};
use cynthia::platform::lock::mutex::{lock, Acquire, AcquireStep, Mutex};
use cynthia::platform::lock::rwlock::{Reading, RwLock, RwStep, UpgradableReading, Writing};
use cynthia::platform::lock::semaphore::{AcquirePermit, PermitStep, Semaphore};
use cynthia::platform::mutex::mutex::{LockStep, Locking};
use cynthia::task::{Context, Wake, Waker};

fn context(id: u64) -> Context {
    Context::from_waker(Waker { id })
}

const MILLI: u128 = 1_000_000;

fn acquire<T>(a: &mut Acquire, m: &mut Mutex<T>, id: u64, now: u128, woken: &mut Vec<Wake>) -> bool {
    loop {
        match a.step(m, &context(id), now, woken) {
            AcquireStep::Again => {}
            AcquireStep::Pending => return false,
            AcquireStep::Acquired => return true,
            AcquireStep::Overflow => panic!("overflow"),
        }
    }
}

#[test]
fn mutex_excludes() {
    let mut m = Mutex::new(5);
    assert!(m.try_lock());
    assert!(!m.try_lock());
    *m.get_mut() += 1;
    let mut woken = Vec::new();
    m.unlock(&mut woken);
    assert!(m.try_lock());
    assert_eq!(m.into_inner(), 6);
}

#[test]
fn mutex_wakes_who_waits() {
    let mut m = Mutex::new(());
    let mut woken = Vec::new();
    assert!(m.try_lock());
    let mut a = lock();
    assert!(!acquire(&mut a, &mut m, 1, 0, &mut woken));
    m.unlock(&mut woken);
    assert_eq!(woken, vec![Wake::Task(Waker { id: 1 })]);
    assert!(acquire(&mut a, &mut m, 1, 0, &mut woken));
    assert!(!m.try_lock());
}

#[test]
fn mutex_starving_task_goes_first() {
    let mut m = Mutex::new(());
    let mut woken = Vec::new();
    assert!(m.try_lock());
    let mut a = lock();
    assert!(!acquire(&mut a, &mut m, 1, 0, &mut woken));
    m.unlock(&mut woken);
    assert!(m.try_lock());
    assert!(!acquire(&mut a, &mut m, 1, 10 * MILLI, &mut woken));
    m.unlock(&mut woken);
    assert!(!m.try_lock());
    assert!(acquire(&mut a, &mut m, 1, 11 * MILLI, &mut woken));
}

#[test]
fn mutex_waiter_that_gives_up_passes_on() {
    let mut m = Mutex::new(());
    let mut woken = Vec::new();
    assert!(m.try_lock());
    let mut a = lock();
    let mut b = lock();
    assert!(!acquire(&mut a, &mut m, 1, 0, &mut woken));
    assert!(!acquire(&mut b, &mut m, 2, 0, &mut woken));
    m.unlock(&mut woken);
    a.drop(&mut m, &mut woken);
    assert_eq!(woken, vec![Wake::Task(Waker { id: 1 }), Wake::Task(Waker { id: 2 })]);
    assert!(acquire(&mut b, &mut m, 2, 0, &mut woken));
}

fn permit(p: &mut AcquirePermit, s: &mut Semaphore, id: u64, woken: &mut Vec<Wake>) -> bool {
    loop {
        match p.step(s, &context(id), woken) {
            PermitStep::Again => {}
            PermitStep::Pending => return false,
            PermitStep::Acquired => return true,
        }
    }
}

#[test]
fn semaphore_counts_permits() {
    let mut s = Semaphore::new(2);
    let mut woken = Vec::new();
    assert!(s.try_acquire());
    assert!(s.try_acquire());
    assert!(!s.try_acquire());
    let mut p = Semaphore::acquire();
    assert!(!permit(&mut p, &mut s, 4, &mut woken));
    s.release(&mut woken);
    assert_eq!(woken, vec![Wake::Task(Waker { id: 4 })]);
    assert!(permit(&mut p, &mut s, 4, &mut woken));
    assert!(!s.try_acquire());
}

#[test]
fn semaphore_waiter_gives_up() {
    let mut s = Semaphore::new(0);
    let mut woken = Vec::new();
    let mut p = Semaphore::acquire();
    let mut q = Semaphore::acquire();
    assert!(!permit(&mut p, &mut s, 1, &mut woken));
    assert!(!permit(&mut q, &mut s, 2, &mut woken));
    s.release(&mut woken);
    p.drop(&mut s, &mut woken);
    assert_eq!(woken, vec![Wake::Task(Waker { id: 1 }), Wake::Task(Waker { id: 2 })]);
    assert!(permit(&mut q, &mut s, 2, &mut woken));
}

fn pass(w: &mut BarrierWait, b: &mut Barrier, id: u64, woken: &mut Vec<Wake>) -> Option<bool> {
    loop {
        match w.step(b, &context(id), 0, woken) {
            BarrierStep::Again => {}
            BarrierStep::Pending => return None,
            BarrierStep::Passed(r) => return Some(r.is_leader()),
            BarrierStep::Overflow => panic!("overflow"),
        }
    }
}

#[test]
fn barrier_has_one_leader() {
    let mut b = Barrier::new(3);
    for _ in 0..2 {
        let mut woken = Vec::new();
        let mut one = Barrier::wait();
        let mut two = Barrier::wait();
        let mut three = Barrier::wait();
        assert_eq!(pass(&mut one, &mut b, 1, &mut woken), None);
        assert_eq!(pass(&mut two, &mut b, 2, &mut woken), None);
        assert_eq!(pass(&mut three, &mut b, 3, &mut woken), Some(true));
        assert_eq!(woken.len(), 2);
        assert_eq!(pass(&mut one, &mut b, 1, &mut woken), Some(false));
        assert_eq!(pass(&mut two, &mut b, 2, &mut woken), Some(false));
    }
}

#[test]
fn barrier_of_one_or_none_is_open() {
    for n in 0..2 {
        let mut b = Barrier::new(n);
        let mut woken = Vec::new();
        let mut w = Barrier::wait();
        assert_eq!(pass(&mut w, &mut b, 1, &mut woken), Some(true));
    }
}

fn reads<T>(r: &mut Reading, l: &mut RwLock<T>, id: u64, woken: &mut Vec<Wake>) -> bool {
    loop {
        match r.step(l, &context(id), woken) {
            RwStep::Again => {}
            RwStep::Pending => return false,
            RwStep::Acquired => return true,
            RwStep::Overflow => panic!("overflow"),
        }
    }
}

fn writes<T>(w: &mut Writing, l: &mut RwLock<T>, id: u64, woken: &mut Vec<Wake>) -> bool {
    loop {
        match w.step(l, &context(id), 0, woken) {
            RwStep::Again => {}
            RwStep::Pending => return false,
            RwStep::Acquired => return true,
            RwStep::Overflow => panic!("overflow"),
        }
    }
}

#[test]
fn rwlock_many_readers_or_one_writer() {
    let mut l = RwLock::new(1);
    let mut woken = Vec::new();
    assert!(l.try_read());
    assert!(l.try_read());
    assert!(!l.try_write(&mut woken));
    l.release_read(&mut woken);
    l.release_read(&mut woken);
    assert!(l.try_write(&mut woken));
    assert!(!l.try_read());
    assert!(!l.try_upgradable_read());
    *l.get_mut() = 2;
    l.release_write(&mut woken);
    assert_eq!(l.into_inner(), 2);
}

#[test]
fn rwlock_writer_waits_for_readers() {
    let mut l = RwLock::new(());
    let mut woken = Vec::new();
    assert!(l.try_read());
    let mut w: Writing = RwLock::<()>::write();
    assert!(!writes(&mut w, &mut l, 1, &mut woken));
    assert!(!l.try_read());
    l.release_read(&mut woken);
    assert_eq!(woken, vec![Wake::Task(Waker { id: 1 })]);
    assert!(writes(&mut w, &mut l, 1, &mut woken));
    let mut r: Reading = RwLock::<()>::read();
    assert!(!reads(&mut r, &mut l, 2, &mut woken));
    l.release_write(&mut woken);
    assert!(reads(&mut r, &mut l, 2, &mut woken));
}

#[test]
fn rwlock_upgrade_and_downgrade() {
    let mut l = RwLock::new(());
    let mut woken = Vec::new();
    assert!(l.try_upgradable_read());
    assert!(l.try_read());
    assert!(!l.try_upgradable_read());
    assert!(!l.try_upgrade());
    l.release_read(&mut woken);
    assert!(l.try_upgrade());
    assert!(!l.try_read());
    l.downgrade_to_upgradable();
    assert!(l.try_read());
    l.release_read(&mut woken);
    l.downgrade_upgradable(&mut woken);
    assert!(l.try_upgradable_read());
    l.release_upgradable(&mut woken);
    l.release_read(&mut woken);
    assert!(l.try_write(&mut woken));
    l.downgrade(&mut woken);
    assert!(l.try_read());
}

#[test]
fn rwlock_upgrade_waits_for_readers() {
    let mut l = RwLock::new(());
    let mut woken = Vec::new();
    let mut u: UpgradableReading = RwLock::<()>::upgradable_read();
    let got = loop {
        match u.step(&mut l, &context(1), 0, &mut woken) {
            RwStep::Again => {}
            RwStep::Acquired => break true,
            _ => break false,
        }
    };
    assert!(got);
    assert!(l.try_read());
    let mut w = l.upgrade();
    assert!(!writes(&mut w, &mut l, 1, &mut woken));
    l.release_read(&mut woken);
    assert!(writes(&mut w, &mut l, 1, &mut woken));
    assert!(!l.try_read());
}

#[test]
fn blocking_mutex_spins_then_parks() {
    let mut m = cynthia::platform::mutex::mutex::Mutex::new(3);
    let mut woken = Vec::new();
    assert!(m.try_lock());
    let mut l: Locking = cynthia::platform::mutex::mutex::Mutex::<i32>::lock_slow();
    let mut steps = Vec::new();
    loop {
        let step = l.step(&mut m, 5, 0, &mut woken);
        if step != LockStep::Again {
            steps.push(step);
        }
        if step == LockStep::Park {
            break;
        }
    }
    assert_eq!(steps[0], LockStep::Spin(1));
    assert!(steps.contains(&LockStep::Yield));
    m.unlock(&mut woken);
    assert_eq!(woken, vec![Wake::Thread(5)]);
    let mut last = LockStep::Again;
    while last == LockStep::Again {
        last = l.step(&mut m, 5, 0, &mut woken);
    }
    assert_eq!(last, LockStep::Acquired);
    assert!(!m.try_lock());
}

#[test]
fn barrier_counts_who_gave_up() {
    let mut b = Barrier::new(2);
    let mut woken = Vec::new();
    let mut one = Barrier::wait();
    assert_eq!(pass(&mut one, &mut b, 1, &mut woken), None);
    one.drop(&mut b, &mut woken);
    let mut two = Barrier::wait();
    assert_eq!(pass(&mut two, &mut b, 2, &mut woken), Some(true));
    assert!(woken.is_empty());
}

#[test]
fn rwlock_writer_gives_up() {
    let mut l = RwLock::new(());
    let mut woken = Vec::new();
    assert!(l.try_read());
    let mut w: Writing = RwLock::<()>::write();
    assert!(!writes(&mut w, &mut l, 1, &mut woken));
    assert!(!l.try_read());
    let mut r: Reading = RwLock::<()>::read();
    assert!(!reads(&mut r, &mut l, 2, &mut woken));
    w.drop(&mut l, &mut woken);
    assert_eq!(woken, vec![Wake::Task(Waker { id: 2 })]);
    assert!(reads(&mut r, &mut l, 2, &mut woken));
    assert!(l.try_read());
}

#[test]
fn rwlock_upgradable_reader_gives_up() {
    let mut l = RwLock::new(());
    let mut woken = Vec::new();
    assert!(l.try_upgradable_read());
    assert!(!l.is_crowded());
    let mut u: UpgradableReading = RwLock::<()>::upgradable_read();
    let waits = loop {
        match u.step(&mut l, &context(1), 0, &mut woken) {
            RwStep::Again => {}
            RwStep::Pending => break true,
            _ => break false,
        }
    };
    assert!(waits);
    u.drop(&mut l, &mut woken);
    assert!(woken.is_empty());
    l.release_upgradable(&mut woken);
    assert!(woken.is_empty());
    assert!(l.try_write(&mut woken));
}

#[test]
fn tasks_that_wait_do_not_disturb_each_other() {
    let mut m = Mutex::new(());
    let mut woken = Vec::new();
    assert!(m.try_lock());
    let mut tasks: Vec<Acquire> = (0..4).map(|_| lock()).collect();
    for (i, task) in tasks.iter_mut().enumerate() {
        assert!(!acquire(task, &mut m, i as u64, 0, &mut woken));
    }
    tasks.remove(1).drop(&mut m, &mut woken);
    for id in [0u64, 2, 3] {
        woken.clear();
        m.unlock(&mut woken);
        assert_eq!(woken, vec![Wake::Task(Waker { id })]);
        let mut next = tasks.remove(0);
        assert!(acquire(&mut next, &mut m, id, 1, &mut woken));
        for other in tasks.iter_mut() {
            assert!(!acquire(other, &mut m, 9, 1, &mut woken));
        }
        for (other, id) in tasks.iter_mut().zip(if id == 0 { [2, 3] } else { [3, 3] }) {
            assert!(!acquire(other, &mut m, id, 1, &mut woken));
        }
    }
}

#[test]
fn tasks_that_want_permits_do_not_disturb_each_other() {
    let mut s = Semaphore::new(0);
    let mut woken = Vec::new();
    let mut a = Semaphore::acquire();
    let mut b = Semaphore::acquire();
    let mut c = Semaphore::acquire();
    assert!(!permit(&mut a, &mut s, 1, &mut woken));
    assert!(!permit(&mut b, &mut s, 2, &mut woken));
    assert!(!permit(&mut c, &mut s, 3, &mut woken));
    s.release(&mut woken);
    assert_eq!(woken, vec![Wake::Task(Waker { id: 1 })]);
    assert!(!permit(&mut b, &mut s, 2, &mut woken));
    a.drop(&mut s, &mut woken);
    assert_eq!(woken, vec![Wake::Task(Waker { id: 1 }), Wake::Task(Waker { id: 2 })]);
    assert!(permit(&mut b, &mut s, 2, &mut woken));
    assert!(!permit(&mut c, &mut s, 3, &mut woken));
    s.release(&mut woken);
    assert!(permit(&mut c, &mut s, 3, &mut woken));
}

#[test]
fn readers_and_writers_together() {
    let mut l = RwLock::new(0);
    let mut woken = Vec::new();
    let mut first = RwLock::<i32>::read();
    let mut second = RwLock::<i32>::read();
    let mut writer = RwLock::<i32>::write();
    let mut late = RwLock::<i32>::read();
    assert!(reads(&mut first, &mut l, 1, &mut woken));
    assert!(reads(&mut second, &mut l, 2, &mut woken));
    // The writer keeps new readers out, and waits for the others to leave.
    assert!(!writes(&mut writer, &mut l, 3, &mut woken));
    assert!(!reads(&mut late, &mut l, 4, &mut woken));
    l.release_read(&mut woken);
    assert!(!writes(&mut writer, &mut l, 3, &mut woken));
    l.release_read(&mut woken);
    assert_eq!(woken, vec![Wake::Task(Waker { id: 3 })]);
    assert!(writes(&mut writer, &mut l, 3, &mut woken));
    assert!(!reads(&mut late, &mut l, 4, &mut woken));
    assert!(!l.try_write(&mut woken) && !l.try_upgradable_read() && !l.try_read());
    l.release_write(&mut woken);
    assert!(reads(&mut late, &mut l, 4, &mut woken));
    assert!(!l.try_write(&mut woken));
    assert!(l.try_upgradable_read());
}
