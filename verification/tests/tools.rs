use crossfire::backoff::Pause;
use crossfire::spinlock::{LockStep, SpinWait, Spinlock};
use crossfire::stats::{Average, ChannelStats, SideReport};
use crossfire::timeout::check_timeout;

#[test]
fn timeout_is_reached_at_the_deadline() {
    assert_eq!(check_timeout(None, 5), Ok(None));
    assert_eq!(check_timeout(Some(100), 40), Ok(Some(60)));
    assert_eq!(check_timeout(Some(100), 99), Ok(Some(1)));
    assert_eq!(check_timeout(Some(100), 100), Err(()));
    assert_eq!(check_timeout(Some(100), 101), Err(()));
}

#[test]
fn spinlock_guards_its_value() {
    let mut lock = Spinlock::new(5);
    let mut guard = lock.lock();
    assert_eq!(*guard.get(), 5);
    *guard.get_mut() = 6;
    assert_eq!(*guard.get(), 6);
    guard.release();
    assert!(!lock.lock);
    assert_eq!(lock.inner, 6);
}

#[test]
fn spinlock_is_given_up_when_skipped() {
    let mut lock = Spinlock { lock: true, inner: 'a' };
    assert!(lock.lock_condition(true).is_none());
    assert!(lock.lock);
    lock.lock = false;
    let guard = lock.lock_condition(true).unwrap();
    assert_eq!(*guard.get(), 'a');
    guard.release();
    let guard = lock.lock_condition(false).unwrap();
    guard.release();
    assert!(!lock.lock);
}

#[test]
fn spin_wait_goes_on_until_the_lock_is_held() {
    let mut wait = SpinWait::new();
    let hints: [u32; 6] = [1, 2, 4, 8, 16, 32];
    for n in hints {
        assert_eq!(wait.after_try(false, false), LockStep::Pause(Pause::Spun(n)));
    }
    assert_eq!(wait.after_try(false, false), LockStep::Pause(Pause::Yield));
    assert_eq!(wait.after_try(true, false), LockStep::Locked);
}

#[test]
fn spin_wait_is_called_off_after_the_second_try() {
    let mut wait = SpinWait::new_conditional();
    assert_eq!(wait.after_try(false, true), LockStep::Pause(Pause::Spun(1)));
    assert_eq!(wait.after_try(false, true), LockStep::Skipped);
    let mut wait = SpinWait::new_conditional();
    assert_eq!(wait.after_try(true, true), LockStep::Locked);
}

#[test]
fn stats_are_counted_on_each_side() {
    let mut stats = ChannelStats::default();
    stats.tx_poll(3);
    stats.tx_poll(4);
    stats.rx_poll(1);
    let (tx, rx) = stats.report();
    assert_eq!(
        tx,
        SideReport { tries: Average::Count(7), polls: Average::Count(2), done: 0 }
    );
    assert_eq!(
        rx,
        SideReport { tries: Average::Count(1), polls: Average::Count(1), done: 0 }
    );
    stats.tx_done();
    stats.rx_done();
    stats.rx_done();
    let (tx, rx) = stats.report();
    assert_eq!(
        tx,
        SideReport { tries: Average::Per(7, 2), polls: Average::Per(2, 1), done: 1 }
    );
    assert_eq!(
        rx,
        SideReport { tries: Average::Per(1, 1), polls: Average::Per(1, 2), done: 2 }
    );
    stats.clear();
    assert_eq!(stats, ChannelStats::default());
}

#[test]
fn stats_wrap_around() {
    let mut stats = ChannelStats::default();
    stats.tx_try = usize::MAX;
    stats.rx_done = usize::MAX;
    stats.tx_poll(2);
    stats.rx_done();
    assert_eq!(stats.tx_try, 1);
    assert_eq!(stats.tx_poll, 1);
    assert_eq!(stats.rx_done, 0);
}
