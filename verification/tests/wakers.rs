use crossfire::collections::WakerTable;
use crossfire::locked_waker::{
    close_weak, wake_weak, RecvWaker, SendWaker, WakerCache, WakerInner, WakerState, WakerTrait,
    WakerType,
};
use crossfire::waker_registry::{
    Registry, RegistryDummy, RegistryMulti, RegistrySingle, RegistryTrait,
};

fn waiting(waker: WakerType) -> WakerInner<()> {
    WakerInner { state: WakerState::WAITING.code(), locked: false, seq: 0, waker, payload: () }
}

#[test]
fn state_codes_are_in_order() {
    assert_eq!(WakerState::WAITING.code(), 0);
    assert_eq!(WakerState::WAKED.code(), 1);
    assert_eq!(WakerState::DONE.code(), 2);
    assert_eq!(WakerState::CLOSED.code(), 3);
}

#[test]
fn state_changes_only_from_the_expected_one() {
    let mut inner = WakerInner::new_blocking(4, ());
    assert!(inner.is_waked());
    assert_eq!(inner.try_change_state(WakerState::WAITING, WakerState::DONE), Err(1));
    assert_eq!(inner.get_state_relaxed(), 1);
    assert_eq!(inner.try_change_state(WakerState::WAKED, WakerState::WAITING), Ok(()));
    assert!(!inner.is_waked());
    inner.set_state(WakerState::DONE);
    assert_eq!(inner.get_state_relaxed(), 2);
}

#[test]
fn abandoning_tells_where_the_owner_stands() {
    let mut inner = waiting(WakerType::Blocking(1));
    assert_eq!(inner.abandon(), 3);
    assert_eq!(inner.state, 3);
    assert_eq!(inner.abandon(), 3);
    inner.state = WakerState::DONE.code();
    assert_eq!(inner.abandon(), 2);
    inner.state = WakerState::WAKED.code();
    assert_eq!(inner.abandon(), 1);
    assert_eq!(inner.state, 1);
}

#[test]
fn only_one_who_waits_is_woken() {
    let mut wakes: Vec<WakerType> = Vec::new();
    let mut inner = waiting(WakerType::Blocking(7));
    assert!(inner.wake_simple(&mut wakes));
    assert!(!inner.wake_simple(&mut wakes));
    assert_eq!(wakes, vec![WakerType::Blocking(7)]);
    assert_eq!(inner.state, 1);
    let mut task = waiting(WakerType::Async(8));
    assert!(task.wake_simple(&mut wakes));
    assert_eq!(wakes, vec![WakerType::Blocking(7), WakerType::Async(8)]);
    assert!(!task.is_locked());
}

#[test]
fn closing_reaches_one_who_waits() {
    let mut wakes: Vec<WakerType> = Vec::new();
    let mut inner = waiting(WakerType::Async(2));
    inner.close(&mut wakes);
    assert_eq!(inner.state, 3);
    inner.state = WakerState::WAKED.code();
    inner.close(&mut wakes);
    assert_eq!(inner.state, 1);
    assert_eq!(wakes, vec![WakerType::Async(2)]);
}

#[test]
fn lock_is_taken_once() {
    let mut inner = waiting(WakerType::Async(2));
    let guard = inner.try_lock().unwrap();
    assert!(guard.0.is_locked());
    assert!(guard.0.try_lock_weak().is_none());
    guard.release();
    assert!(!inner.is_locked());
    inner.try_lock_weak().unwrap().release();
    assert!(inner.try_lock().is_some());
    assert!(inner.is_locked());
}

#[test]
fn task_with_a_locked_waker_is_woken_after_the_lock() {
    let mut wakes: Vec<WakerType> = Vec::new();
    let mut inner = waiting(WakerType::Async(8));
    inner.locked = true;
    assert!(!inner.is_wakeable());
    assert!(inner.wake_simple(&mut wakes));
    assert_eq!(inner.state, 1);
    assert!(!inner.wake_simple(&mut wakes));
    assert!(!inner._wake(false, &mut wakes));
    assert!(wakes.is_empty());
    inner.locked = false;
    assert!(inner.is_wakeable());
    assert!(inner._wake(false, &mut wakes));
    assert_eq!(wakes, vec![WakerType::Async(8)]);
    assert_eq!(inner.state, 1);
}

#[test]
fn closing_with_a_locked_waker_is_told_after_the_lock() {
    let mut wakes: Vec<WakerType> = Vec::new();
    let mut inner = waiting(WakerType::Async(8));
    inner.locked = true;
    inner.close(&mut wakes);
    assert_eq!(inner.state, 3);
    assert!(inner.is_locked());
    assert!(wakes.is_empty());
    // One who holds the lock need not wait for it.
    assert!(inner._wake(true, &mut wakes));
    assert_eq!(wakes, vec![WakerType::Async(8)]);
}

#[test]
fn thread_is_unparked_though_its_waker_is_locked() {
    let mut wakes: Vec<WakerType> = Vec::new();
    let mut inner = waiting(WakerType::Blocking(4));
    inner.locked = true;
    assert!(inner.is_wakeable());
    assert!(inner.wake_simple(&mut wakes));
    assert_eq!(inner.state, 1);
    assert!(inner._wake(false, &mut wakes));
    assert_eq!(wakes, vec![WakerType::Blocking(4), WakerType::Blocking(4)]);
    assert!(inner.is_locked());
}

#[test]
fn task_is_not_renewed_without_the_lock() {
    let mut inner = WakerInner::new_async(3, ());
    inner.locked = true;
    assert!(!inner.check_waker(9, false));
    assert_eq!(inner.waker, WakerType::Async(3));
    assert!(inner.check_waker(9, true));
    assert_eq!(inner.waker, WakerType::Async(9));
    inner.locked = false;
    assert!(inner.check_waker(10, false));
    assert_eq!(inner.waker, WakerType::Async(10));
    assert!(!inner.is_locked());
}

#[test]
fn task_of_a_waker_is_renewed() {
    let mut wakes: Vec<WakerType> = Vec::new();
    let mut inner = WakerInner::new_async(3, ());
    inner.check_waker(3, true);
    assert_eq!(inner.waker, WakerType::Async(3));
    inner.check_waker(9, false);
    inner._wake(false, &mut wakes);
    inner.check_waker(10, true);
    inner._wake(true, &mut wakes);
    assert_eq!(wakes, vec![WakerType::Async(9), WakerType::Async(10)]);
    inner.update_thread_handle(5);
    inner._wake(false, &mut wakes);
    assert_eq!(wakes[2], WakerType::Blocking(5));
}

#[test]
fn table_never_gives_a_number_twice() {
    let mut table: WakerTable<()> = WakerTable::new();
    assert!(table.has_room());
    let a: u64 = table.add(WakerInner::new_blocking(1, ()));
    let taken = table.take(a);
    assert!(!table.contains(a));
    let b: u64 = table.add(WakerInner::new_blocking(2, ()));
    assert_eq!((a, b), (0, 1));
    table.put(a, taken);
    assert_eq!(table.get(a).waker, WakerType::Blocking(1));
    assert_eq!(table.get(b).waker, WakerType::Blocking(2));
}

#[test]
fn weak_numbers_reach_only_what_exists() {
    let mut wakes: Vec<WakerType> = Vec::new();
    let mut table: WakerTable<()> = WakerTable::new();
    let id: u64 = table.add(waiting(WakerType::Blocking(6)));
    assert!(!wake_weak(&mut table, 77, &mut wakes));
    assert!(wake_weak(&mut table, id, &mut wakes));
    assert!(!wake_weak(&mut table, id, &mut wakes));
    assert_eq!(wakes, vec![WakerType::Blocking(6)]);
    let other: u64 = table.add(waiting(WakerType::Async(6)));
    close_weak(&mut table, other, &mut wakes);
    close_weak(&mut table, 99, &mut wakes);
    assert_eq!(table.get(other).state, 3);
    assert_eq!(wakes.len(), 2);
}

#[test]
fn cache_hands_a_used_waker_out_again() {
    let mut table: WakerTable<Option<u32>> = WakerTable::new();
    let mut cache: WakerCache<SendWaker<u32>> = WakerCache::new();
    assert!(cache.is_empty());
    let waker = cache.new_blocking(&mut table, 1, Some(10));
    assert_eq!(waker.weak(), 0);
    cache.push(&mut table, waker, false);
    assert!(!cache.is_empty());
    let again = cache.new_blocking(&mut table, 2, Some(20));
    assert_eq!(again.weak(), 0);
    assert!(cache.is_empty());
    assert_eq!(table.get(0).waker, WakerType::Blocking(2));
    assert_eq!(table.get(0).payload, Some(20));
    assert_eq!(again.get_state(&table), 1);
    let second = cache.new_blocking(&mut table, 3, None);
    assert_eq!(second.weak(), 1);
    cache.push(&mut table, again, false);
    cache.clear(&mut table);
    assert!(cache.is_empty());
    assert!(!table.contains(0));
}

#[test]
fn cache_drops_what_it_cannot_keep() {
    let mut table: WakerTable<()> = WakerTable::new();
    let mut cache: WakerCache<RecvWaker> = WakerCache::new();
    // One that is referred to, one that waits, one for which there is no room.
    let waker = cache.new_blocking(&mut table, 1, ());
    cache.push(&mut table, waker, true);
    assert!(cache.is_empty() && !table.contains(0));
    let id: u64 = table.add(waiting(WakerType::Blocking(1)));
    cache.push(&mut table, RecvWaker::from_id(id), false);
    assert!(cache.is_empty() && !table.contains(id));
    let a = cache.new_blocking(&mut table, 1, ());
    let b = cache.new_blocking(&mut table, 1, ());
    cache.push(&mut table, a, false);
    cache.push(&mut table, b, false);
    assert!(table.contains(2) && !table.contains(3));
}

#[test]
fn clearing_one_entry() {
    let mut wakes: Vec<WakerType> = Vec::new();
    let mut table: WakerTable<()> = WakerTable::new();
    let id: u64 = table.add(waiting(WakerType::Blocking(4)));
    let waker = RecvWaker::from_id(id);
    waker.set_seq(&mut table, 5);
    assert_eq!(waker.get_seq(&table), 5);
    assert!(RecvWaker::try_to_clear(&mut table, id, 5, &mut wakes));
    assert!(wakes.is_empty());
    assert!(!RecvWaker::try_to_clear(&mut table, id, 6, &mut wakes));
    assert_eq!(wakes.len(), 1);
    assert!(RecvWaker::try_to_clear(&mut table, id, 4, &mut wakes));
    assert!(!RecvWaker::try_to_clear(&mut table, 42, 4, &mut wakes));
    assert_eq!(wakes.len(), 1);
    waker.update_blocking_payload(&mut table, 12, ());
    assert_eq!(table.get(id).waker, WakerType::Blocking(12));
}

/// Registers as many threads as there are names.
fn queue_up(
    registry: &mut Registry,
    table: &mut WakerTable<()>,
    threads: &[u64],
) -> Vec<RecvWaker> {
    let mut wakers: Vec<RecvWaker> = Vec::new();
    for thread in threads {
        let waker = RecvWaker::new_blocking(table, *thread, ());
        assert_eq!(registry.reg_blocking(&waker, table), Ok(()));
        wakers.push(waker);
    }
    wakers
}

#[test]
fn multi_registry_serves_in_order() {
    let mut wakes: Vec<WakerType> = Vec::new();
    let mut table: WakerTable<()> = WakerTable::new();
    let mut registry = RegistryMulti::new();
    let wakers = queue_up(&mut registry, &mut table, &[10, 11, 12]);
    assert_eq!(registry.len(), 3);
    assert_eq!(wakers[2].get_seq(&table), 2);
    registry.fire::<RecvWaker>(&mut table, &mut wakes);
    assert_eq!(wakes, vec![WakerType::Blocking(10)]);
    assert_eq!(registry.len(), 2);
    // The next one waits no longer: it is passed over.
    table.take(wakers[1].weak());
    registry.fire::<RecvWaker>(&mut table, &mut wakes);
    assert_eq!(wakes, vec![WakerType::Blocking(10), WakerType::Blocking(12)]);
    assert!(registry.is_empty());
}

#[test]
fn firing_stops_at_the_latest_waker() {
    let mut wakes: Vec<WakerType> = Vec::new();
    let mut table: WakerTable<()> = WakerTable::new();
    let mut registry = RegistryMulti::new();
    let waker = RecvWaker::new_async(&mut table, 1, ());
    // Queued though it does not wait, as one that was woken for another reason.
    registry.reg_waker(&waker, &mut table);
    registry.reg_waker(&waker, &mut table);
    assert_eq!(registry.len(), 2);
    registry.fire::<RecvWaker>(&mut table, &mut wakes);
    assert!(wakes.is_empty());
    assert_eq!(registry.len(), 1);
}

#[test]
fn registering_again_changes_nothing() {
    let mut table: WakerTable<()> = WakerTable::new();
    let mut registry = RegistryMulti::new();
    let wakers = queue_up(&mut registry, &mut table, &[1]);
    assert_eq!(registry.reg_async(&wakers[0], &mut table), Ok(()));
    assert_eq!(registry.len(), 1);
    assert!(registry.refers_to(&wakers[0]));
    let mut done = table.take(0);
    done.set_state(WakerState::DONE);
    table.put(0, done);
    assert_eq!(registry.reg_blocking(&wakers[0], &mut table), Err(2));
    let mut closed = table.take(0);
    closed.set_state(WakerState::CLOSED);
    table.put(0, closed);
    assert_eq!(registry.reg_async(&wakers[0], &mut table), Err(3));
}

#[test]
fn clearing_wakes_those_ahead() {
    let mut wakes: Vec<WakerType> = Vec::new();
    let mut table: WakerTable<()> = WakerTable::new();
    let mut registry = RegistryMulti::new();
    let wakers = queue_up(&mut registry, &mut table, &[1, 2, 3, 4]);
    registry.clear_wakers::<RecvWaker>(2, &mut table, &mut wakes);
    assert_eq!(wakes, vec![WakerType::Blocking(1), WakerType::Blocking(2)]);
    assert_eq!(registry.len(), 1);
    assert_eq!(wakers[2].get_state(&table), 0);
    registry.clear_wakers::<RecvWaker>(9, &mut table, &mut wakes);
    assert_eq!(wakes.len(), 3);
    assert_eq!(registry.len(), 0);
}

#[test]
fn cancelling_tries_one_entry() {
    let mut wakes: Vec<WakerType> = Vec::new();
    let mut table: WakerTable<()> = WakerTable::new();
    let mut registry = RegistryMulti::new();
    let wakers = queue_up(&mut registry, &mut table, &[1, 2, 3]);
    registry.cancel_waker(&wakers[1], &mut table, &mut wakes);
    assert_eq!(wakers[1].get_state(&table), 3);
    assert_eq!(wakes, vec![WakerType::Blocking(1)]);
    assert_eq!(registry.len(), 2);
    registry.cancel_waker(&wakers[1], &mut table, &mut wakes);
    assert_eq!(registry.len(), 2);
    assert_eq!(wakes.len(), 1);
}

#[test]
fn closing_a_registry_wakes_all() {
    let mut wakes: Vec<WakerType> = Vec::new();
    let mut table: WakerTable<()> = WakerTable::new();
    let mut registry = RegistryMulti::new();
    let wakers = queue_up(&mut registry, &mut table, &[1, 2]);
    registry.close::<RecvWaker>(&mut table, &mut wakes);
    assert_eq!(wakes, vec![WakerType::Blocking(1), WakerType::Blocking(2)]);
    assert_eq!(wakers[1].get_state(&table), 1);
    assert_eq!(registry.len(), 0);
}

#[test]
fn single_registry_keeps_the_last() {
    let mut wakes: Vec<WakerType> = Vec::new();
    let mut table: WakerTable<()> = WakerTable::new();
    let mut registry = RegistrySingle::new();
    assert_eq!(registry.len(), 0);
    assert!(registry.is_empty());
    let wakers = queue_up(&mut registry, &mut table, &[1, 2]);
    assert_eq!(registry.len(), 1);
    assert!(!registry.is_empty());
    assert!(!registry.refers_to(&wakers[0]));
    assert!(registry.refers_to(&wakers[1]));
    registry.withdraw(&wakers[0]);
    assert!(registry.refers_to(&wakers[1]));
    registry.fire::<RecvWaker>(&mut table, &mut wakes);
    assert_eq!(wakes, vec![WakerType::Blocking(2)]);
    assert!(registry.pop::<RecvWaker>(&table).is_none());
    let wakers = queue_up(&mut registry, &mut table, &[3]);
    registry.withdraw(&wakers[0]);
    assert!(registry.pop::<RecvWaker>(&table).is_none());
    let wakers = queue_up(&mut registry, &mut table, &[4]);
    registry.cancel_waker(&wakers[0], &mut table, &mut wakes);
    assert_eq!(wakers[0].get_state(&table), 3);
    assert!(!registry.refers_to(&wakers[0]));
    let wakers = queue_up(&mut registry, &mut table, &[5]);
    registry.clear_wakers::<RecvWaker>(0, &mut table, &mut wakes);
    assert!(!registry.refers_to(&wakers[0]));
    assert_eq!(wakers[0].get_state(&table), 0);
    queue_up(&mut registry, &mut table, &[6]);
    registry.close::<RecvWaker>(&mut table, &mut wakes);
    assert_eq!(wakes, vec![WakerType::Blocking(2), WakerType::Blocking(6)]);
}

#[test]
fn popping_skips_what_is_gone() {
    let mut table: WakerTable<()> = WakerTable::new();
    let mut registry = RegistryMulti::new();
    let wakers = queue_up(&mut registry, &mut table, &[1, 2, 3]);
    table.take(wakers[0].weak());
    assert_eq!(registry.pop::<RecvWaker>(&table).unwrap().weak(), 1);
    assert_eq!(registry.len(), 1);
}

#[test]
fn dummy_registry_holds_nothing() {
    let mut wakes: Vec<WakerType> = Vec::new();
    let mut table: WakerTable<()> = WakerTable::new();
    let mut registry = RegistryDummy::new();
    registry.fire::<RecvWaker>(&mut table, &mut wakes);
    registry.close::<RecvWaker>(&mut table, &mut wakes);
    registry.clear_wakers::<RecvWaker>(0, &mut table, &mut wakes);
    assert!(registry.pop::<RecvWaker>(&table).is_none());
    assert_eq!(registry.len(), 0);
    assert!(wakes.is_empty());
}
