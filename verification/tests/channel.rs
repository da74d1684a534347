use crossfire::backoff::{Backoff, BackoffConfig, Pause};
use crossfire::channel::{Channel, ChannelShared, TryStep};
use crossfire::locked_waker::WakerType;
use crossfire::waker_registry::{RegistryDummy, RegistryMulti, RegistrySingle};

use tokio::runtime::Builder;

fn bounded(bound: usize) -> ChannelShared<u32> {
    ChannelShared::new(Channel::new_array(bound), RegistryMulti::new(), RegistryMulti::new())
}

fn unbounded() -> ChannelShared<u32> {
    ChannelShared::new(Channel::new_list(), RegistryDummy::new(), RegistrySingle::new())
}

fn settled(step: TryStep) -> Option<u8> {
    match step {
        TryStep::Settled(state) => Some(state),
        TryStep::Paused(_, _) => None,
    }
}

#[test]
fn list_channel_keeps_the_order() {
    let mut channel: Channel<char> = Channel::new_list();
    assert_eq!(channel.get_bound(), None);
    assert!(channel.is_empty());
    for c in ['x', 'y', 'z'] {
        assert_eq!(channel.push(c), Ok(()));
    }
    assert_eq!(channel.len(), 3);
    assert!(!channel.is_full());
    assert_eq!(channel.pop(), Some('x'));
    assert_eq!(channel.push('w'), Ok(()));
    assert_eq!(channel.pop(), Some('y'));
    assert_eq!(channel.pop(), Some('z'));
    assert_eq!(channel.pop(), Some('w'));
    assert_eq!(channel.pop(), None);
}

#[test]
fn array_channel_gives_back_what_does_not_fit() {
    let mut channel: Channel<String> = Channel::new_array(2);
    assert_eq!(channel.get_bound(), Some(2));
    assert_eq!(channel.push(String::from("a")), Ok(()));
    assert!(!channel.is_full());
    assert_eq!(channel.push(String::from("b")), Ok(()));
    assert!(channel.is_full());
    assert_eq!(channel.push(String::from("c")), Err(String::from("c")));
    assert_eq!(channel.len(), 2);
    assert_eq!(channel.pop(), Some(String::from("a")));
    assert_eq!(channel.push(String::from("d")), Ok(()));
    assert_eq!(channel.pop(), Some(String::from("b")));
    assert_eq!(channel.pop(), Some(String::from("d")));
    assert!(channel.is_empty());
    assert_eq!(channel.pop(), None);
}

#[test]
fn slots_are_used_again() {
    let mut channel: Channel<u32> = Channel::new_array(3);
    let mut next: u32 = 0;
    let mut expected: u32 = 0;
    for _ in 0..50 {
        while channel.push(next).is_ok() {
            next += 1;
        }
        assert_eq!(channel.pop(), Some(expected));
        assert_eq!(channel.pop(), Some(expected + 1));
        expected += 2;
    }
    assert_eq!(channel.len(), 1);
}

#[test]
fn new_channel_has_one_on_each_side() {
    let shared = bounded(2);
    assert_eq!(shared.get_tx_count(), 1);
    assert_eq!(shared.get_rx_count(), 1);
    assert_eq!(shared.get_wakers_count(), (0, 0));
    assert_eq!(shared.get_bound_size(), Some(2));
    assert_eq!(shared.get_backoff_tx(), BackoffConfig::default());
    assert_eq!(shared.get_backoff_rx(), BackoffConfig::default());
    assert!(!shared.is_congested());
    assert!(!shared.is_disconnected());
    assert!(shared.is_empty());
    assert!(!shared.is_full());
}

#[test]
fn message_wakes_the_foremost_receiver() {
    let mut wakes: Vec<WakerType> = Vec::new();
    let mut shared = bounded(2);
    let first = shared.new_recv_blocking(1);
    let second = shared.new_recv_async(2);
    assert_eq!(shared.reg_recv_blocking(&first), Ok(()));
    assert_eq!(shared.reg_recv_async(&second), Ok(()));
    assert_eq!(shared.get_wakers_count(), (0, 2));
    assert_eq!(shared.try_send(5), Ok(()));
    shared.on_send(&mut wakes);
    assert_eq!(wakes, vec![WakerType::Blocking(1)]);
    assert_eq!(shared.recv_waker_state(&first), 1);
    assert_eq!(shared.recv_waker_state(&second), 0);
    assert_eq!(shared.try_recv(), Some(5));
    shared.drop_recv_waker(first);
    shared.on_send(&mut wakes);
    assert_eq!(wakes, vec![WakerType::Blocking(1), WakerType::Async(2)]);
    shared.on_send(&mut wakes);
    assert_eq!(wakes.len(), 2);
}

#[test]
fn room_serves_the_foremost_sender() {
    let mut wakes: Vec<WakerType> = Vec::new();
    let mut shared = bounded(1);
    assert_eq!(shared.try_send(1), Ok(()));
    assert_eq!(shared.try_send(2), Err(2));
    let first = shared.new_send_async(10, 2);
    let second = shared.new_send_async(11, 3);
    assert_eq!(shared.reg_send_async(&first), Ok(()));
    assert_eq!(shared.reg_send_async(&second), Ok(()));
    assert_eq!(shared.try_recv(), Some(1));
    shared.on_recv(&mut wakes);
    assert_eq!(wakes, vec![WakerType::Async(10)]);
    assert_eq!(shared.send_waker_state(&first), 2);
    assert_eq!(shared.drop_send_waker(first), None);
    // No room: the other is to try again.
    shared.on_recv(&mut wakes);
    assert_eq!(shared.send_waker_state(&second), 1);
    assert_eq!(shared.try_recv(), Some(2));
    assert_eq!(shared.try_recv(), None);
    assert_eq!(shared.reg_send_async(&second), Ok(()));
    shared.on_recv(&mut wakes);
    assert_eq!(shared.try_recv(), Some(3));
    assert_eq!(
        wakes,
        vec![WakerType::Async(10), WakerType::Async(11), WakerType::Async(11)]
    );
}

#[test]
fn served_message_is_announced() {
    let mut wakes: Vec<WakerType> = Vec::new();
    let mut shared = bounded(1);
    assert_eq!(shared.try_send(1), Ok(()));
    let sender = shared.new_send_async(10, 2);
    let receiver = shared.new_recv_async(20);
    assert_eq!(shared.reg_send_async(&sender), Ok(()));
    assert_eq!(shared.reg_recv_async(&receiver), Ok(()));
    assert_eq!(shared.try_recv(), Some(1));
    shared.on_recv(&mut wakes);
    assert_eq!(wakes, vec![WakerType::Async(10), WakerType::Async(20)]);
}

#[test]
fn sender_with_a_locked_waker_is_not_served() {
    let mut wakes: Vec<WakerType> = Vec::new();
    let mut shared = bounded(1);
    let waker = shared.new_send_async(10, 2);
    assert_eq!(shared.reg_send_async(&waker), Ok(()));
    assert!(shared.try_lock_send_waker(&waker));
    assert!(!shared.try_lock_send_waker(&waker));
    let mut backoff = Backoff::new(BackoffConfig { spin_limit: 1, limit: 6 });
    assert_eq!(
        shared.on_recv_try_send(&waker, &mut backoff, &mut wakes),
        Err(Pause::Spun(1))
    );
    assert_eq!(
        shared.on_recv_try_send(&waker, &mut backoff, &mut wakes),
        Err(Pause::Yield)
    );
    assert_eq!(backoff.step(), 2);
    shared.unlock_send_waker(&waker);
    assert_eq!(shared.on_recv_try_send(&waker, &mut backoff, &mut wakes), Ok(true));
    assert_eq!(shared.on_recv_try_send(&waker, &mut backoff, &mut wakes), Ok(false));
    assert_eq!(wakes, vec![WakerType::Async(10)]);
    assert_eq!(shared.try_recv(), Some(2));
}

#[test]
fn foremost_sender_is_served_while_another_waker_is_locked() {
    let mut wakes: Vec<WakerType> = Vec::new();
    let mut shared = bounded(1);
    assert_eq!(shared.try_send(1), Ok(()));
    let first = shared.new_send_async(10, 2);
    let second = shared.new_send_async(11, 3);
    assert_eq!(shared.reg_send_async(&first), Ok(()));
    assert_eq!(shared.reg_send_async(&second), Ok(()));
    assert!(shared.try_lock_send_waker(&second));
    assert_eq!(shared.try_recv(), Some(1));
    shared.on_recv(&mut wakes);
    assert_eq!(wakes, vec![WakerType::Async(10)]);
    assert_eq!(shared.send_waker_state(&first), 2);
    assert_eq!(shared.send_waker_state(&second), 0);
    assert_eq!(shared.try_recv(), Some(2));
    shared.unlock_send_waker(&second);
    shared.on_recv(&mut wakes);
    assert_eq!(shared.try_recv(), Some(3));
}

#[test]
fn one_who_gives_up_leaves_nobody_behind() {
    let mut wakes: Vec<WakerType> = Vec::new();
    let mut shared = bounded(1);
    assert_eq!(shared.try_send(1), Ok(()));
    let first = shared.new_send_async(10, 2);
    let second = shared.new_send_async(11, 3);
    let third = shared.new_send_async(12, 4);
    assert_eq!(shared.reg_send_async(&first), Ok(()));
    assert_eq!(shared.reg_send_async(&second), Ok(()));
    assert_eq!(shared.reg_send_async(&third), Ok(()));
    // Those ahead are woken and register again, those behind stay.
    assert_eq!(shared.abandon_send_waker(second, &mut wakes), Some(3));
    assert_eq!(wakes, vec![WakerType::Async(10)]);
    assert_eq!(shared.send_waker_state(&first), 1);
    assert_eq!(shared.send_waker_state(&third), 0);
    assert_eq!(shared.reg_send_async(&first), Ok(()));
    assert_eq!(shared.get_wakers_count(), (2, 0));
    let mut received: Vec<Option<u32>> = Vec::new();
    for _ in 0..3 {
        received.push(shared.try_recv());
        shared.on_recv(&mut wakes);
    }
    assert_eq!(received, vec![Some(1), Some(4), Some(2)]);
    assert_eq!(wakes, vec![WakerType::Async(10), WakerType::Async(12), WakerType::Async(10)]);
}

#[test]
fn task_waits_for_the_lock_of_its_waker() {
    let mut wakes: Vec<WakerType> = Vec::new();
    let mut shared = bounded(1);
    let waker = shared.new_send_async(10, 2);
    assert_eq!(shared.reg_send_async(&waker), Ok(()));
    assert!(shared.try_lock_send_waker(&waker));
    let conf = BackoffConfig { spin_limit: 1, limit: 1 };
    let step = shared.sender_try_again(&waker, Some(10), true, conf, &mut wakes);
    let attempt = match step {
        TryStep::Paused(pause, attempt) => {
            assert_eq!(pause, Pause::Spun(1));
            attempt
        },
        TryStep::Settled(_) => panic!("the waker is locked"),
    };
    shared.unlock_send_waker(&waker);
    assert_eq!(settled(shared.sender_try_on(&waker, attempt, &mut wakes)), Some(2));
    assert_eq!(shared.try_recv(), Some(2));
}

#[test]
fn thread_watches_while_its_waker_is_locked() {
    let mut wakes: Vec<WakerType> = Vec::new();
    let mut shared = bounded(1);
    let waker = shared.new_send_async(10, 2);
    assert_eq!(shared.reg_send_blocking(&waker), Ok(()));
    assert!(shared.try_lock_send_waker(&waker));
    let conf = BackoffConfig { spin_limit: 0, limit: 0 };
    // Its wait is at the limit, but somebody is about to wake it.
    let step = shared.sender_try_again(&waker, None, true, conf, &mut wakes);
    let attempt = match step {
        TryStep::Paused(pause, attempt) => {
            assert_eq!(pause, Pause::Yield);
            attempt
        },
        TryStep::Settled(_) => panic!("the waker is locked"),
    };
    shared.unlock_send_waker(&waker);
    assert_eq!(settled(shared.sender_try_on(&waker, attempt, &mut wakes)), Some(0));
}

#[test]
fn task_without_room_has_its_waker_renewed() {
    let mut wakes: Vec<WakerType> = Vec::new();
    let mut shared = bounded(1);
    assert_eq!(shared.try_send(1), Ok(()));
    let waker = shared.new_send_async(10, 2);
    assert_eq!(shared.reg_send_async(&waker), Ok(()));
    let conf = BackoffConfig::default();
    assert_eq!(
        settled(shared.sender_try_again(&waker, Some(77), true, conf, &mut wakes)),
        Some(0)
    );
    assert!(wakes.is_empty());
    assert_eq!(shared.try_recv(), Some(1));
    shared.on_recv(&mut wakes);
    assert_eq!(wakes, vec![WakerType::Async(77)]);
    assert_eq!(
        settled(shared.sender_try_again(&waker, Some(77), true, conf, &mut wakes)),
        Some(2)
    );
    assert_eq!(shared.len(), 1);
}

#[test]
fn registered_sender_puts_its_message_in_itself() {
    let mut wakes: Vec<WakerType> = Vec::new();
    let mut shared: ChannelShared<u32> =
        ChannelShared::new(Channel::new_array(1), RegistrySingle::new(), RegistrySingle::new());
    let receiver = shared.new_recv_blocking(5);
    assert_eq!(shared.reg_recv_blocking(&receiver), Ok(()));
    assert_eq!(shared.get_wakers_count(), (0, 1));
    assert!(shared.no_sender_waits());
    let waker = shared.new_send_async(10, 2);
    assert_eq!(shared.reg_send_async(&waker), Ok(()));
    assert_eq!(shared.get_wakers_count(), (1, 1));
    assert!(!shared.no_sender_waits());
    let conf = BackoffConfig::default();
    assert_eq!(
        settled(shared.sender_try_again(&waker, Some(10), true, conf, &mut wakes)),
        Some(2)
    );
    assert_eq!(wakes, vec![WakerType::Blocking(5)]);
    assert_eq!(shared.get_wakers_count(), (0, 0));
    assert_eq!(shared.try_recv(), Some(2));
    // Its entry is withdrawn: nobody is served.
    shared.on_recv(&mut wakes);
    assert_eq!(wakes.len(), 1);
}

#[test]
fn last_sender_closes_the_channel() {
    let mut wakes: Vec<WakerType> = Vec::new();
    let mut shared = bounded(1);
    shared.add_tx(8);
    assert_eq!(shared.get_tx_count(), 2);
    let receiver = shared.new_recv_blocking(3);
    assert_eq!(shared.reg_recv_blocking(&receiver), Ok(()));
    shared.close_tx(&mut wakes);
    assert!(!shared.is_disconnected());
    assert!(wakes.is_empty());
    shared.close_tx(&mut wakes);
    assert!(shared.is_disconnected());
    assert_eq!(wakes, vec![WakerType::Blocking(3)]);
    assert_eq!(shared.recv_waker_state(&receiver), 3);
    assert_eq!(shared.reg_recv_blocking(&receiver), Err(3));
}

#[test]
fn last_receiver_frees_all_who_wait() {
    let mut wakes: Vec<WakerType> = Vec::new();
    let mut shared = bounded(1);
    assert_eq!(shared.try_send(1), Ok(()));
    let receiver = shared.new_recv_async(20);
    let a = shared.new_send_async(10, 2);
    let b = shared.new_send_async(11, 3);
    assert_eq!(shared.reg_recv_async(&receiver), Ok(()));
    assert_eq!(shared.reg_send_async(&a), Ok(()));
    assert_eq!(shared.reg_send_async(&b), Ok(()));
    shared.close_rx(&mut wakes);
    assert!(shared.is_disconnected());
    assert_eq!(
        wakes,
        vec![WakerType::Async(20), WakerType::Async(10), WakerType::Async(11)]
    );
    assert_eq!(shared.get_wakers_count(), (0, 0));
    assert_eq!(shared.send_waker_state(&a), 3);
    assert_eq!(shared.drop_send_waker(b), Some(3));
    // The channel stays closed, and its message stays in it.
    shared.close_tx(&mut wakes);
    assert!(shared.is_disconnected());
    assert_eq!(shared.len(), 1);
}

#[test]
fn sender_that_finds_the_channel_closed_gives_up() {
    let mut wakes: Vec<WakerType> = Vec::new();
    let mut shared = bounded(1);
    let waker = shared.new_send_async(10, 2);
    shared.close_rx(&mut wakes);
    assert_eq!(shared.reg_send_async(&waker), Ok(()));
    let conf = BackoffConfig::default();
    assert_eq!(
        settled(shared.sender_try_again(&waker, Some(10), true, conf, &mut wakes)),
        Some(3)
    );
    assert_eq!(
        settled(shared.sender_try_again(&waker, None, false, conf, &mut wakes)),
        Some(3)
    );
    assert_eq!(shared.drop_send_waker(waker), Some(2));
}

#[test]
fn sender_that_gives_up_gets_its_message_back() {
    let mut wakes: Vec<WakerType> = Vec::new();
    let mut shared = bounded(1);
    assert_eq!(shared.try_send(1), Ok(()));
    let a = shared.new_send_async(10, 2);
    let b = shared.new_send_async(11, 3);
    assert_eq!(shared.reg_send_async(&a), Ok(()));
    assert_eq!(shared.reg_send_async(&b), Ok(()));
    assert_eq!(shared.abandon_send_waker(a, &mut wakes), Some(2));
    assert!(wakes.is_empty());
    assert_eq!(shared.get_wakers_count(), (1, 0));
    assert_eq!(shared.try_recv(), Some(1));
    shared.on_recv(&mut wakes);
    assert_eq!(shared.abandon_send_waker(b, &mut wakes), None);
    assert_eq!(shared.try_recv(), Some(3));
}

#[test]
fn sender_that_was_woken_and_gives_up_wakes_another() {
    let mut wakes: Vec<WakerType> = Vec::new();
    let mut shared = bounded(1);
    assert_eq!(shared.try_send(1), Ok(()));
    let a = shared.new_send_async(10, 2);
    let b = shared.new_send_async(11, 3);
    assert_eq!(shared.reg_send_async(&a), Ok(()));
    assert_eq!(shared.reg_send_async(&b), Ok(()));
    shared.on_recv(&mut wakes);
    assert_eq!(shared.send_waker_state(&a), 1);
    assert_eq!(shared.try_recv(), Some(1));
    assert_eq!(shared.abandon_send_waker(a, &mut wakes), Some(2));
    assert_eq!(wakes, vec![WakerType::Async(10), WakerType::Async(11)]);
    assert_eq!(shared.send_waker_state(&b), 2);
    assert_eq!(shared.try_recv(), Some(3));
}

#[test]
fn receiver_gives_up() {
    let mut wakes: Vec<WakerType> = Vec::new();
    let mut shared = bounded(1);
    let a = shared.new_recv_async(1);
    let b = shared.new_recv_async(2);
    let c = shared.new_recv_async(3);
    assert_eq!(shared.reg_recv_async(&a), Ok(()));
    assert_eq!(shared.reg_recv_async(&b), Ok(()));
    assert_eq!(shared.reg_recv_async(&c), Ok(()));
    shared.on_send(&mut wakes);
    assert_eq!(wakes, vec![WakerType::Async(1)]);
    // It was woken: the next one is woken in its place.
    assert!(shared.abandon_recv_waker(a, &mut wakes));
    assert_eq!(wakes, vec![WakerType::Async(1), WakerType::Async(2)]);
    shared.recv_waker_done(&c);
    assert_eq!(shared.recv_waker_state(&c), 2);
    assert!(!shared.abandon_recv_waker(c, &mut wakes));
    assert!(shared.abandon_recv_waker(b, &mut wakes));
    assert_eq!(wakes.len(), 2);
}

#[test]
fn receivers_are_cleared_on_timeout() {
    let mut wakes: Vec<WakerType> = Vec::new();
    let mut shared = bounded(1);
    let a = shared.new_recv_async(1);
    let b = shared.new_recv_async(2);
    assert_eq!(shared.reg_recv_async(&a), Ok(()));
    assert_eq!(shared.reg_recv_async(&b), Ok(()));
    shared.clear_recv_wakers(1, &mut wakes);
    assert_eq!(wakes, vec![WakerType::Async(1)]);
    assert_eq!(shared.get_wakers_count(), (0, 0));
    assert_eq!(shared.recv_waker_state(&b), 0);
}

#[test]
fn congestion_is_noticed_on_bounded_channels() {
    let mut shared = bounded(4);
    shared.add_tx(8);
    assert!(shared.is_congested());
    assert_eq!(shared.get_backoff_tx(), BackoffConfig { spin_limit: 6, limit: 6 });
    shared.add_rx(8);
    assert!(!shared.is_congested());
    assert_eq!(shared.get_rx_count(), 2);
    assert_eq!(shared.get_backoff_rx(), BackoffConfig { spin_limit: 7, limit: 7 });
    let mut list = unbounded();
    list.add_tx(8);
    assert!(!list.is_congested());
}

#[test]
fn tasks_back_off_by_their_runtime() {
    let shared = bounded(1);
    let wide = bounded(3);
    // Outside of a runtime the bound decides.
    assert_eq!(shared.detect_async_backoff_tx(), 6);
    assert_eq!(wide.detect_async_backoff_rx(), 1);
    let one = Builder::new_current_thread().build().unwrap();
    let guard = one.enter();
    assert_eq!(shared.detect_async_backoff_tx(), 0);
    assert_eq!(shared.detect_async_backoff_rx(), 0);
    drop(guard);
    let two = Builder::new_multi_thread().worker_threads(2).build().unwrap();
    let guard = two.enter();
    assert_eq!(shared.detect_async_backoff_tx(), 6);
    assert_eq!(shared.detect_async_backoff_rx(), 5);
    assert_eq!(wide.detect_async_backoff_tx(), 1);
    assert_eq!(unbounded().detect_async_backoff_rx(), 1);
    drop(guard);
}
