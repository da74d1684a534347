use crossfire::backoff::{BackoffConfig, Pause};
use crossfire::blocking_tx::{sent, BlockingTxTrait, MTx, PendingSend, SendStep, Tx};
use crossfire::channel::{Channel, ChannelShared, TryStep};
use crossfire::err::{SendError, SendTimeoutError, TrySendError};
use crossfire::locked_waker::{SendWaker, WakerCache, WakerType};
use crossfire::timeout::check_timeout;
use crossfire::waker_registry::{RegistryDummy, RegistryMulti, RegistrySingle};

fn bounded(bound: usize) -> ChannelShared<u32> {
    ChannelShared::new(Channel::new_array(bound), RegistryMulti::new(), RegistryMulti::new())
}

/// What a thread does between steps: it pauses, and looks at the clock.
enum Rest {
    Parks(Option<u128>, PendingSend<u32>),
    Ends(Result<(), SendTimeoutError<u32>>),
}

fn run(
    tx: &mut Tx<u32>,
    shared: &mut ChannelShared<u32>,
    first: SendStep<u32>,
    now: u128,
    pauses: &mut Vec<Pause>,
    wakes: &mut Vec<WakerType>,
) -> Rest {
    let mut step = first;
    loop {
        step = match step {
            SendStep::Pause { pause, send, attempt, registered } => {
                pauses.push(pause);
                tx.after_pause(shared, send, attempt, registered, wakes)
            },
            SendStep::CheckTimeout { send } => {
                let left = check_timeout(send.deadline, now);
                tx.after_check(shared, send, left, wakes)
            },
            SendStep::Park { timeout, send } => return Rest::Parks(timeout, send),
            SendStep::Finished { result } => return Rest::Ends(result),
        };
    }
}

fn parked(rest: Rest) -> (Option<u128>, PendingSend<u32>) {
    match rest {
        Rest::Parks(timeout, send) => (timeout, send),
        Rest::Ends(_) => panic!("the thread did not park"),
    }
}

fn ended(rest: Rest) -> Result<(), SendTimeoutError<u32>> {
    match rest {
        Rest::Ends(result) => result,
        Rest::Parks(_, _) => panic!("the thread parked"),
    }
}

#[test]
fn message_is_sent_while_there_is_room() {
    let mut wakes: Vec<WakerType> = Vec::new();
    let mut pauses: Vec<Pause> = Vec::new();
    let mut shared = bounded(2);
    let mut tx: Tx<u32> = Tx::new();
    for i in 0..2 {
        let step = tx.send(&mut shared, i, 1, &mut wakes);
        assert_eq!(ended(run(&mut tx, &mut shared, step, 0, &mut pauses, &mut wakes)), Ok(()));
    }
    assert!(pauses.is_empty());
    assert_eq!(shared.try_recv(), Some(0));
    assert_eq!(shared.try_recv(), Some(1));
}

#[test]
fn thread_parks_on_a_full_channel_until_served() {
    let mut wakes: Vec<WakerType> = Vec::new();
    let mut pauses: Vec<Pause> = Vec::new();
    let mut shared = bounded(1);
    let mut tx: Tx<u32> = Tx::new();
    assert_eq!(shared.try_send(1), Ok(()));
    let step = tx.send(&mut shared, 2, 7, &mut wakes);
    let (timeout, send) = parked(run(&mut tx, &mut shared, step, 0, &mut pauses, &mut wakes));
    assert_eq!(timeout, None);
    assert_eq!(
        pauses,
        vec![
            Pause::Spun(1),
            Pause::Spun(2),
            Pause::Spun(4),
            Pause::Spun(8),
            Pause::Spun(16),
            Pause::Spun(32)
        ]
    );
    assert_eq!(shared.get_wakers_count(), (1, 0));
    assert_eq!(shared.try_recv(), Some(1));
    shared.on_recv(&mut wakes);
    assert_eq!(wakes, vec![WakerType::Blocking(7)]);
    let step = tx.after_park(&mut shared, send, &mut wakes);
    assert_eq!(ended(run(&mut tx, &mut shared, step, 0, &mut pauses, &mut wakes)), Ok(()));
    assert_eq!(shared.len(), 1);
    assert_eq!(shared.try_recv(), Some(2));
}

#[test]
fn kept_waker_serves_the_next_wait() {
    let mut wakes: Vec<WakerType> = Vec::new();
    let mut pauses: Vec<Pause> = Vec::new();
    let mut shared = bounded(1);
    let mut tx: Tx<u32> = Tx::new();
    assert_eq!(shared.try_send(0), Ok(()));
    for i in 1..4 {
        let step = tx.send(&mut shared, i, 7, &mut wakes);
        let (_, send) = parked(run(&mut tx, &mut shared, step, 0, &mut pauses, &mut wakes));
        assert_eq!(send.waker.id, 0);
        assert_eq!(shared.try_recv(), Some(i - 1));
        shared.on_recv(&mut wakes);
        let step = tx.after_park(&mut shared, send, &mut wakes);
        assert_eq!(ended(run(&mut tx, &mut shared, step, 0, &mut pauses, &mut wakes)), Ok(()));
    }
}

#[test]
fn message_comes_back_at_the_deadline() {
    let mut wakes: Vec<WakerType> = Vec::new();
    let mut pauses: Vec<Pause> = Vec::new();
    let mut shared = bounded(1);
    let mut tx: Tx<u32> = Tx::new();
    assert_eq!(shared.try_send(1), Ok(()));
    let step = tx.send_timeout(&mut shared, 9, Some(100), 3, &mut wakes);
    let (timeout, send) = parked(run(&mut tx, &mut shared, step, 40, &mut pauses, &mut wakes));
    assert_eq!(timeout, Some(60));
    // Woken by the clock: it tries again, and then finds its time is up.
    let step = tx.after_park(&mut shared, send, &mut wakes);
    let result = ended(run(&mut tx, &mut shared, step, 100, &mut pauses, &mut wakes));
    assert_eq!(result, Err(SendTimeoutError::Timeout(9)));
    assert_eq!(pauses.len(), 18);
    assert_eq!(shared.get_wakers_count(), (0, 0));
    assert_eq!(shared.try_recv(), Some(1));
    assert_eq!(shared.try_recv(), None);
    assert!(wakes.is_empty());
}

#[test]
fn message_that_was_taken_is_sent_despite_the_deadline() {
    let mut wakes: Vec<WakerType> = Vec::new();
    let mut pauses: Vec<Pause> = Vec::new();
    let mut shared = bounded(1);
    let mut tx: Tx<u32> = Tx::new();
    assert_eq!(shared.try_send(1), Ok(()));
    let step = tx.send_timeout(&mut shared, 9, Some(100), 3, &mut wakes);
    let (_, send) = parked(run(&mut tx, &mut shared, step, 40, &mut pauses, &mut wakes));
    assert_eq!(shared.try_recv(), Some(1));
    shared.on_recv(&mut wakes);
    let left = check_timeout(send.deadline, 200);
    let step = tx.after_check(&mut shared, send, left, &mut wakes);
    assert_eq!(ended(run(&mut tx, &mut shared, step, 200, &mut pauses, &mut wakes)), Ok(()));
    assert_eq!(shared.try_recv(), Some(9));
}

#[test]
fn deadline_out_of_reach_means_at_once() {
    let mut wakes: Vec<WakerType> = Vec::new();
    let mut pauses: Vec<Pause> = Vec::new();
    let mut shared = bounded(1);
    let mut tx: Tx<u32> = Tx::new();
    let step = tx.send_timeout(&mut shared, 1, None, 3, &mut wakes);
    assert_eq!(ended(run(&mut tx, &mut shared, step, 0, &mut pauses, &mut wakes)), Ok(()));
    let step = tx.send_timeout(&mut shared, 2, None, 3, &mut wakes);
    assert_eq!(
        ended(run(&mut tx, &mut shared, step, 0, &mut pauses, &mut wakes)),
        Err(SendTimeoutError::Timeout(2))
    );
    shared.close_rx(&mut wakes);
    let step = tx.send_timeout(&mut shared, 3, None, 3, &mut wakes);
    assert_eq!(
        ended(run(&mut tx, &mut shared, step, 0, &mut pauses, &mut wakes)),
        Err(SendTimeoutError::Disconnected(3))
    );
    assert!(pauses.is_empty());
}

#[test]
fn receivers_that_go_give_the_message_back() {
    let mut wakes: Vec<WakerType> = Vec::new();
    let mut pauses: Vec<Pause> = Vec::new();
    let mut shared = bounded(1);
    let mut tx: Tx<u32> = Tx::new();
    assert_eq!(shared.try_send(1), Ok(()));
    let step = tx.send(&mut shared, 2, 7, &mut wakes);
    let (_, send) = parked(run(&mut tx, &mut shared, step, 0, &mut pauses, &mut wakes));
    shared.close_rx(&mut wakes);
    assert_eq!(wakes, vec![WakerType::Blocking(7)]);
    let step = tx.after_park(&mut shared, send, &mut wakes);
    let result = ended(run(&mut tx, &mut shared, step, 0, &mut pauses, &mut wakes));
    assert_eq!(result, Err(SendTimeoutError::Disconnected(2)));
    assert_eq!(sent(result), Err(SendError(2)));
    assert_eq!(tx.try_send(&mut shared, 3, &mut wakes), Err(TrySendError::Disconnected(3)));
    let step = tx.send(&mut shared, 4, 7, &mut wakes);
    assert_eq!(
        ended(run(&mut tx, &mut shared, step, 0, &mut pauses, &mut wakes)),
        Err(SendTimeoutError::Disconnected(4))
    );
    assert_eq!(shared.len(), 1);
}

#[test]
fn trying_does_not_wait() {
    let mut wakes: Vec<WakerType> = Vec::new();
    let mut shared = bounded(1);
    let tx: Tx<u32> = Tx::new();
    let receiver = shared.new_recv_blocking(4);
    assert_eq!(shared.reg_recv_blocking(&receiver), Ok(()));
    assert_eq!(tx.try_send(&mut shared, 1, &mut wakes), Ok(()));
    assert_eq!(wakes, vec![WakerType::Blocking(4)]);
    assert_eq!(tx.try_send(&mut shared, 2, &mut wakes), Err(TrySendError::Full(2)));
    assert_eq!(sent::<u32>(Ok(())), Ok(()));
}

#[test]
fn woken_thread_sends_if_the_room_is_still_there() {
    let mut wakes: Vec<WakerType> = Vec::new();
    let mut pauses: Vec<Pause> = Vec::new();
    let mut shared = bounded(1);
    let mut tx: Tx<u32> = Tx::new();
    assert_eq!(shared.try_send(1), Ok(()));
    let step = tx.send(&mut shared, 2, 7, &mut wakes);
    let (_, send) = parked(run(&mut tx, &mut shared, step, 0, &mut pauses, &mut wakes));
    // Woken for nothing, since the channel is full again: it registers once more.
    shared.on_recv(&mut wakes);
    let step = tx.after_park(&mut shared, send, &mut wakes);
    let (_, send) = parked(run(&mut tx, &mut shared, step, 0, &mut pauses, &mut wakes));
    assert_eq!(shared.get_wakers_count(), (1, 0));
    // Woken, and there is room by then.
    shared.on_recv(&mut wakes);
    assert_eq!(shared.try_recv(), Some(1));
    let step = tx.after_park(&mut shared, send, &mut wakes);
    assert_eq!(ended(run(&mut tx, &mut shared, step, 0, &mut pauses, &mut wakes)), Ok(()));
    assert_eq!(shared.try_recv(), Some(2));
}

#[test]
fn unbounded_channel_never_waits() {
    let mut wakes: Vec<WakerType> = Vec::new();
    let mut pauses: Vec<Pause> = Vec::new();
    let mut shared: ChannelShared<u32> =
        ChannelShared::new(Channel::new_list(), RegistryDummy::new(), RegistrySingle::new());
    let mut tx: MTx<u32> = MTx::new();
    for i in 0..100 {
        let step = tx.send(&mut shared, i, 1, &mut wakes);
        assert_eq!(ended(run(&mut tx.0, &mut shared, step, 0, &mut pauses, &mut wakes)), Ok(()));
    }
    assert_eq!(shared.len(), 100);
    for i in 0..100 {
        assert_eq!(shared.try_recv(), Some(i));
    }
}

#[test]
fn congested_senders_give_way_first() {
    let mut wakes: Vec<WakerType> = Vec::new();
    let mut pauses: Vec<Pause> = Vec::new();
    let mut shared = bounded(2);
    let mut a: MTx<u32> = MTx::new();
    let mut b = a.clone(&mut shared, 4);
    assert_eq!(shared.get_tx_count(), 2);
    assert!(shared.is_congested());
    for i in 1..3 {
        assert_eq!(a.try_send(&mut shared, i, &mut wakes), Ok(()));
    }
    let step = a.send(&mut shared, 3, 1, &mut wakes);
    let (_, send) = parked(run(&mut a.0, &mut shared, step, 0, &mut pauses, &mut wakes));
    assert_eq!(shared.try_recv(), Some(1));
    // There is room, but somebody is queued: the other pauses before it tries.
    pauses.clear();
    let step = b.send_timeout(&mut shared, 4, Some(50), 2, &mut wakes);
    assert_eq!(ended(run(&mut b.0, &mut shared, step, 0, &mut pauses, &mut wakes)), Ok(()));
    assert_eq!(pauses, vec![Pause::Spun(1)]);
    assert_eq!(shared.try_recv(), Some(2));
    shared.on_recv(&mut wakes);
    let step = a.0.after_park(&mut shared, send, &mut wakes);
    assert_eq!(ended(run(&mut a.0, &mut shared, step, 0, &mut pauses, &mut wakes)), Ok(()));
    assert_eq!(shared.try_recv(), Some(4));
    assert_eq!(shared.try_recv(), Some(3));
}

#[test]
fn last_sender_that_is_dropped_closes() {
    let mut wakes: Vec<WakerType> = Vec::new();
    let mut shared = bounded(2);
    let a: Tx<u32> = Tx::new();
    let b: Tx<u32> = Tx::attach(&mut shared, 8);
    a.close(&mut shared, &mut wakes);
    assert!(!shared.is_disconnected());
    assert_eq!(shared.get_tx_count(), 1);
    b.close(&mut shared, &mut wakes);
    assert!(shared.is_disconnected());
}

fn fill<S: BlockingTxTrait<u32>>(tx: &mut S, shared: &mut ChannelShared<u32>) -> u32 {
    let mut wakes: Vec<WakerType> = Vec::new();
    let mut count: u32 = 0;
    while BlockingTxTrait::try_send(tx, shared, count, &mut wakes).is_ok() {
        count += 1;
    }
    assert!(tx.is_full(shared));
    assert!(!tx.is_empty(shared));
    assert!(!tx.is_disconnected(shared));
    assert_eq!(tx.len(shared), count as usize);
    count
}

#[test]
fn generic_code_takes_either_sender() {
    let mut wakes: Vec<WakerType> = Vec::new();
    let mut shared = bounded(3);
    assert_eq!(fill(&mut Tx::new(), &mut shared), 3);
    let mut shared = bounded(5);
    let mut many: MTx<u32> = MTx::new();
    assert_eq!(fill(&mut many, &mut shared), 5);
    shared.close_rx(&mut wakes);
    let step = BlockingTxTrait::send(&mut many, &mut shared, 9, 1, &mut wakes);
    assert!(matches!(
        step,
        SendStep::Finished { result: Err(SendTimeoutError::Disconnected(9)) }
    ));
    let step = BlockingTxTrait::send_timeout(&mut many, &mut shared, 8, Some(1), 1, &mut wakes);
    assert!(matches!(
        step,
        SendStep::Finished { result: Err(SendTimeoutError::Disconnected(8)) }
    ));
}

#[test]
fn senders_use_the_published_backoff() {
    let mut wakes: Vec<WakerType> = Vec::new();
    let mut pauses: Vec<Pause> = Vec::new();
    let mut shared = bounded(1);
    // One thread at a time: nobody spins.
    let mut tx: MTx<u32> = MTx::new().clone(&mut shared, 1);
    assert_eq!(shared.get_backoff_tx(), BackoffConfig { spin_limit: 0, limit: 4 });
    assert_eq!(tx.try_send(&mut shared, 1, &mut wakes), Ok(()));
    let step = tx.send(&mut shared, 2, 1, &mut wakes);
    parked(run(&mut tx.0, &mut shared, step, 0, &mut pauses, &mut wakes));
    assert_eq!(pauses, vec![Pause::Yield, Pause::Yield, Pause::Yield, Pause::Yield]);
}

#[test]
fn messages_of_several_senders_come_out_once_each() {
    let mut wakes: Vec<WakerType> = Vec::new();
    let mut pauses: Vec<Pause> = Vec::new();
    let mut shared = bounded(2);
    let mut senders: Vec<Tx<u32>> = vec![Tx::new()];
    while senders.len() < 4 {
        senders.push(Tx::attach(&mut shared, 16));
    }
    let mut waiting: Vec<Option<PendingSend<u32>>> = vec![None, None, None, None];
    let mut received: Vec<u32> = Vec::new();
    for round in 0..20u32 {
        for i in 0..4usize {
            if waiting[i].is_none() {
                let item: u32 = round * 4 + i as u32;
                let step = senders[i].send(&mut shared, item, i as u64, &mut wakes);
                if let Rest::Parks(_, send) =
                    run(&mut senders[i], &mut shared, step, 0, &mut pauses, &mut wakes)
                {
                    waiting[i] = Some(send);
                }
            }
        }
        for _ in 0..4 {
            if let Some(item) = shared.try_recv() {
                received.push(item);
                shared.on_recv(&mut wakes);
            }
        }
        for i in 0..4usize {
            if let Some(send) = waiting[i].take() {
                let step = senders[i].after_park(&mut shared, send, &mut wakes);
                if let Rest::Parks(_, send) =
                    run(&mut senders[i], &mut shared, step, 0, &mut pauses, &mut wakes)
                {
                    waiting[i] = Some(send);
                }
            }
        }
    }
    while let Some(item) = shared.try_recv() {
        received.push(item);
        shared.on_recv(&mut wakes);
    }
    // Each sender's messages are in order, and none came twice.
    for i in 0..4u32 {
        let own: Vec<u32> = received.iter().copied().filter(|m| m % 4 == i).collect();
        assert!(own.windows(2).all(|w| w[0] < w[1]));
        assert!(own.len() >= 18);
    }
}

#[test]
fn room_is_filled_by_those_who_wait() {
    let mut wakes: Vec<WakerType> = Vec::new();
    let mut pauses: Vec<Pause> = Vec::new();
    let mut shared = bounded(2);
    let mut senders: Vec<Tx<u32>> = vec![Tx::new(), Tx::attach(&mut shared, 8)];
    assert_eq!(shared.try_send(1), Ok(()));
    assert_eq!(shared.try_send(2), Ok(()));
    for i in 0..2usize {
        let step = senders[i].send(&mut shared, 3 + i as u32, i as u64, &mut wakes);
        parked(run(&mut senders[i], &mut shared, step, 0, &mut pauses, &mut wakes));
    }
    for i in 1..3u32 {
        assert_eq!(shared.try_recv(), Some(i));
        shared.on_recv(&mut wakes);
        assert!(shared.is_full());
        assert_eq!(shared.get_bound_size(), Some(2));
    }
    assert_eq!(wakes, vec![WakerType::Blocking(0), WakerType::Blocking(1)]);
    assert_eq!(shared.try_recv(), Some(3));
    assert_eq!(shared.try_recv(), Some(4));
}

#[test]
fn step_comes_to_operations() {
    let mut wakes: Vec<WakerType> = Vec::new();
    let mut by_step = bounded(1);
    let mut by_hand = bounded(1);
    assert_eq!(by_step.try_send(1), Ok(()));
    assert_eq!(by_hand.try_send(1), Ok(()));
    let mut tx: Tx<u32> = Tx::new();
    let step = tx.send(&mut by_step, 2, 7, &mut wakes);
    let mut cache: WakerCache<SendWaker<u32>> = WakerCache::new();
    let waker = by_hand.acquire_send_waker(&mut cache, 7, 2);
    assert_eq!(by_hand.reg_send_blocking(&waker), Ok(()));
    let conf = by_hand.get_backoff_tx();
    match (step, by_hand.sender_try_again(&waker, None, true, conf, &mut wakes)) {
        (
            SendStep::Pause { pause, send, attempt, registered },
            TryStep::Paused(other_pause, other),
        ) => {
            assert!(registered);
            assert_eq!(pause, other_pause);
            assert_eq!(send.waker.id, waker.id);
            assert_eq!(attempt.phase, other.phase);
            assert_eq!(attempt.backoff.step(), other.backoff.step());
            assert_eq!(by_step.send_waker_state(&send.waker), by_hand.send_waker_state(&waker));
        },
        _ => panic!("both pause"),
    }
    assert_eq!(by_step.get_wakers_count(), by_hand.get_wakers_count());
    assert_eq!(by_step.len(), by_hand.len());
    assert!(wakes.is_empty());
}

/// The whole of a send with nobody else at the channel.
fn send_alone(
    shared: &mut ChannelShared<u32>,
    item: u32,
    fastpath: bool,
    deadline: u128,
) -> Result<(), SendTimeoutError<u32>> {
    let mut wakes: Vec<WakerType> = Vec::new();
    let mut pauses: Vec<Pause> = Vec::new();
    let mut tx: Tx<u32> = Tx::new();
    let mut now: u128 = 0;
    let mut step = tx._send_blocking(shared, item, fastpath, Some(deadline), 1, &mut wakes);
    loop {
        match run(&mut tx, shared, step, now, &mut pauses, &mut wakes) {
            Rest::Ends(result) => return result,
            Rest::Parks(timeout, send) => {
                now += timeout.unwrap();
                step = tx.after_park(shared, send, &mut wakes);
            },
        }
    }
}

#[test]
fn fast_path_makes_no_difference_alone() {
    let mut wakes: Vec<WakerType> = Vec::new();
    for fastpath in [true, false] {
        let mut room = bounded(2);
        assert_eq!(room.try_send(1), Ok(()));
        assert_eq!(send_alone(&mut room, 2, fastpath, 100), Ok(()));
        assert_eq!((room.try_recv(), room.try_recv(), room.try_recv()), (Some(1), Some(2), None));
        let mut full = bounded(1);
        assert_eq!(full.try_send(1), Ok(()));
        assert_eq!(
            send_alone(&mut full, 2, fastpath, 100),
            Err(SendTimeoutError::Timeout(2))
        );
        assert_eq!((full.try_recv(), full.try_recv()), (Some(1), None));
        let mut closed = bounded(1);
        closed.close_rx(&mut wakes);
        assert_eq!(
            send_alone(&mut closed, 2, fastpath, 100),
            Err(SendTimeoutError::Disconnected(2))
        );
        assert!(closed.is_empty());
    }
}

#[test]
fn every_send_succeeds_and_each_message_comes_out_once() {
    let rounds: u32 = 200;
    let mut wakes: Vec<WakerType> = Vec::new();
    let mut pauses: Vec<Pause> = Vec::new();
    let mut shared = bounded(1);
    let mut senders: Vec<MTx<u32>> = vec![MTx::new()];
    let second = senders[0].clone(&mut shared, 4);
    senders.push(second);
    shared.add_rx(4);
    let mut next: [u32; 2] = [0, 0];
    let mut succeeded: u32 = 0;
    let mut waiting: Vec<Option<PendingSend<u32>>> = vec![None, None];
    let mut received: Vec<u32> = Vec::new();
    while next[0] < rounds || next[1] < rounds || waiting[0].is_some() || waiting[1].is_some() {
        for i in 0..2usize {
            let step = match waiting[i].take() {
                Some(send) => senders[i].0.after_park(&mut shared, send, &mut wakes),
                None if next[i] < rounds => {
                    let item: u32 = next[i] * 2 + i as u32;
                    next[i] += 1;
                    senders[i].send(&mut shared, item, i as u64, &mut wakes)
                },
                None => continue,
            };
            match run(&mut senders[i].0, &mut shared, step, 0, &mut pauses, &mut wakes) {
                Rest::Parks(_, send) => waiting[i] = Some(send),
                Rest::Ends(result) => {
                    assert_eq!(sent(result), Ok(()));
                    succeeded += 1;
                },
            }
        }
        if let Some(item) = shared.try_recv() {
            received.push(item);
            shared.on_recv(&mut wakes);
        }
    }
    for tx in senders {
        tx.0.close(&mut shared, &mut wakes);
    }
    assert!(shared.is_disconnected());
    while let Some(item) = shared.try_recv() {
        received.push(item);
    }
    assert_eq!(succeeded, rounds * 2);
    assert_eq!(received.len() as u32, rounds * 2);
    received.sort();
    assert!(received.iter().enumerate().all(|(i, m)| *m == i as u32));
}

/// Two threads, of which one gives up at its deadline, and a task that gives up when it
/// has waited for a while. Returns how many messages went in by the senders' account, how
/// many came back, and what came out.
fn mixed_run(rounds: u32, patience: u128) -> (u32, u32, Vec<u32>) {
    let mut wakes: Vec<WakerType> = Vec::new();
    let mut pauses: Vec<Pause> = Vec::new();
    let mut shared = bounded(1);
    let mut senders: Vec<MTx<u32>> = vec![MTx::new()];
    let second = senders[0].clone(&mut shared, 4);
    senders.push(second);
    let mut next: [u32; 3] = [0, 0, 0];
    let mut waiting: Vec<Option<PendingSend<u32>>> = vec![None, None];
    let mut task: Option<(SendWaker<u32>, u128)> = None;
    let mut went_in: u32 = 0;
    let mut came_back: u32 = 0;
    let mut received: Vec<u32> = Vec::new();
    let mut now: u128 = 0;
    while went_in + came_back < rounds * 3 {
        now += 1;
        for i in 0..2usize {
            let step = match waiting[i].take() {
                Some(send) => senders[i].0.after_park(&mut shared, send, &mut wakes),
                None if next[i] < rounds => {
                    let item: u32 = next[i] * 3 + i as u32;
                    next[i] += 1;
                    if i == 0 {
                        senders[i].send(&mut shared, item, 0, &mut wakes)
                    } else {
                        let deadline = Some(now + patience);
                        senders[i].send_timeout(&mut shared, item, deadline, 1, &mut wakes)
                    }
                },
                None => continue,
            };
            match run(&mut senders[i].0, &mut shared, step, now, &mut pauses, &mut wakes) {
                Rest::Parks(_, send) => waiting[i] = Some(send),
                Rest::Ends(Ok(())) => went_in += 1,
                Rest::Ends(Err(SendTimeoutError::Timeout(item))) => {
                    assert_eq!(item, (next[i] - 1) * 3 + 1);
                    came_back += 1;
                },
                Rest::Ends(Err(SendTimeoutError::Disconnected(_))) => panic!("nobody left"),
            }
        }
        task = match task {
            None if next[2] < rounds => {
                let waker = shared.new_send_async(9, next[2] * 3 + 2);
                next[2] += 1;
                assert_eq!(shared.reg_send_async(&waker), Ok(()));
                Some((waker, now))
            },
            None => None,
            Some((waker, since)) => match shared.send_waker_state(&waker) {
                // It was served.
                2 => {
                    assert_eq!(shared.drop_send_waker(waker), None);
                    went_in += 1;
                    None
                },
                1 if shared.retry_send(&waker, &mut wakes) => {
                    assert_eq!(shared.drop_send_waker(waker), None);
                    went_in += 1;
                    None
                },
                1 => {
                    assert_eq!(shared.reg_send_async(&waker), Ok(()));
                    Some((waker, since))
                },
                _ if now >= since + patience => {
                    assert_eq!(
                        shared.abandon_send_waker(waker, &mut wakes),
                        Some((next[2] - 1) * 3 + 2)
                    );
                    came_back += 1;
                    None
                },
                _ => Some((waker, since)),
            },
        };
        if now % 8 == 0 {
            if let Some(item) = shared.try_recv() {
                received.push(item);
                shared.on_recv(&mut wakes);
            }
        }
    }
    for tx in senders {
        tx.0.close(&mut shared, &mut wakes);
    }
    while let Some(item) = shared.try_recv() {
        received.push(item);
    }
    (went_in, came_back, received)
}

#[test]
fn what_went_in_comes_out_once_among_threads_and_tasks() {
    let rounds: u32 = 100;
    for patience in [2u128, 5, 1_000_000] {
        let (went_in, came_back, mut received) = mixed_run(rounds, patience);
        assert_eq!(went_in + came_back, rounds * 3);
        assert_eq!(received.len() as u32, went_in);
        assert_eq!(came_back == 0, patience == 1_000_000);
        // The thread without a deadline never fails.
        let first: Vec<u32> = received.iter().copied().filter(|m| m % 3 == 0).collect();
        assert_eq!(first, (0..rounds).map(|m| m * 3).collect::<Vec<u32>>());
        received.sort();
        received.dedup();
        assert_eq!(received.len() as u32, went_in);
    }
}

#[test]
fn receivers_that_leave_early_give_every_message_back() {
    let mut wakes: Vec<WakerType> = Vec::new();
    let mut pauses: Vec<Pause> = Vec::new();
    let mut shared = bounded(1);
    let mut first: MTx<u32> = MTx::new();
    let mut second = first.clone(&mut shared, 4);
    let step = first.send(&mut shared, 1, 1, &mut wakes);
    assert_eq!(ended(run(&mut first.0, &mut shared, step, 0, &mut pauses, &mut wakes)), Ok(()));
    let step = first.send(&mut shared, 2, 1, &mut wakes);
    let (_, a) = parked(run(&mut first.0, &mut shared, step, 0, &mut pauses, &mut wakes));
    let step = second.send_timeout(&mut shared, 3, Some(9), 2, &mut wakes);
    let (_, b) = parked(run(&mut second.0, &mut shared, step, 0, &mut pauses, &mut wakes));
    shared.close_rx(&mut wakes);
    let step = first.0.after_park(&mut shared, a, &mut wakes);
    assert_eq!(
        ended(run(&mut first.0, &mut shared, step, 0, &mut pauses, &mut wakes)),
        Err(SendTimeoutError::Disconnected(2))
    );
    let step = second.0.after_park(&mut shared, b, &mut wakes);
    assert_eq!(
        ended(run(&mut second.0, &mut shared, step, 20, &mut pauses, &mut wakes)),
        Err(SendTimeoutError::Disconnected(3))
    );
    // What went in stays.
    assert_eq!(shared.len(), 1);
    assert_eq!(shared.try_recv(), Some(1));
}

#[test]
fn sending_at_once_works_while_a_waker_is_locked() {
    let mut wakes: Vec<WakerType> = Vec::new();
    let mut shared = bounded(2);
    let waker = shared.new_send_async(10, 9);
    assert_eq!(shared.reg_send_async(&waker), Ok(()));
    assert!(shared.try_lock_send_waker(&waker));
    let mut tx: Tx<u32> = Tx::new();
    assert_eq!(tx.try_send(&mut shared, 1, &mut wakes), Ok(()));
    let step = tx.send_timeout(&mut shared, 2, None, 3, &mut wakes);
    assert!(matches!(step, SendStep::Finished { result: Ok(()) }));
    assert_eq!(shared.try_recv(), Some(1));
    assert_eq!(shared.try_recv(), Some(2));
    shared.unlock_send_waker(&waker);
    shared.on_recv(&mut wakes);
    assert_eq!(shared.try_recv(), Some(9));
}
