use std::mem::size_of;

use crossfire::backoff::{Backoff, BackoffConfig, Pause, MAX_LIMIT};
use crossfire::tuning::{async_backoff_rx, async_backoff_tx, determine_backoff, load_backoff};

#[test]
fn test_backoff() {
    let backoff = Backoff::new(BackoffConfig { spin_limit: 1, limit: 0 });
    assert!(backoff.is_completed());
    println!("backoff size {}", size_of::<Backoff>());
    println!("BackoffConfig size {}", size_of::<BackoffConfig>());
    assert_eq!(size_of::<BackoffConfig>(), size_of::<u32>());
    let config = BackoffConfig { spin_limit: 6, limit: 7 };
    let config_i = config.to_u32();
    let _config = BackoffConfig::from_u32(config_i);
    assert_eq!(config.spin_limit, _config.spin_limit);
    assert_eq!(config.limit, _config.limit);

    let mut backoff = Backoff::new(BackoffConfig { spin_limit: 2, limit: 4 });
    assert_eq!(backoff.step, 0);
    backoff.spin();
    assert_eq!(backoff.step, 1);
    backoff.snooze();
    assert_eq!(backoff.step, 2);
    backoff.snooze();
    backoff.snooze();
    backoff.snooze();
    backoff.snooze();
    assert_eq!(backoff.step, 6);
    backoff.spin();
    assert_eq!(backoff.step, 7);
}

/// The counts of the two sides, on machines of several sizes.
fn check_determined(tx_count: usize, rx_count: usize) {
    let sizes: [usize; 6] = [1, 2, 4, 8, 16, 64];
    for avail in sizes {
        let mut global: u32 = BackoffConfig::default().to_u32();
        let config = determine_backoff(&mut global, tx_count, rx_count, avail);
        let published = BackoffConfig::from_u32(global);
        assert_eq!(config.spin_limit, published.spin_limit);
        assert_eq!(config.limit, published.limit);
        assert!(config.limit <= MAX_LIMIT);
        println!("tx {} rx {} config {:?}", tx_count, rx_count, config);
    }
}

#[test]
fn test_backoff_determine() {
    check_determined(1, 1);
    check_determined(2, 1);
    check_determined(4, 1);
    check_determined(8, 1);
    check_determined(1, 4);
    check_determined(1, 8);
    check_determined(16, 1);
    check_determined(2, 2);
    check_determined(4, 4);
    check_determined(8, 8);
}

fn chosen(mine: usize, other: usize, avail: usize) -> (u16, u16) {
    let mut global: u32 = 0;
    let config = determine_backoff(&mut global, mine, other, avail);
    assert_eq!(load_backoff(global), config);
    (config.spin_limit, config.limit)
}

#[test]
fn backoff_is_chosen_by_load() {
    // Two threads more than the machine runs at once, one more, as many, fewer.
    assert_eq!(chosen(3, 3, 4), (2, 4));
    assert_eq!(chosen(3, 2, 4), (4, 5));
    assert_eq!(chosen(2, 2, 4), (4, 5));
    assert_eq!(chosen(2, 1, 4), (6, 6));
    assert_eq!(chosen(1, 1, 4), (7, 7));
    assert_eq!(chosen(2, 2, 8), (7, 7));
}

#[test]
fn backoff_of_unequal_sides() {
    // More than four times the other: no spinning.
    assert_eq!(chosen(5, 1, 64), (0, 6));
    assert_eq!(chosen(4, 1, 64), (6, 6));
    // Less than a quarter of the other: spinning all the time.
    assert_eq!(chosen(1, 5, 64), (6, 6));
    assert_eq!(chosen(1, 5, 6), (5, 5));
    assert_eq!(chosen(1, 8, 4), (4, 4));
    assert_eq!(chosen(2, 9, 4), (2, 4));
    // One thread at a time: nobody spins.
    assert_eq!(chosen(1, 1, 1), (0, 5));
    assert_eq!(chosen(1, 1, 0), (0, 4));
}

#[test]
fn config_packs_into_a_word() {
    assert_eq!(BackoffConfig { spin_limit: 6, limit: 7 }.to_u32(), 0x0007_0006);
    assert_eq!(BackoffConfig::default().to_u32(), 0x0006_0006);
    assert_eq!(
        BackoffConfig::from_u32(0xffff_0001),
        BackoffConfig { spin_limit: 1, limit: 0xffff }
    );
    assert_eq!(BackoffConfig::from_u32(0xdead_beef).to_u32(), 0xdead_beef);
}

#[test]
fn async_limit_shortens_only() {
    let mut config = BackoffConfig { spin_limit: 6, limit: 6 };
    config.set_async_limit(2);
    assert_eq!(config, BackoffConfig { spin_limit: 2, limit: 2 });
    config.set_async_limit(5);
    assert_eq!(config, BackoffConfig { spin_limit: 5, limit: 2 });
}

#[test]
fn pauses_double_and_then_yield() {
    let mut backoff = Backoff::new(BackoffConfig { spin_limit: 3, limit: 4 });
    assert_eq!(backoff.snooze(), Pause::Spun(1));
    assert_eq!(backoff.snooze(), Pause::Spun(2));
    assert_eq!(backoff.snooze(), Pause::Spun(4));
    assert!(!backoff.is_completed());
    assert_eq!(backoff.snooze(), Pause::Yield);
    assert!(backoff.is_completed());
    assert_eq!(backoff.spin(), 16);
    backoff.reset();
    assert_eq!(backoff.step(), 0);
    assert_eq!(backoff.spin(), 1);
}

#[test]
fn steps_stop_growing() {
    let mut backoff = Backoff::new(BackoffConfig { spin_limit: 0, limit: 11 });
    for _ in 0..20 {
        backoff.snooze();
    }
    assert_eq!(backoff.step(), MAX_LIMIT as usize);
    assert!(!backoff.is_completed());
    assert_eq!(backoff.spin(), 1024);
    assert_eq!(backoff.step(), 10);
}

#[test]
fn async_steps_by_bound_and_workers() {
    assert_eq!(async_backoff_tx(Some(1), Some(1)), 0);
    assert_eq!(async_backoff_tx(None, Some(0)), 0);
    assert_eq!(async_backoff_tx(Some(1), Some(2)), 6);
    assert_eq!(async_backoff_tx(Some(2), None), 6);
    assert_eq!(async_backoff_tx(Some(3), Some(2)), 1);
    assert_eq!(async_backoff_tx(Some(0), Some(2)), 1);
    assert_eq!(async_backoff_tx(None, Some(8)), 1);
    assert_eq!(async_backoff_rx(Some(2), Some(1)), 0);
    assert_eq!(async_backoff_rx(Some(1), Some(2)), 5);
    assert_eq!(async_backoff_rx(Some(2), None), 5);
    assert_eq!(async_backoff_rx(Some(3), Some(2)), 1);
    assert_eq!(async_backoff_rx(None, None), 1);
}
