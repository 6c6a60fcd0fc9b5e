use ppipe::bridge::Bridge;
use ppipe::model::{Deposit, Pulled};
use ppipe::stage::PPipe;

fn drain(b: &mut Bridge<u64>) -> Vec<u64> {
    let mut out = Vec::new();
    loop {
        match b.pull() {
            Pulled::Item(x) => out.push(x),
            Pulled::Ended => return out,
            Pulled::Pending => panic!("pending after the producer finished"),
        }
    }
}

/// Runs producer and consumer in lock-step turns: the producer deposits until
/// it is told to wait, then the consumer takes one item.
fn interleaved(input: &[u64], back_pressure: Option<usize>) -> (Vec<u64>, usize) {
    let mut b: Bridge<u64> = Bridge::new(back_pressure);
    let mut out = Vec::new();
    let mut waits = 0;
    let mut next = 0;
    let mut held: Option<u64> = None;
    let mut finished = false;
    loop {
        if !finished {
            let item = match held.take() {
                Some(x) => Some(x),
                None => {
                    if next < input.len() {
                        next += 1;
                        Some(input[next - 1])
                    } else {
                        None
                    }
                }
            };
            match item {
                None => {
                    b.finish();
                    finished = true;
                }
                Some(x) => match b.deposit(x) {
                    Deposit::Delivered => continue,
                    Deposit::Full(y) => {
                        held = Some(y);
                        waits += 1;
                    }
                    Deposit::Closed => panic!("closed while the consumer is there"),
                },
            }
        }
        match b.pull() {
            Pulled::Item(x) => out.push(x),
            Pulled::Pending => {}
            Pulled::Ended => return (out, waits),
        }
    }
}

#[test]
fn unbounded_delivers_zero_to_nine_in_order() {
    let mut b: Bridge<u64> = Bridge::new(None);
    for i in 0..10u64 {
        assert!(matches!(b.deposit(i), Deposit::Delivered));
    }
    assert_eq!(b.len(), 10);
    b.finish();
    assert_eq!(drain(&mut b), (0..10).collect::<Vec<u64>>());
}

#[test]
fn bound_of_one_gives_the_same_output_and_waits_between_deposits() {
    let input: Vec<u64> = (0..10).collect();
    let (out, waits) = interleaved(&input, Some(1));
    assert_eq!(out, input);
    assert_eq!(waits, 9);
    let (unbounded, no_waits) = interleaved(&input, None);
    assert_eq!(unbounded, out);
    assert_eq!(no_waits, 0);
}

#[test]
fn abandoned_infinite_counter_stops_the_worker() {
    let mut b: Bridge<u64> = Bridge::new(Some(3));
    let mut counter: u64 = 0;
    let mut received = Vec::new();
    let mut attempts_after_abandon = 0;
    let mut abandoned = false;
    loop {
        if abandoned {
            attempts_after_abandon += 1;
        }
        match b.deposit(counter) {
            Deposit::Delivered => counter += 1,
            Deposit::Full(_) => {
                if let Pulled::Item(x) = b.pull() {
                    received.push(x);
                }
                if received.len() == 5 {
                    b.abandon();
                    abandoned = true;
                }
            }
            Deposit::Closed => break,
        }
        assert!(counter < 1000, "the worker kept running");
    }
    assert_eq!(received, vec![0, 1, 2, 3, 4]);
    assert_eq!(attempts_after_abandon, 1);
    assert_eq!(b.len(), 0);
    assert!(matches!(b.pull(), Pulled::Ended));
}

#[test]
fn order_is_kept_for_every_mode() {
    let input: Vec<u64> = vec![7, 3, 3, 9, 0, 12, 5, 5, 1, 8, 2, 40];
    let m = input.len();
    for mode in [None, Some(1), Some(2), Some(m), Some(m + 10)] {
        let (out, _) = interleaved(&input, mode);
        assert_eq!(out, input);
    }
}

#[test]
fn end_of_sequence_repeats_after_exhaustion() {
    let mut b: Bridge<u64> = Bridge::new(Some(2));
    assert!(matches!(b.deposit(4), Deposit::Delivered));
    assert!(matches!(b.deposit(6), Deposit::Delivered));
    b.finish();
    assert!(matches!(b.pull(), Pulled::Item(4)));
    assert!(matches!(b.pull(), Pulled::Item(6)));
    for _ in 0..3 {
        assert!(matches!(b.pull(), Pulled::Ended));
    }
}

#[test]
fn empty_upstream_ends_at_once() {
    let mut b: Bridge<u64> = Bridge::new(None);
    b.finish();
    assert!(matches!(b.pull(), Pulled::Ended));
}

#[test]
fn consumer_waits_while_producer_is_open() {
    let mut b: Bridge<u64> = Bridge::new(None);
    assert!(matches!(b.pull(), Pulled::Pending));
    assert!(matches!(b.deposit(1), Deposit::Delivered));
    assert!(matches!(b.pull(), Pulled::Item(1)));
    assert!(matches!(b.pull(), Pulled::Pending));
}

#[test]
fn never_pulled_bounded_queue_holds_at_most_n() {
    let mut b: Bridge<u64> = Bridge::new(Some(3));
    let mut deposited = 0;
    for i in 0..10u64 {
        match b.deposit(i) {
            Deposit::Delivered => deposited += 1,
            Deposit::Full(x) => assert_eq!(x, i),
            Deposit::Closed => panic!("closed"),
        }
        assert!(b.len() <= 3);
    }
    assert_eq!(deposited, 3);
}

#[test]
fn unbounded_queue_never_reports_full() {
    let mut b: Bridge<u64> = Bridge::new(None);
    for i in 0..1000u64 {
        assert!(matches!(b.deposit(i), Deposit::Delivered));
    }
    assert_eq!(b.len(), 1000);
}

#[test]
fn zero_capacity_is_served_with_one_slot() {
    let mut b: Bridge<u64> = Bridge::new(Some(0));
    assert!(matches!(b.deposit(1), Deposit::Delivered));
    assert!(matches!(b.deposit(2), Deposit::Full(2)));
    assert!(matches!(b.pull(), Pulled::Item(1)));
    assert!(matches!(b.deposit(2), Deposit::Delivered));
}

#[test]
fn abandon_drops_buffered_items_and_closes() {
    let mut b: Bridge<u64> = Bridge::new(None);
    for i in 0..5u64 {
        assert!(matches!(b.deposit(i), Deposit::Delivered));
    }
    assert!(matches!(b.pull(), Pulled::Item(0)));
    b.abandon();
    assert_eq!(b.len(), 0);
    assert!(matches!(b.deposit(9), Deposit::Closed));
    assert!(matches!(b.pull(), Pulled::Ended));
}

#[test]
fn deposit_after_finish_is_refused() {
    let mut b: Bridge<u64> = Bridge::new(None);
    b.finish();
    assert!(matches!(b.deposit(3), Deposit::Closed));
    assert_eq!(b.len(), 0);
}

#[test]
fn ppipe_hands_the_sequence_to_a_fresh_stage() {
    let mut stage = (0..4u64).ppipe(Some(2));
    assert_eq!(stage.bridge.len(), 0);
    let first = stage.upstream.next().unwrap();
    assert!(matches!(stage.bridge.deposit(first), Deposit::Delivered));
    let second = stage.upstream.next().unwrap();
    assert!(matches!(stage.bridge.deposit(second), Deposit::Delivered));
    let third = stage.upstream.next().unwrap();
    assert!(matches!(stage.bridge.deposit(third), Deposit::Full(2)));
    assert!(matches!(stage.bridge.pull(), Pulled::Item(0)));
}

#[test]
fn ppipe_without_bound_is_unbounded() {
    let mut stage = vec![5u64; 50].into_iter().ppipe(None);
    while let Some(x) = stage.upstream.next() {
        assert!(matches!(stage.bridge.deposit(x), Deposit::Delivered));
    }
    stage.bridge.finish();
    assert_eq!(drain(&mut stage.bridge), vec![5u64; 50]);
}
