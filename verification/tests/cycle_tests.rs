use oracle_node::{
    step, ConversionError, CycleAction, CycleEvent, CycleOutcome, CycleState, Decimal, FetchError,
    Quote, Receipt, SubmissionError, TICK_INTERVAL_SECS,
};

const CEILING: u64 = 60;

fn receipt(success: bool) -> Receipt {
    Receipt { tx_hash: [7u8; 32], block_number: 1234, success }
}

fn good_quote() -> Quote {
    Quote {
        usd: Decimal { neg: false, mantissa: 1800005, scale: 3 },
        eur: Decimal { neg: false, mantissa: 165010, scale: 2 },
        btc: Decimal { neg: false, mantissa: 45, scale: 3 },
    }
}

#[test]
fn full_cycle_succeeds() {
    let (s, a) = step(CycleState::Idle, CycleEvent::Tick, CEILING);
    assert!(matches!(s, CycleState::Fetching));
    assert!(matches!(a, CycleAction::StartFetch));

    let body = b"{\"BTC\":0.045,\"USD\":1800.005,\"EUR\":1650.10}".to_vec();
    let (s, a) = step(s, CycleEvent::BodyReceived(body), CEILING);
    assert!(matches!(s, CycleState::Converting(_)));
    assert!(matches!(a, CycleAction::Convert));

    let (s, a) = step(s, CycleEvent::Advance, CEILING);
    match (&s, &a) {
        (CycleState::Submitting(p), CycleAction::Submit(p2)) => {
            assert_eq!((p.usd, p.eur, p.btc), (180001, 165010, 5));
            assert_eq!((p2.usd, p2.eur, p2.btc), (180001, 165010, 5));
        },
        other => panic!("unexpected: {:?}", other),
    }

    let (s, a) = step(s, CycleEvent::Broadcasted, CEILING);
    assert!(matches!(s, CycleState::Confirming));
    assert!(matches!(a, CycleAction::AwaitConfirmation));

    let (s, a) = step(s, CycleEvent::Confirmed(receipt(true), 3), CEILING);
    match s {
        CycleState::Done(rc) => assert!(rc.success && rc.block_number == 1234),
        other => panic!("unexpected: {:?}", other),
    }
    assert!(matches!(a, CycleAction::Report(CycleOutcome::Success(_))));
}

#[test]
fn reverted_transaction_is_a_submission_failure_not_success() {
    // Fetch and Convert succeeded; the included transaction reverted.
    let (s, a) = step(
        CycleState::Confirming,
        CycleEvent::Confirmed(receipt(false), 3),
        CEILING,
    );
    assert!(matches!(
        s,
        CycleState::Failed(CycleOutcome::SubmissionFailed(SubmissionError::Reverted))
    ));
    assert!(matches!(
        a,
        CycleAction::Report(CycleOutcome::SubmissionFailed(SubmissionError::Reverted))
    ));
}

#[test]
fn tick_in_a_running_cycle_starts_nothing() {
    let mids = vec![
        CycleState::Fetching,
        CycleState::Converting(good_quote()),
        CycleState::Submitting(oracle_node::ScaledPriceSet { usd: 1, eur: 2, btc: 3 }),
        CycleState::Confirming,
    ];
    for m in mids {
        let (s, a) = step(m, CycleEvent::Tick, CEILING);
        assert!(matches!(a, CycleAction::Wait));
        match (m, s) {
            (CycleState::Fetching, CycleState::Fetching) => {},
            (CycleState::Converting(_), CycleState::Converting(_)) => {},
            (CycleState::Submitting(_), CycleState::Submitting(_)) => {},
            (CycleState::Confirming, CycleState::Confirming) => {},
            other => panic!("state moved on a mid-cycle tick: {:?}", other),
        }
    }
}

#[test]
fn confirmation_timeout_fails_the_cycle_then_the_next_tick_fetches() {
    let (s, a) = step(CycleState::Confirming, CycleEvent::TimedOut, CEILING);
    assert!(matches!(s, CycleState::Failed(CycleOutcome::ConfirmationTimedOut)));
    assert!(matches!(a, CycleAction::Report(CycleOutcome::ConfirmationTimedOut)));

    let (s, a) = step(s, CycleEvent::Tick, CEILING);
    assert!(matches!(s, CycleState::Fetching));
    assert!(matches!(a, CycleAction::StartFetch));
}

#[test]
fn confirmation_wait_beyond_the_ceiling_times_out_even_with_a_receipt() {
    let (s, _) = step(
        CycleState::Confirming,
        CycleEvent::Confirmed(receipt(true), CEILING + 1),
        CEILING,
    );
    assert!(matches!(s, CycleState::Failed(CycleOutcome::ConfirmationTimedOut)));
}

#[test]
fn fetch_failures_fail_the_cycle() {
    let (s, _) = step(CycleState::Fetching, CycleEvent::NetworkFailed, CEILING);
    assert!(matches!(
        s,
        CycleState::Failed(CycleOutcome::FetchFailed(FetchError::Network))
    ));

    let (s, _) = step(CycleState::Fetching, CycleEvent::BadStatus(503), CEILING);
    assert!(matches!(
        s,
        CycleState::Failed(CycleOutcome::FetchFailed(FetchError::Status(503)))
    ));

    let (s, _) = step(
        CycleState::Fetching,
        CycleEvent::BodyReceived(b"not json".to_vec()),
        CEILING,
    );
    assert!(matches!(
        s,
        CycleState::Failed(CycleOutcome::FetchFailed(FetchError::Parse))
    ));

    let (s, _) = step(
        CycleState::Fetching,
        CycleEvent::BodyReceived(b"{\"BTC\":1}".to_vec()),
        CEILING,
    );
    assert!(matches!(
        s,
        CycleState::Failed(CycleOutcome::FetchFailed(FetchError::MissingField))
    ));
}

#[test]
fn conversion_failure_fails_the_cycle() {
    let mut q = good_quote();
    q.usd.neg = true;
    let (s, a) = step(CycleState::Converting(q), CycleEvent::Advance, CEILING);
    assert!(matches!(
        s,
        CycleState::Failed(CycleOutcome::ConversionFailed(ConversionError::Negative))
    ));
    assert!(matches!(
        a,
        CycleAction::Report(CycleOutcome::ConversionFailed(ConversionError::Negative))
    ));
}

#[test]
fn broadcast_failure_fails_the_cycle() {
    let p = oracle_node::ScaledPriceSet { usd: 1, eur: 2, btc: 3 };
    let (s, _) = step(
        CycleState::Submitting(p),
        CycleEvent::BroadcastFailed(SubmissionError::Sign),
        CEILING,
    );
    assert!(matches!(
        s,
        CycleState::Failed(CycleOutcome::SubmissionFailed(SubmissionError::Sign))
    ));
}

#[test]
fn events_outside_their_state_move_nothing() {
    let (s, a) = step(CycleState::Idle, CycleEvent::Broadcasted, CEILING);
    assert!(matches!(s, CycleState::Idle));
    assert!(matches!(a, CycleAction::Wait));

    let (s, a) = step(CycleState::Fetching, CycleEvent::Advance, CEILING);
    assert!(matches!(s, CycleState::Fetching));
    assert!(matches!(a, CycleAction::Wait));

    let (s, a) = step(
        CycleState::Confirming,
        CycleEvent::BodyReceived(b"{}".to_vec()),
        CEILING,
    );
    assert!(matches!(s, CycleState::Confirming));
    assert!(matches!(a, CycleAction::Wait));
}

#[test]
fn schedule_interval_is_five_seconds() {
    assert_eq!(TICK_INTERVAL_SECS, 5);
}
