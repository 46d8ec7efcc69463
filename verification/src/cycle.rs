//! The update cycle: a state machine from state and event to next state and
//! action.
//!
//! One cycle runs Idle -> Fetching -> Converting -> Submitting -> Confirming
//! and ends in Done or Failed; the next tick of the schedule then starts the
//! next cycle. The machine decides; the caller performs the actions it asks
//! for (fetch, submit, await confirmation) and hands the outcome back as the
//! next event. Events that do not belong to the current state leave the
//! state unchanged: in particular a tick that arrives while a cycle is still
//! running starts nothing, so cycles never overlap.

use vstd::prelude::*;

use crate::convert::{convert, price_err, scaled, ConversionError, ScaledPriceSet};
use crate::quote::{fetch_spec, parse_quote, FetchError, Quote, QuoteModel};
use crate::submit::{Receipt, SubmissionError};

verus! {

/// Seconds between two ticks of the schedule.
pub const TICK_INTERVAL_SECS: u64 = 5;

/// The terminal record of one cycle.
#[derive(Clone, Copy, Debug, PartialEq, Eq)]
pub enum CycleOutcome {
    /// The update was included and executed.
    Success(Receipt),
    /// The quote could not be fetched or read.
    FetchFailed(FetchError),
    /// The quote could not be converted to fixed point.
    ConversionFailed(ConversionError),
    /// The update could not be built, signed, broadcast, or it reverted.
    SubmissionFailed(SubmissionError),
    /// The confirmation wait exceeded its ceiling.
    ConfirmationTimedOut,
}

/// Where one cycle stands.
#[derive(Clone, Copy, Debug)]
pub enum CycleState {
    /// No cycle has started yet.
    Idle,
    /// The feed request is out.
    Fetching,
    /// A quote arrived and awaits conversion.
    Converting(Quote),
    /// The scaled prices await broadcast.
    Submitting(ScaledPriceSet),
    /// The broadcast transaction awaits inclusion.
    Confirming,
    /// The cycle ended with an included, successful update.
    Done(Receipt),
    /// The cycle ended without one.
    Failed(CycleOutcome),
}

/// What the world reports to the machine.
#[derive(Clone, Debug)]
pub enum CycleEvent {
    /// The schedule fired.
    Tick,
    /// The feed answered with a success status and this body.
    BodyReceived(Vec<u8>),
    /// The feed request failed on the network.
    NetworkFailed,
    /// The feed answered with a non-success status.
    BadStatus(u16),
    /// Nothing from outside: run the pending pure stage.
    Advance,
    /// The transaction was signed and broadcast.
    Broadcasted,
    /// The transaction could not be built, signed or broadcast.
    BroadcastFailed(SubmissionError),
    /// A receipt arrived after waiting this many seconds.
    Confirmed(Receipt, u64),
    /// The confirmation wait was given up.
    TimedOut,
}

/// What the machine asks the caller to do next.
#[derive(Clone, Copy, Debug)]
pub enum CycleAction {
    /// Nothing until the next event.
    Wait,
    /// Request the feed.
    StartFetch,
    /// Hand back `Advance` to run the conversion.
    Convert,
    /// Sign and broadcast these prices, in the order USD, EUR, BTC.
    Submit(ScaledPriceSet),
    /// Await the receipt of the broadcast transaction.
    AwaitConfirmation,
    /// Record this outcome; the cycle is over.
    Report(CycleOutcome),
}

/// Every quote a state carries is within representation bounds.
pub open spec fn state_wf(s: CycleState) -> bool {
    s matches CycleState::Converting(q) ==> q.wf()
}

/// Whether an event belongs to a state: only then does the machine move.
pub open spec fn relevant(s: CycleState, e: CycleEvent) -> bool {
    ||| (e is Tick && (s is Idle || s is Done || s is Failed))
    ||| (s is Fetching && (e is BodyReceived || e is NetworkFailed || e is BadStatus))
    ||| (s is Converting && e is Advance)
    ||| (s is Submitting && (e is Broadcasted || e is BroadcastFailed))
    ||| (s is Confirming && (e is Confirmed || e is TimedOut))
}

/// One move of the update cycle.
///
/// The contract pins every transition. Notably: a tick in a running cycle
/// changes nothing, so a second cycle's Fetching never begins before the
/// first reaches Done or Failed; a receipt whose success flag is cleared
/// ends the cycle as a submission failure, not a success; and a confirmation
/// wait beyond `confirm_ceiling` seconds ends it as a confirmation timeout.
pub fn step(state: CycleState, event: CycleEvent, confirm_ceiling: u64) -> (r: (
    CycleState,
    CycleAction,
))
    requires
        state_wf(state),
    ensures
        state_wf(r.0),
        // An event that does not belong to the state moves nothing.
        !relevant(state, event) ==> r.0 == state && r.1 is Wait,
        // A tick in a running cycle moves nothing; Fetching begins on a tick
        // from Idle, Done or Failed, and in no other way.
        event is Tick && (state is Fetching || state is Converting || state is Submitting
            || state is Confirming) ==> r.0 == state && r.1 is Wait,
        r.0 is Fetching ==> state is Fetching || (event is Tick && (state is Idle
            || state is Done || state is Failed)),
        event is Tick && (state is Idle || state is Done || state is Failed) ==> r.0
            is Fetching && r.1 is StartFetch,
        // Fetching: the body decides, as fetch_spec says.
        state is Fetching ==> (event matches CycleEvent::BodyReceived(b) ==> (match fetch_spec(
            b@,
        ) {
            Ok(_) => (r.0 matches CycleState::Converting(q) && fetch_spec(b@) == Ok::<
                QuoteModel,
                FetchError,
            >(q@)) && r.1 is Convert,
            Err(err) => r.0 == CycleState::Failed(CycleOutcome::FetchFailed(err)) && r.1
                == CycleAction::Report(CycleOutcome::FetchFailed(err)),
        })),
        state is Fetching && event is NetworkFailed ==> r.0 == CycleState::Failed(
            CycleOutcome::FetchFailed(FetchError::Network),
        ) && r.1 == CycleAction::Report(CycleOutcome::FetchFailed(FetchError::Network)),
        state is Fetching ==> (event matches CycleEvent::BadStatus(st) ==> r.0
            == CycleState::Failed(CycleOutcome::FetchFailed(FetchError::Status(st))) && r.1
            == CycleAction::Report(CycleOutcome::FetchFailed(FetchError::Status(st)))),
        // Converting: the prices decide, as price_err and scaled say.
        state matches CycleState::Converting(q) ==> (event is Advance ==> (if price_err(q.usd)
            is None && price_err(q.eur) is None && price_err(q.btc) is None {
            (r.0 matches CycleState::Submitting(p) && r.1 == CycleAction::Submit(p) && p.usd
                as int == scaled(q.usd.mantissa as nat, q.usd.scale as nat) && p.eur as int
                == scaled(q.eur.mantissa as nat, q.eur.scale as nat) && p.btc as int == scaled(
                q.btc.mantissa as nat,
                q.btc.scale as nat,
            ))
        } else {
            ({
                let e = if price_err(q.usd) is Some {
                    price_err(q.usd)
                } else if price_err(q.eur) is Some {
                    price_err(q.eur)
                } else {
                    price_err(q.btc)
                };
                e matches Some(ce) && r.0 == CycleState::Failed(
                    CycleOutcome::ConversionFailed(ce),
                ) && r.1 == CycleAction::Report(CycleOutcome::ConversionFailed(ce))
            })
        })),
        // Submitting: broadcast outcome decides.
        state is Submitting && event is Broadcasted ==> r.0 is Confirming && r.1
            is AwaitConfirmation,
        state is Submitting ==> (event matches CycleEvent::BroadcastFailed(se) ==> r.0
            == CycleState::Failed(CycleOutcome::SubmissionFailed(se)) && r.1
            == CycleAction::Report(CycleOutcome::SubmissionFailed(se))),
        // Confirming: the wait and the receipt's success flag decide.
        state is Confirming ==> (event matches CycleEvent::Confirmed(rc, waited) ==> (if waited
            > confirm_ceiling {
            r.0 == CycleState::Failed(CycleOutcome::ConfirmationTimedOut) && r.1
                == CycleAction::Report(CycleOutcome::ConfirmationTimedOut)
        } else if rc.success {
            r.0 == CycleState::Done(rc) && r.1 == CycleAction::Report(CycleOutcome::Success(rc))
        } else {
            r.0 == CycleState::Failed(CycleOutcome::SubmissionFailed(SubmissionError::Reverted))
                && r.1 == CycleAction::Report(
                CycleOutcome::SubmissionFailed(SubmissionError::Reverted),
            )
        })),
        state is Confirming && event is TimedOut ==> r.0 == CycleState::Failed(
            CycleOutcome::ConfirmationTimedOut,
        ) && r.1 == CycleAction::Report(CycleOutcome::ConfirmationTimedOut),
{
    match (state, event) {
        (CycleState::Idle, CycleEvent::Tick) => (CycleState::Fetching, CycleAction::StartFetch),
        (CycleState::Done(_), CycleEvent::Tick) => (CycleState::Fetching, CycleAction::StartFetch),
        (CycleState::Failed(_), CycleEvent::Tick) => (
            CycleState::Fetching,
            CycleAction::StartFetch,
        ),
        (CycleState::Fetching, CycleEvent::BodyReceived(b)) => match parse_quote(b.as_slice()) {
            Ok(q) => (CycleState::Converting(q), CycleAction::Convert),
            Err(err) => (
                CycleState::Failed(CycleOutcome::FetchFailed(err)),
                CycleAction::Report(CycleOutcome::FetchFailed(err)),
            ),
        },
        (CycleState::Fetching, CycleEvent::NetworkFailed) => (
            CycleState::Failed(CycleOutcome::FetchFailed(FetchError::Network)),
            CycleAction::Report(CycleOutcome::FetchFailed(FetchError::Network)),
        ),
        (CycleState::Fetching, CycleEvent::BadStatus(st)) => (
            CycleState::Failed(CycleOutcome::FetchFailed(FetchError::Status(st))),
            CycleAction::Report(CycleOutcome::FetchFailed(FetchError::Status(st))),
        ),
        (CycleState::Converting(q), CycleEvent::Advance) => match convert(&q) {
            Ok(p) => (CycleState::Submitting(p), CycleAction::Submit(p)),
            Err(ce) => (
                CycleState::Failed(CycleOutcome::ConversionFailed(ce)),
                CycleAction::Report(CycleOutcome::ConversionFailed(ce)),
            ),
        },
        (CycleState::Submitting(_), CycleEvent::Broadcasted) => (
            CycleState::Confirming,
            CycleAction::AwaitConfirmation,
        ),
        (CycleState::Submitting(_), CycleEvent::BroadcastFailed(se)) => (
            CycleState::Failed(CycleOutcome::SubmissionFailed(se)),
            CycleAction::Report(CycleOutcome::SubmissionFailed(se)),
        ),
        (CycleState::Confirming, CycleEvent::Confirmed(rc, waited)) => {
            if waited > confirm_ceiling {
                (
                    CycleState::Failed(CycleOutcome::ConfirmationTimedOut),
                    CycleAction::Report(CycleOutcome::ConfirmationTimedOut),
                )
            } else if rc.success {
                (CycleState::Done(rc), CycleAction::Report(CycleOutcome::Success(rc)))
            } else {
                (
                    CycleState::Failed(CycleOutcome::SubmissionFailed(SubmissionError::Reverted)),
                    CycleAction::Report(
                        CycleOutcome::SubmissionFailed(SubmissionError::Reverted),
                    ),
                )
            }
        },
        (CycleState::Confirming, CycleEvent::TimedOut) => (
            CycleState::Failed(CycleOutcome::ConfirmationTimedOut),
            CycleAction::Report(CycleOutcome::ConfirmationTimedOut),
        ),
        (s2, _) => (s2, CycleAction::Wait),
    }
}

} // verus!
