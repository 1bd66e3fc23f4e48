//! The mathematical model of envelope dispatch.
//!
//! `run_tickers` and `run_events` say, for a given set of registered keys
//! and a routing policy, which ticker records an envelope's events deliver
//! to handlers, in what order, whether the subscription acknowledgment
//! gets checked, and which error — if any — stops the work.  The session's
//! `process_message` is proved to follow this model.

use vstd::prelude::*;

use crate::errors::ClientError;
use crate::models::{Event, Ticker};
use crate::subscription::subscription_ok;

verus! {

/// What to do with a ticker whose instrument key has no registered
/// handler.
#[derive(Clone, Copy, Debug, PartialEq, Eq, Structural)]
pub enum UnroutablePolicy {
    /// Treat the unroutable ticker as a fatal integrity failure: dispatch
    /// stops and the session terminates with `ClientError::UnroutableEvent`.
    Fatal,
    /// Drop the unroutable ticker and keep going.
    DropAndContinue,
}

/// The outcome of dispatching a batch of events: the tickers delivered to
/// handlers in order, whether the subscription acknowledgment has been
/// checked after the batch, and the error that stopped the work, if any.
pub struct DispatchModel {
    /// The tickers handed to handlers, in delivery order.
    pub delivered: Seq<Ticker>,
    /// Whether the subscription acknowledgment has been verified.
    pub sub_checked: bool,
    /// The failure that stopped dispatch, if one did.
    pub error: Option<ClientError>,
}

/// Whether `keys` registers a handler for `t`'s instrument key.
pub open spec fn routable(t: Ticker, keys: Seq<Seq<char>>) -> bool {
    keys.contains(t.product_id@)
}

/// Route a batch of tickers: each routable ticker is delivered, in order;
/// an unroutable one either aborts dispatch or is dropped, as the policy
/// says.
pub open spec fn run_tickers(
    ts: Seq<Ticker>,
    keys: Seq<Seq<char>>,
    policy: UnroutablePolicy,
) -> (Seq<Ticker>, Option<ClientError>)
    decreases ts.len(),
{
    if ts.len() == 0 {
        (Seq::<Ticker>::empty(), None::<ClientError>)
    } else if routable(ts[0], keys) {
        let rest = run_tickers(ts.drop_first(), keys, policy);
        (seq![ts[0]] + rest.0, rest.1)
    } else if policy == UnroutablePolicy::Fatal {
        (Seq::<Ticker>::empty(), Some(ClientError::UnroutableEvent))
    } else {
        run_tickers(ts.drop_first(), keys, policy)
    }
}

/// Dispatch one event.  A ticker event routes its tickers; a subscription
/// event is verified once per connection — the first one is checked and a
/// mismatch is fatal, later ones are ignored.
pub open spec fn run_event(
    e: Event,
    keys: Seq<Seq<char>>,
    sub_checked: bool,
    policy: UnroutablePolicy,
) -> DispatchModel {
    match e {
        Event::TickerEvent { event_type: _, tickers } => {
            let r = run_tickers(tickers@, keys, policy);
            DispatchModel { delivered: r.0, sub_checked: sub_checked, error: r.1 }
        },
        Event::SubscriptionEvent { subscriptions } => {
            if sub_checked {
                DispatchModel {
                    delivered: Seq::<Ticker>::empty(),
                    sub_checked: true,
                    error: None,
                }
            } else if subscription_ok(subscriptions@, keys) {
                DispatchModel {
                    delivered: Seq::<Ticker>::empty(),
                    sub_checked: true,
                    error: None,
                }
            } else {
                DispatchModel {
                    delivered: Seq::<Ticker>::empty(),
                    sub_checked: false,
                    error: Some(ClientError::SubscriptionMismatch),
                }
            }
        },
    }
}

/// Dispatch a batch of events in order, stopping at the first fatal
/// failure.
pub open spec fn run_events(
    events: Seq<Event>,
    keys: Seq<Seq<char>>,
    sub_checked: bool,
    policy: UnroutablePolicy,
) -> DispatchModel
    decreases events.len(),
{
    if events.len() == 0 {
        DispatchModel { delivered: Seq::<Ticker>::empty(), sub_checked: sub_checked, error: None }
    } else {
        let first = run_event(events[0], keys, sub_checked, policy);
        if first.error is Some {
            first
        } else {
            let rest = run_events(events.drop_first(), keys, first.sub_checked, policy);
            DispatchModel {
                delivered: first.delivered + rest.delivered,
                sub_checked: rest.sub_checked,
                error: rest.error,
            }
        }
    }
}

/// Law: when every ticker in the batch has a registered handler, each is
/// delivered exactly once, unchanged and in arrival order, under either
/// routing policy, and no error is raised.
pub proof fn lemma_registered_tickers_delivered(
    ts: Seq<Ticker>,
    keys: Seq<Seq<char>>,
    policy: UnroutablePolicy,
)
    requires
        forall|j: int| 0 <= j < ts.len() ==> routable(ts[j], keys),
    ensures
        run_tickers(ts, keys, policy).0 =~= ts,
        run_tickers(ts, keys, policy).1 is None,
    decreases ts.len(),
{
    if ts.len() > 0 {
        assert(forall|j: int| 0 <= j < ts.drop_first().len() ==> ts.drop_first()[j] == ts[j + 1]);
        lemma_registered_tickers_delivered(ts.drop_first(), keys, policy);
    }
}

/// Law: under the fatal policy, a batch whose first unroutable ticker
/// stands at position `i` delivers exactly the tickers before it and stops
/// with an unroutable-event error.
pub proof fn lemma_unroutable_fatal(ts: Seq<Ticker>, keys: Seq<Seq<char>>, i: int)
    requires
        0 <= i < ts.len(),
        !routable(ts[i], keys),
        forall|j: int| 0 <= j < i ==> routable(ts[j], keys),
    ensures
        run_tickers(ts, keys, UnroutablePolicy::Fatal).0 =~= ts.take(i),
        run_tickers(ts, keys, UnroutablePolicy::Fatal).1
            == Some(ClientError::UnroutableEvent),
    decreases i,
{
    if i > 0 {
        assert(forall|j: int| 0 <= j < ts.drop_first().len() ==> ts.drop_first()[j] == ts[j + 1]);
        lemma_unroutable_fatal(ts.drop_first(), keys, i - 1);
        assert(seq![ts[0]] + ts.drop_first().take(i - 1) =~= ts.take(i));
    }
}

/// How `Seq::filter` unfolds from the front.
proof fn lemma_filter_first<A>(s: Seq<A>, pred: spec_fn(A) -> bool)
    requires
        s.len() > 0,
    ensures
        s.filter(pred) == if pred(s[0]) {
            seq![s[0]] + s.drop_first().filter(pred)
        } else {
            s.drop_first().filter(pred)
        },
{
    let head = s.subrange(0, 1);
    assert(s =~= head + s.drop_first());
    Seq::filter_distributes_over_add(head, s.drop_first(), pred);
    reveal_with_fuel(Seq::filter, 3);
    assert(head.len() == 1);
    assert(head.drop_last() =~= Seq::<A>::empty());
    assert(head.last() == s[0]);
    if pred(s[0]) {
        assert(head.filter(pred) =~= seq![s[0]]);
    } else {
        assert(head.filter(pred) =~= Seq::<A>::empty());
        assert(Seq::<A>::empty() + s.drop_first().filter(pred) =~= s.drop_first().filter(pred));
    }
}

/// Law: under the dropping policy no batch raises an error, and what is
/// delivered is exactly the routable tickers, in arrival order.
pub proof fn lemma_unroutable_dropped(ts: Seq<Ticker>, keys: Seq<Seq<char>>)
    ensures
        run_tickers(ts, keys, UnroutablePolicy::DropAndContinue).0
            =~= ts.filter(|t: Ticker| routable(t, keys)),
        run_tickers(ts, keys, UnroutablePolicy::DropAndContinue).1 is None,
    decreases ts.len(),
{
    let pred = |t: Ticker| routable(t, keys);
    if ts.len() == 0 {
        reveal(Seq::filter);
    } else {
        lemma_unroutable_dropped(ts.drop_first(), keys);
        lemma_filter_first(ts, pred);
    }
}

} // verus!
