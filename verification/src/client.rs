//! The session core: registration, the connection state machine, and the
//! dispatch of decoded messages.
//!
//! The caller owns the transport.  It registers handlers, asks
//! `begin_session` for the keys to subscribe to, performs the I/O, and
//! feeds every decoded message to `process_message`, which checks sequence
//! continuity, verifies the subscription acknowledgment, and invokes the
//! handler registered for each ticker's instrument key.  The returned
//! report says what was done; an error in it terminates the session.

use vstd::prelude::*;

use crate::dispatch::{routable, run_events, run_tickers, UnroutablePolicy};
use crate::errors::ClientError;
use crate::models::{Event, Ticker, WebSocketMessage};
use crate::registry::{
    lemma_lookup_contains, HandlerEntry, HandlerRegistry, TickerHandler,
};
use crate::sequence::{sequence_step, SequenceCheck, SequenceTracker};
use crate::subscription::verify_subscriptions;

verus! {

/// The lifecycle of one session.
#[derive(Clone, Copy, Debug, PartialEq, Eq, Structural)]
pub enum SessionState {
    /// No connection yet: handlers may be registered.
    Disconnected,
    /// The caller was handed the keys and is establishing the transport.
    Connecting,
    /// The transport is up; the subscription request is being sent.
    Subscribing,
    /// Messages are being received and dispatched.
    Streaming,
    /// The session is over; a new client must be built to reconnect.
    Closed,
}

/// What to do when a frame fails structural parsing.
#[derive(Clone, Copy, Debug, PartialEq, Eq, Structural)]
pub enum DecodePolicy {
    /// Drop the frame and keep reading.  This is the default.
    SkipAndContinue,
    /// Terminate the session with `ClientError::DecodeError`.
    Abort,
}

/// What one call of `process_message` did.
#[derive(Debug)]
pub struct DispatchReport {
    /// How the message's sequence number was classified.
    pub sequence: SequenceCheck,
    /// For each ticker delivered, in delivery order: the position of the
    /// invoked handler in registration order, and the ticker it received.
    pub deliveries: Vec<(usize, Ticker)>,
    /// `Ok` to keep the session running, or the fatal error to end it.
    pub result: Result<(), ClientError>,
}

/// The tickers of a delivery list, in order.
pub open spec fn delivery_views(ds: Seq<(usize, Ticker)>) -> Seq<Ticker> {
    ds.map_values(|p: (usize, Ticker)| p.1)
}

/// Route one batch of tickers through the registry, as
/// `run_tickers` describes: each routable ticker is cloned and handed to
/// its handler, and recorded in `deliveries` with the handler's position.
fn route_tickers<H: TickerHandler>(
    registry: &HandlerRegistry<H>,
    policy: UnroutablePolicy,
    tickers: &Vec<Ticker>,
    deliveries: &mut Vec<(usize, Ticker)>,
) -> (err: Option<ClientError>)
    requires
        registry.wf(),
    ensures
        ({
            let rt = run_tickers(tickers@, registry.spec_keys(), policy);
            err == rt.1
            && final(deliveries)@.len() == old(deliveries)@.len() + rt.0.len()
            && (forall|j: int| 0 <= j < old(deliveries)@.len()
                ==> final(deliveries)@[j] == old(deliveries)@[j])
            && delivery_views(final(deliveries)@.skip(old(deliveries)@.len() as int)) =~= rt.0
            && (forall|j: int| old(deliveries)@.len() <= j < final(deliveries)@.len()
                ==> ((#[trigger] final(deliveries)@[j]).0 as int)
                    < registry.spec_keys().len()
                    && registry.spec_keys()[final(deliveries)@[j].0 as int]
                        == final(deliveries)@[j].1.product_id@)
        }),
{
    let ghost keys = registry.spec_keys();
    let ghost rt = run_tickers(tickers@, keys, policy);
    let ghost base = old(deliveries)@;
    proof {
        assert(tickers@.skip(0int) =~= tickers@);
        assert(deliveries@.skip(base.len() as int) =~= Seq::<(usize, Ticker)>::empty());
        assert(delivery_views(deliveries@.skip(base.len() as int)) + rt.0 =~= rt.0);
    }
    let n = tickers.len();
    let mut k: usize = 0;
    while k < n
        invariant
            registry.wf(),
            keys == registry.spec_keys(),
            rt == run_tickers(tickers@, keys, policy),
            n == tickers@.len(),
            k <= n,
            base == old(deliveries)@,
            base.len() <= deliveries@.len(),
            forall|j: int| 0 <= j < base.len() ==> deliveries@[j] == base[j],
            ({
                let rest = run_tickers(tickers@.skip(k as int), keys, policy);
                rt.0 =~= delivery_views(deliveries@.skip(base.len() as int)) + rest.0
                && rt.1 == rest.1
            }),
            forall|j: int| base.len() <= j < deliveries@.len()
                ==> ((#[trigger] deliveries@[j]).0 as int) < keys.len()
                    && keys[deliveries@[j].0 as int] == deliveries@[j].1.product_id@,
        decreases n - k,
    {
        proof {
            assert(tickers@.skip(k as int)[0] == tickers@[k as int]);
            assert(tickers@.skip(k as int).drop_first() =~= tickers@.skip(k as int + 1));
        }
        let ticker = &tickers[k];
        let found = registry.lookup_index(&ticker.product_id);
        match found {
            Some(idx) => {
                proof {
                    lemma_lookup_contains(registry@, ticker.product_id@);
                    assert(keys[idx as int] == tickers@[k as int].product_id@);
                    assert(routable(tickers@[k as int], keys));
                }
                let ghost before = deliveries@;
                registry.invoke(idx, ticker.clone());
                deliveries.push((idx, ticker.clone()));
                proof {
                    let rest_now = run_tickers(tickers@.skip(k as int + 1), keys, policy);
                    assert(run_tickers(tickers@.skip(k as int), keys, policy).0
                        == seq![tickers@[k as int]] + rest_now.0);
                    assert(deliveries@.skip(base.len() as int)
                        =~= before.skip(base.len() as int).push(deliveries@.last()));
                    assert(delivery_views(deliveries@.skip(base.len() as int))
                        =~= delivery_views(before.skip(base.len() as int)).push(
                        tickers@[k as int],
                    ));
                    assert(rt.0 =~= delivery_views(deliveries@.skip(base.len() as int))
                        + rest_now.0);
                }
            },
            None => {
                proof {
                    lemma_lookup_contains(registry@, ticker.product_id@);
                    assert(!routable(tickers@[k as int], keys));
                }
                if matches!(policy, UnroutablePolicy::Fatal) {
                    proof {
                        assert(run_tickers(tickers@.skip(k as int), keys, policy).1
                            == Some(ClientError::UnroutableEvent));
                        assert(rt.0 =~= delivery_views(deliveries@.skip(base.len() as int)));
                    }
                    return Some(ClientError::UnroutableEvent);
                }
            },
        }
        k += 1;
    }
    proof {
        assert(tickers@.skip(n as int) =~= Seq::<Ticker>::empty());
        assert(rt.0 =~= delivery_views(deliveries@.skip(base.len() as int)));
    }
    None
}

/// The session object: the handler registry, the sequence tracker, the
/// configured policies, and the connection lifecycle state.
pub struct CoinbaseWebSocketClient<H> {
    registry: HandlerRegistry<H>,
    tracker: SequenceTracker,
    sub_checked: bool,
    unroutable_policy: UnroutablePolicy,
    decode_policy: DecodePolicy,
    state: SessionState,
}

impl<H> CoinbaseWebSocketClient<H> {
    /// The registered bindings, in registration order.
    pub closed spec fn handlers(&self) -> Seq<HandlerEntry<H>> {
        self.registry@
    }

    /// The registered keys, in registration order.
    pub closed spec fn registered_keys(&self) -> Seq<Seq<char>> {
        self.registry.spec_keys()
    }

    /// Whether a first message has been recorded on this connection.
    pub closed spec fn seq_started(&self) -> bool {
        self.tracker.spec_started()
    }

    /// The last sequence number that advanced the stored state.
    pub closed spec fn seq_last(&self) -> u64 {
        self.tracker.spec_last()
    }

    /// Whether the subscription acknowledgment has been verified on this
    /// connection.
    pub closed spec fn spec_sub_checked(&self) -> bool {
        self.sub_checked
    }

    /// The configured handling of unroutable tickers.
    pub closed spec fn spec_unroutable_policy(&self) -> UnroutablePolicy {
        self.unroutable_policy
    }

    /// The configured handling of decode failures.
    pub closed spec fn spec_decode_policy(&self) -> DecodePolicy {
        self.decode_policy
    }

    /// Where the session stands in its lifecycle.
    pub closed spec fn spec_state(&self) -> SessionState {
        self.state
    }

    /// Keys are bound at most once and the tracker state is coherent.
    pub closed spec fn wf(&self) -> bool {
        self.registry.wf() && self.tracker.wf()
    }
}

impl<H: TickerHandler> CoinbaseWebSocketClient<H> {
    /// A fresh client: no handlers, nothing seen, disconnected.  Default
    /// policies: an unroutable ticker is fatal, a decode failure is
    /// skipped.
    pub fn new() -> (r: Self)
        ensures
            r.wf(),
            r.handlers() == Seq::<HandlerEntry<H>>::empty(),
            !r.seq_started(),
            r.seq_last() == 0,
            !r.spec_sub_checked(),
            r.spec_unroutable_policy() == UnroutablePolicy::Fatal,
            r.spec_decode_policy() == DecodePolicy::SkipAndContinue,
            r.spec_state() == SessionState::Disconnected,
    {
        CoinbaseWebSocketClient {
            registry: HandlerRegistry::new(),
            tracker: SequenceTracker::new(),
            sub_checked: false,
            unroutable_policy: UnroutablePolicy::Fatal,
            decode_policy: DecodePolicy::SkipAndContinue,
            state: SessionState::Disconnected,
        }
    }

    /// Choose what an unroutable ticker does, before connecting.
    pub fn set_unroutable_policy(&mut self, policy: UnroutablePolicy)
        requires
            old(self).spec_state() == SessionState::Disconnected,
        ensures
            final(self).spec_unroutable_policy() == policy,
            final(self).wf() == old(self).wf(),
            final(self).handlers() == old(self).handlers(),
            final(self).seq_started() == old(self).seq_started(),
            final(self).seq_last() == old(self).seq_last(),
            final(self).spec_sub_checked() == old(self).spec_sub_checked(),
            final(self).spec_decode_policy() == old(self).spec_decode_policy(),
            final(self).spec_state() == old(self).spec_state(),
    {
        self.unroutable_policy = policy;
    }

    /// Choose what a decode failure does, before connecting.
    pub fn set_decode_policy(&mut self, policy: DecodePolicy)
        requires
            old(self).spec_state() == SessionState::Disconnected,
        ensures
            final(self).spec_decode_policy() == policy,
            final(self).wf() == old(self).wf(),
            final(self).handlers() == old(self).handlers(),
            final(self).seq_started() == old(self).seq_started(),
            final(self).seq_last() == old(self).seq_last(),
            final(self).spec_sub_checked() == old(self).spec_sub_checked(),
            final(self).spec_unroutable_policy() == old(self).spec_unroutable_policy(),
            final(self).spec_state() == old(self).spec_state(),
    {
        self.decode_policy = policy;
    }

    /// Bind `handler` to `product_id`, overwriting any prior binding.
    /// Registration happens before the connection is opened; the
    /// registered keys build the subscription request.
    pub fn register_handler(&mut self, product_id: String, handler: H)
        requires
            old(self).wf(),
            old(self).spec_state() == SessionState::Disconnected,
        ensures
            final(self).wf(),
            match crate::registry::spec_lookup(old(self).handlers(), product_id@) {
                Some(i) => final(self).handlers() == old(self).handlers().update(
                    i,
                    HandlerEntry { key: product_id, handler: handler },
                ) && final(self).registered_keys() =~= old(self).registered_keys(),
                None => final(self).handlers() == old(self).handlers().push(
                    HandlerEntry { key: product_id, handler: handler },
                ) && final(self).registered_keys()
                    =~= old(self).registered_keys().push(product_id@),
            },
            final(self).registered_keys().contains(product_id@),
            final(self).seq_started() == old(self).seq_started(),
            final(self).seq_last() == old(self).seq_last(),
            final(self).spec_sub_checked() == old(self).spec_sub_checked(),
            final(self).spec_unroutable_policy() == old(self).spec_unroutable_policy(),
            final(self).spec_decode_policy() == old(self).spec_decode_policy(),
            final(self).spec_state() == SessionState::Disconnected,
    {
        self.registry.register(product_id, handler);
    }

    /// Start a session: with no handler registered there is nothing to
    /// subscribe to, and the client refuses before any I/O with
    /// `ConfigurationError`.  Otherwise the sequence tracker and the
    /// acknowledgment check are reset for the new connection and the
    /// caller receives the keys to subscribe to, in registration order.
    pub fn begin_session(&mut self) -> (r: Result<Vec<String>, ClientError>)
        requires
            old(self).wf(),
            old(self).spec_state() == SessionState::Disconnected,
        ensures
            final(self).wf(),
            final(self).handlers() == old(self).handlers(),
            final(self).spec_unroutable_policy() == old(self).spec_unroutable_policy(),
            final(self).spec_decode_policy() == old(self).spec_decode_policy(),
            old(self).handlers().len() == 0 ==> r == Err::<Vec<String>, ClientError>(
                ClientError::ConfigurationError,
            ) && *final(self) == *old(self),
            old(self).handlers().len() > 0 ==> ({
                &&& r matches Ok(ids)
                &&& ids@.len() == old(self).handlers().len()
                &&& forall|i: int| 0 <= i < ids@.len()
                    ==> ids@[i] == old(self).handlers()[i].key
                &&& final(self).spec_state() == SessionState::Connecting
                &&& !final(self).seq_started()
                &&& final(self).seq_last() == 0
                &&& !final(self).spec_sub_checked()
            }),
    {
        if self.registry.is_empty() {
            return Err(ClientError::ConfigurationError);
        }
        self.tracker = SequenceTracker::new();
        self.sub_checked = false;
        self.state = SessionState::Connecting;
        Ok(self.registry.product_ids())
    }

    /// The transport is up: move on to sending the subscription request.
    pub fn connection_established(&mut self)
        requires
            old(self).spec_state() == SessionState::Connecting,
        ensures
            final(self).spec_state() == SessionState::Subscribing,
            final(self).wf() == old(self).wf(),
            final(self).handlers() == old(self).handlers(),
            final(self).seq_started() == old(self).seq_started(),
            final(self).seq_last() == old(self).seq_last(),
            final(self).spec_sub_checked() == old(self).spec_sub_checked(),
            final(self).spec_unroutable_policy() == old(self).spec_unroutable_policy(),
            final(self).spec_decode_policy() == old(self).spec_decode_policy(),
    {
        self.state = SessionState::Subscribing;
    }

    /// The subscription request went out: start streaming.
    pub fn subscription_sent(&mut self)
        requires
            old(self).spec_state() == SessionState::Subscribing,
        ensures
            final(self).spec_state() == SessionState::Streaming,
            final(self).wf() == old(self).wf(),
            final(self).handlers() == old(self).handlers(),
            final(self).seq_started() == old(self).seq_started(),
            final(self).seq_last() == old(self).seq_last(),
            final(self).spec_sub_checked() == old(self).spec_sub_checked(),
            final(self).spec_unroutable_policy() == old(self).spec_unroutable_policy(),
            final(self).spec_decode_policy() == old(self).spec_decode_policy(),
    {
        self.state = SessionState::Streaming;
    }

    /// Dispatch one decoded message.
    ///
    /// The sequence number is classified first; a regressed message is
    /// discarded whole and the session continues.  Otherwise the events
    /// are dispatched in order as `run_events` describes: each routable
    /// ticker is handed, as a copy, to the handler registered for its
    /// instrument key, exactly once and in arrival order; the first
    /// subscription acknowledgment is verified; the first fatal failure
    /// stops the work and is returned in the report.
    pub fn process_message(&mut self, msg: WebSocketMessage) -> (r: DispatchReport)
        requires
            old(self).wf(),
            old(self).spec_state() == SessionState::Streaming,
        ensures
            final(self).wf(),
            final(self).spec_state() == SessionState::Streaming,
            final(self).handlers() == old(self).handlers(),
            final(self).spec_unroutable_policy() == old(self).spec_unroutable_policy(),
            final(self).spec_decode_policy() == old(self).spec_decode_policy(),
            ({
                let step = sequence_step(
                    old(self).seq_started(),
                    old(self).seq_last(),
                    msg.sequence_num,
                );
                r.sequence == step.0
                && final(self).seq_started() == step.1
                && final(self).seq_last() == step.2
            }),
            r.sequence == SequenceCheck::Regressed ==> r.deliveries@.len() == 0
                && r.result == Ok::<(), ClientError>(())
                && final(self).spec_sub_checked() == old(self).spec_sub_checked(),
            r.sequence != SequenceCheck::Regressed ==> ({
                let m = run_events(
                    msg.events@,
                    old(self).registered_keys(),
                    old(self).spec_sub_checked(),
                    old(self).spec_unroutable_policy(),
                );
                delivery_views(r.deliveries@) =~= m.delivered
                && final(self).spec_sub_checked() == m.sub_checked
                && r.result == match m.error {
                    Some(e) => Err::<(), ClientError>(e),
                    None => Ok::<(), ClientError>(()),
                }
            }),
            forall|j: int| 0 <= j < r.deliveries@.len()
                ==> ((#[trigger] r.deliveries@[j]).0 as int) < old(self).registered_keys().len()
                    && old(self).registered_keys()[r.deliveries@[j].0 as int]
                        == r.deliveries@[j].1.product_id@,
    {
        let ghost keys = old(self).registered_keys();
        let ghost policy = old(self).spec_unroutable_policy();
        let ghost sub0 = old(self).spec_sub_checked();
        let ghost m = run_events(msg.events@, keys, sub0, policy);
        let c = self.tracker.check(msg.sequence_num);
        if c == SequenceCheck::Regressed {
            return DispatchReport { sequence: c, deliveries: Vec::new(), result: Ok(()) };
        }
        let mut deliveries: Vec<(usize, Ticker)> = Vec::new();
        proof {
            assert(msg.events@.skip(0int) =~= msg.events@);
            assert(delivery_views(deliveries@) + m.delivered =~= m.delivered);
        }
        let n = msg.events.len();
        let mut i: usize = 0;
        while i < n
            invariant
                self.wf(),
                self.spec_state() == SessionState::Streaming,
                self.handlers() == old(self).handlers(),
                keys == self.registered_keys(),
                keys == old(self).registered_keys(),
                sub0 == old(self).spec_sub_checked(),
                policy == self.spec_unroutable_policy(),
                self.spec_unroutable_policy() == old(self).spec_unroutable_policy(),
                self.spec_decode_policy() == old(self).spec_decode_policy(),
                ({
                    let step = sequence_step(
                        old(self).seq_started(),
                        old(self).seq_last(),
                        msg.sequence_num,
                    );
                    c == step.0 && self.seq_started() == step.1 && self.seq_last() == step.2
                }),
                c != SequenceCheck::Regressed,
                m == run_events(msg.events@, keys, sub0, policy),
                n == msg.events@.len(),
                i <= n,
                ({
                    let rest = run_events(
                        msg.events@.skip(i as int),
                        keys,
                        self.spec_sub_checked(),
                        policy,
                    );
                    m.delivered =~= delivery_views(deliveries@) + rest.delivered
                    && m.sub_checked == rest.sub_checked
                    && m.error == rest.error
                }),
                forall|j: int| 0 <= j < deliveries@.len()
                    ==> ((#[trigger] deliveries@[j]).0 as int) < keys.len()
                        && keys[deliveries@[j].0 as int] == deliveries@[j].1.product_id@,
            decreases n - i,
        {
            proof {
                assert(msg.events@.skip(i as int)[0] == msg.events@[i as int]);
                assert(msg.events@.skip(i as int).drop_first() =~= msg.events@.skip(i as int + 1));
            }
            let ghost sub_i = self.spec_sub_checked();
            match &msg.events[i] {
                Event::TickerEvent { event_type, tickers } => {
                    proof {
                        assert(msg.events@[i as int] == Event::TickerEvent {
                            event_type: *event_type,
                            tickers: *tickers,
                        });
                    }
                    let ghost dpre = deliveries@;
                    let err = route_tickers(
                        &self.registry,
                        self.unroutable_policy,
                        tickers,
                        &mut deliveries,
                    );
                    proof {
                        let rt = run_tickers(tickers@, keys, policy);
                        assert(delivery_views(deliveries@) =~= delivery_views(dpre) + rt.0) by {
                            assert(delivery_views(deliveries@).len()
                                == (delivery_views(dpre) + rt.0).len());
                            assert forall|t: int| 0 <= t < deliveries@.len() implies
                                delivery_views(deliveries@)[t]
                                    == (delivery_views(dpre) + rt.0)[t] by {
                                if t < dpre.len() {
                                    assert(deliveries@[t] == dpre[t]);
                                } else {
                                    assert(delivery_views(
                                        deliveries@.skip(dpre.len() as int),
                                    )[t - dpre.len()] == rt.0[t - dpre.len()]);
                                    assert(deliveries@.skip(dpre.len() as int)[t - dpre.len()]
                                        == deliveries@[t]);
                                }
                            }
                        }
                    }
                    match err {
                        Some(e) => {
                            proof {
                                let rt = run_tickers(tickers@, keys, policy);
                                let rest = run_events(
                                    msg.events@.skip(i as int),
                                    keys,
                                    sub_i,
                                    policy,
                                );
                                assert(rest.error == Some(e));
                                assert(rest.delivered == rt.0);
                                assert(m.error == Some(e));
                                assert(m.delivered =~= delivery_views(deliveries@));
                            }
                            return DispatchReport {
                                sequence: c,
                                deliveries: deliveries,
                                result: Err(e),
                            };
                        },
                        None => {
                            proof {
                                let rt = run_tickers(tickers@, keys, policy);
                                let rest_next = run_events(
                                    msg.events@.skip(i as int + 1),
                                    keys,
                                    sub_i,
                                    policy,
                                );
                                assert(run_events(msg.events@.skip(i as int), keys, sub_i, policy)
                                    .delivered == rt.0 + rest_next.delivered);
                                assert(delivery_views(dpre) + (rt.0 + rest_next.delivered)
                                    =~= delivery_views(deliveries@) + rest_next.delivered);
                            }
                        },
                    }
                },
                Event::SubscriptionEvent { subscriptions } => {
                    proof {
                        assert(msg.events@[i as int] == Event::SubscriptionEvent {
                            subscriptions: *subscriptions,
                        });
                    }
                    if self.sub_checked {
                        proof {
                            let rest_next = run_events(
                                msg.events@.skip(i as int + 1),
                                keys,
                                true,
                                policy,
                            );
                            assert(run_events(msg.events@.skip(i as int), keys, true, policy)
                                .delivered == Seq::<Ticker>::empty() + rest_next.delivered);
                            assert(Seq::<Ticker>::empty() + rest_next.delivered
                                =~= rest_next.delivered);
                        }
                    } else {
                        let v = verify_subscriptions(subscriptions, &self.registry);
                        match v {
                            Ok(_) => {
                                self.sub_checked = true;
                                proof {
                                    let rest_next = run_events(
                                        msg.events@.skip(i as int + 1),
                                        keys,
                                        true,
                                        policy,
                                    );
                                    assert(run_events(
                                        msg.events@.skip(i as int),
                                        keys,
                                        false,
                                        policy,
                                    ).delivered == Seq::<Ticker>::empty() + rest_next.delivered);
                                    assert(Seq::<Ticker>::empty() + rest_next.delivered
                                        =~= rest_next.delivered);
                                }
                            },
                            Err(e) => {
                                proof {
                                    let rest = run_events(
                                        msg.events@.skip(i as int),
                                        keys,
                                        false,
                                        policy,
                                    );
                                    assert(rest.error == Some(e));
                                    assert(rest.delivered == Seq::<Ticker>::empty());
                                    assert(m.error == Some(e));
                                    assert(m.delivered
                                        =~= delivery_views(deliveries@) + Seq::<Ticker>::empty());
                                    assert(delivery_views(deliveries@) + Seq::<Ticker>::empty()
                                        =~= delivery_views(deliveries@));
                                }
                                return DispatchReport {
                                    sequence: c,
                                    deliveries: deliveries,
                                    result: Err(e),
                                };
                            },
                        }
                    }
                },
            }
            i += 1;
        }
        proof {
            assert(msg.events@.skip(n as int) =~= Seq::<Event>::empty());
            assert(m.delivered =~= delivery_views(deliveries@));
        }
        DispatchReport { sequence: c, deliveries: deliveries, result: Ok(()) }
    }

    /// A frame failed structural parsing.  Under the default policy the
    /// frame is dropped and the session continues; under the aborting
    /// policy the session closes with `DecodeError`.
    pub fn decode_failure(&mut self) -> (r: Result<(), ClientError>)
        requires
            old(self).wf(),
            old(self).spec_state() == SessionState::Streaming,
        ensures
            final(self).wf(),
            final(self).handlers() == old(self).handlers(),
            old(self).spec_decode_policy() == DecodePolicy::SkipAndContinue
                ==> r == Ok::<(), ClientError>(()) && *final(self) == *old(self),
            old(self).spec_decode_policy() == DecodePolicy::Abort
                ==> r == Err::<(), ClientError>(ClientError::DecodeError)
                    && final(self).spec_state() == SessionState::Closed,
    {
        match self.decode_policy {
            DecodePolicy::SkipAndContinue => Ok(()),
            DecodePolicy::Abort => {
                self.state = SessionState::Closed;
                Err(ClientError::DecodeError)
            },
        }
    }

    /// The peer closed the connection cleanly: the session is over.
    pub fn peer_closed(&mut self)
        requires
            old(self).spec_state() == SessionState::Streaming,
        ensures
            final(self).spec_state() == SessionState::Closed,
            final(self).wf() == old(self).wf(),
            final(self).handlers() == old(self).handlers(),
    {
        self.state = SessionState::Closed;
    }

    /// The connection failed or closed abnormally: the session is over
    /// and the terminal result is a transport error.  There is no
    /// internal retry.
    pub fn transport_failed(&mut self) -> (r: ClientError)
        requires
            old(self).spec_state() == SessionState::Streaming,
        ensures
            r == ClientError::TransportError,
            final(self).spec_state() == SessionState::Closed,
            final(self).wf() == old(self).wf(),
            final(self).handlers() == old(self).handlers(),
    {
        self.state = SessionState::Closed;
        ClientError::TransportError
    }

    /// Where the session stands in its lifecycle.
    pub fn state(&self) -> (r: SessionState)
        ensures
            r == self.spec_state(),
    {
        self.state
    }

    /// The last sequence number that advanced the stored state.
    pub fn last_sequence_number(&self) -> (n: u64)
        ensures
            n == self.seq_last(),
    {
        self.tracker.last()
    }

    /// Whether the subscription acknowledgment has been verified on this
    /// connection.
    pub fn subscription_checked(&self) -> (b: bool)
        ensures
            b == self.spec_sub_checked(),
    {
        self.sub_checked
    }

    /// How many keys have a handler registered.
    pub fn handler_count(&self) -> (n: usize)
        ensures
            n == self.handlers().len(),
    {
        self.registry.len()
    }
}

} // verus!
