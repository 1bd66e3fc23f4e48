use std::cell::RefCell;
use std::rc::Rc;

use coinbase_websocket::client::{
    CoinbaseWebSocketClient, DecodePolicy, SessionState,
};
use coinbase_websocket::dispatch::UnroutablePolicy;
use coinbase_websocket::errors::ClientError;
use coinbase_websocket::models::{Event, Ticker, WebSocketMessage};
use coinbase_websocket::registry::TickerHandler;
use coinbase_websocket::sequence::SequenceCheck;

struct Recorder {
    calls: Rc<RefCell<Vec<Ticker>>>,
}

impl TickerHandler for Recorder {
    fn on_ticker(&self, ticker: Ticker) {
        self.calls.borrow_mut().push(ticker);
    }
}

fn recorder() -> (Recorder, Rc<RefCell<Vec<Ticker>>>) {
    let calls = Rc::new(RefCell::new(Vec::new()));
    (Recorder { calls: calls.clone() }, calls)
}

fn ticker(product_id: &str, price: &str, kind: &str) -> Ticker {
    Ticker {
        best_ask: "65001.00".to_string(),
        best_ask_quantity: "0.5".to_string(),
        best_bid: "64999.00".to_string(),
        best_bid_quantity: "0.7".to_string(),
        high_24_h: "66000.00".to_string(),
        high_52_w: "70000.00".to_string(),
        low_24_h: "64000.00".to_string(),
        low_52_w: "30000.00".to_string(),
        price: price.to_string(),
        price_percent_chg_24_h: "1.5".to_string(),
        product_id: product_id.to_string(),
        ticker_type: kind.to_string(),
        volume_24_h: "12345.6".to_string(),
    }
}

fn envelope(sequence_num: u64, events: Vec<Event>) -> WebSocketMessage {
    WebSocketMessage {
        channel: "ticker".to_string(),
        client_id: "".to_string(),
        events,
        sequence_num,
        timestamp: "2024-01-01T00:00:00Z".to_string(),
    }
}

fn ticker_event(kind: &str, tickers: Vec<Ticker>) -> Event {
    Event::TickerEvent { event_type: kind.to_string(), tickers }
}

fn subscription_event(keys: &[&str]) -> Event {
    Event::SubscriptionEvent {
        subscriptions: vec![(
            "ticker".to_string(),
            keys.iter().map(|k| k.to_string()).collect(),
        )],
    }
}

/// Bring a client with the given handlers up to the streaming state.
fn streaming(
    handlers: Vec<(&str, Recorder)>,
) -> CoinbaseWebSocketClient<Recorder> {
    let mut c = CoinbaseWebSocketClient::new();
    for (key, h) in handlers {
        c.register_handler(key.to_string(), h);
    }
    let ids = c.begin_session().expect("handlers are registered");
    assert_eq!(c.state(), SessionState::Connecting);
    assert!(!ids.is_empty());
    c.connection_established();
    assert_eq!(c.state(), SessionState::Subscribing);
    c.subscription_sent();
    assert_eq!(c.state(), SessionState::Streaming);
    c
}

#[test]
fn no_handlers_is_a_configuration_error() {
    let mut c: CoinbaseWebSocketClient<Recorder> = CoinbaseWebSocketClient::new();
    assert_eq!(c.begin_session(), Err(ClientError::ConfigurationError));
    assert_eq!(c.state(), SessionState::Disconnected);
}

#[test]
fn begin_session_hands_out_the_registered_keys() {
    let mut c = CoinbaseWebSocketClient::new();
    c.register_handler("BTC-USD".to_string(), recorder().0);
    c.register_handler("ETH-USD".to_string(), recorder().0);
    let ids = c.begin_session().expect("handlers are registered");
    assert_eq!(ids, vec!["BTC-USD".to_string(), "ETH-USD".to_string()]);
}

#[test]
fn registered_ticker_reaches_its_handler_once() {
    let (btc, btc_calls) = recorder();
    let mut c = streaming(vec![("BTC-USD", btc)]);
    let msg = envelope(0, vec![ticker_event("snapshot", vec![ticker(
        "BTC-USD",
        "65000.00",
        "snapshot",
    )])]);
    let report = c.process_message(msg);
    assert_eq!(report.sequence, SequenceCheck::Accept);
    assert_eq!(report.result, Ok(()));
    assert_eq!(report.deliveries.len(), 1);
    assert_eq!(report.deliveries[0].0, 0);
    let calls = btc_calls.borrow();
    assert_eq!(calls.len(), 1);
    assert_eq!(calls[0].product_id, "BTC-USD");
    assert_eq!(calls[0].price, "65000.00");
    assert_eq!(calls[0].ticker_type, "snapshot");
    assert_eq!(calls[0].best_ask, "65001.00");
    assert_eq!(calls[0].volume_24_h, "12345.6");
}

#[test]
fn unroutable_ticker_is_fatal_under_the_fatal_policy() {
    let (btc, btc_calls) = recorder();
    let mut c = CoinbaseWebSocketClient::new();
    c.set_unroutable_policy(UnroutablePolicy::Fatal);
    c.register_handler("BTC-USD".to_string(), btc);
    c.begin_session().expect("handlers are registered");
    c.connection_established();
    c.subscription_sent();
    let msg = envelope(0, vec![ticker_event("update", vec![
        ticker("BTC-USD", "65000.00", "update"),
        ticker("SOL-USD", "150.00", "update"),
    ])]);
    let report = c.process_message(msg);
    assert_eq!(report.result, Err(ClientError::UnroutableEvent));
    // The ticker before the unroutable one was already delivered.
    assert_eq!(report.deliveries.len(), 1);
    assert_eq!(btc_calls.borrow().len(), 1);
}

#[test]
fn unroutable_ticker_is_dropped_under_the_dropping_policy() {
    let (btc, btc_calls) = recorder();
    let mut c = CoinbaseWebSocketClient::new();
    c.set_unroutable_policy(UnroutablePolicy::DropAndContinue);
    c.register_handler("BTC-USD".to_string(), btc);
    c.begin_session().expect("handlers are registered");
    c.connection_established();
    c.subscription_sent();
    let msg = envelope(0, vec![ticker_event("update", vec![
        ticker("SOL-USD", "150.00", "update"),
        ticker("BTC-USD", "65000.00", "update"),
    ])]);
    let report = c.process_message(msg);
    assert_eq!(report.result, Ok(()));
    assert_eq!(report.deliveries.len(), 1);
    let calls = btc_calls.borrow();
    assert_eq!(calls.len(), 1);
    assert_eq!(calls[0].product_id, "BTC-USD");
}

#[test]
fn matching_acknowledgment_passes_silently() {
    let mut c = streaming(vec![
        ("BTC-USD", recorder().0),
        ("ETH-USD", recorder().0),
    ]);
    let msg = envelope(0, vec![subscription_event(&["BTC-USD", "ETH-USD"])]);
    let report = c.process_message(msg);
    assert_eq!(report.result, Ok(()));
    assert_eq!(report.deliveries.len(), 0);
    assert!(c.subscription_checked());
}

#[test]
fn acknowledgment_with_missing_key_is_a_mismatch() {
    let mut c = streaming(vec![
        ("BTC-USD", recorder().0),
        ("ETH-USD", recorder().0),
    ]);
    let msg = envelope(0, vec![subscription_event(&["BTC-USD"])]);
    let report = c.process_message(msg);
    assert_eq!(report.result, Err(ClientError::SubscriptionMismatch));
    assert!(!c.subscription_checked());
}

#[test]
fn acknowledgment_with_extra_key_is_a_mismatch() {
    let mut c = streaming(vec![("BTC-USD", recorder().0)]);
    let msg = envelope(0, vec![subscription_event(&["BTC-USD", "ETH-USD"])]);
    let report = c.process_message(msg);
    assert_eq!(report.result, Err(ClientError::SubscriptionMismatch));
}

#[test]
fn only_the_first_acknowledgment_is_checked() {
    let mut c = streaming(vec![("BTC-USD", recorder().0)]);
    let ok = envelope(0, vec![subscription_event(&["BTC-USD"])]);
    assert_eq!(c.process_message(ok).result, Ok(()));
    assert!(c.subscription_checked());
    // A later, even mismatching acknowledgment is ignored.
    let later = envelope(1, vec![subscription_event(&["ETH-USD"])]);
    assert_eq!(c.process_message(later).result, Ok(()));
}

#[test]
fn two_instruments_stream_end_to_end() {
    let (btc, btc_calls) = recorder();
    let (eth, eth_calls) = recorder();
    let mut c = streaming(vec![("BTC-USD", btc), ("ETH-USD", eth)]);
    let first = envelope(0, vec![ticker_event("snapshot", vec![ticker(
        "BTC-USD",
        "65000.00",
        "snapshot",
    )])]);
    let second = envelope(1, vec![ticker_event("update", vec![ticker(
        "ETH-USD",
        "3200.00",
        "update",
    )])]);
    let r1 = c.process_message(first);
    assert_eq!(r1.sequence, SequenceCheck::Accept);
    assert_eq!(r1.result, Ok(()));
    let r2 = c.process_message(second);
    assert_eq!(r2.sequence, SequenceCheck::Accept);
    assert_eq!(r2.result, Ok(()));
    assert_eq!(btc_calls.borrow().len(), 1);
    assert_eq!(btc_calls.borrow()[0].price, "65000.00");
    assert_eq!(eth_calls.borrow().len(), 1);
    assert_eq!(eth_calls.borrow()[0].price, "3200.00");
}

#[test]
fn duplicate_envelope_is_regressed_and_never_dispatched() {
    let (btc, btc_calls) = recorder();
    let mut c = streaming(vec![("BTC-USD", btc)]);
    let first = envelope(0, vec![ticker_event("snapshot", vec![ticker(
        "BTC-USD",
        "65000.00",
        "snapshot",
    )])]);
    let again = envelope(0, vec![ticker_event("update", vec![ticker(
        "BTC-USD",
        "65500.00",
        "update",
    )])]);
    assert_eq!(c.process_message(first).sequence, SequenceCheck::Accept);
    let r = c.process_message(again);
    assert_eq!(r.sequence, SequenceCheck::Regressed);
    assert_eq!(r.result, Ok(()));
    assert_eq!(r.deliveries.len(), 0);
    // Only the first envelope's ticker ever reached the handler.
    assert_eq!(btc_calls.borrow().len(), 1);
    assert_eq!(btc_calls.borrow()[0].price, "65000.00");
}

#[test]
fn gapped_envelope_still_dispatches_and_advances() {
    let (btc, btc_calls) = recorder();
    let mut c = streaming(vec![("BTC-USD", btc)]);
    let first = envelope(0, vec![ticker_event("snapshot", vec![ticker(
        "BTC-USD",
        "65000.00",
        "snapshot",
    )])]);
    let jump = envelope(5, vec![ticker_event("update", vec![ticker(
        "BTC-USD",
        "65500.00",
        "update",
    )])]);
    assert_eq!(c.process_message(first).sequence, SequenceCheck::Accept);
    let r = c.process_message(jump);
    assert_eq!(r.sequence, SequenceCheck::Gapped);
    assert_eq!(r.result, Ok(()));
    assert_eq!(r.deliveries.len(), 1);
    assert_eq!(c.last_sequence_number(), 5);
    assert_eq!(btc_calls.borrow().len(), 2);
    assert_eq!(btc_calls.borrow()[1].price, "65500.00");
}

#[test]
fn decode_failure_is_skipped_by_default() {
    let mut c = streaming(vec![("BTC-USD", recorder().0)]);
    assert_eq!(c.decode_failure(), Ok(()));
    assert_eq!(c.state(), SessionState::Streaming);
}

#[test]
fn decode_failure_aborts_under_the_aborting_policy() {
    let mut c = CoinbaseWebSocketClient::new();
    c.set_decode_policy(DecodePolicy::Abort);
    c.register_handler("BTC-USD".to_string(), recorder().0);
    c.begin_session().expect("handlers are registered");
    c.connection_established();
    c.subscription_sent();
    assert_eq!(c.decode_failure(), Err(ClientError::DecodeError));
    assert_eq!(c.state(), SessionState::Closed);
}

#[test]
fn peer_close_ends_the_session() {
    let mut c = streaming(vec![("BTC-USD", recorder().0)]);
    c.peer_closed();
    assert_eq!(c.state(), SessionState::Closed);
}

#[test]
fn transport_failure_ends_the_session_with_an_error() {
    let mut c = streaming(vec![("BTC-USD", recorder().0)]);
    assert_eq!(c.transport_failed(), ClientError::TransportError);
    assert_eq!(c.state(), SessionState::Closed);
}

#[test]
fn empty_envelope_does_no_work() {
    let mut c = streaming(vec![("BTC-USD", recorder().0)]);
    let r = c.process_message(envelope(0, vec![]));
    assert_eq!(r.sequence, SequenceCheck::Accept);
    assert_eq!(r.result, Ok(()));
    assert_eq!(r.deliveries.len(), 0);
}

#[test]
fn reregistration_overwrites_before_the_session() {
    let (first, first_calls) = recorder();
    let (second, second_calls) = recorder();
    let mut c = CoinbaseWebSocketClient::new();
    c.register_handler("BTC-USD".to_string(), first);
    c.register_handler("BTC-USD".to_string(), second);
    assert_eq!(c.handler_count(), 1);
    c.begin_session().expect("handlers are registered");
    c.connection_established();
    c.subscription_sent();
    let msg = envelope(0, vec![ticker_event("snapshot", vec![ticker(
        "BTC-USD",
        "65000.00",
        "snapshot",
    )])]);
    assert_eq!(c.process_message(msg).result, Ok(()));
    assert_eq!(first_calls.borrow().len(), 0);
    assert_eq!(second_calls.borrow().len(), 1);
}
