use std::cell::RefCell;
use std::rc::Rc;

use coinbase_websocket::models::Ticker;
use coinbase_websocket::registry::{HandlerRegistry, TickerHandler};

struct Recorder {
    calls: Rc<RefCell<Vec<Ticker>>>,
}

impl TickerHandler for Recorder {
    fn on_ticker(&self, ticker: Ticker) {
        self.calls.borrow_mut().push(ticker);
    }
}

fn recorder() -> (Recorder, Rc<RefCell<Vec<Ticker>>>) {
    let calls = Rc::new(RefCell::new(Vec::new()));
    (Recorder { calls: calls.clone() }, calls)
}

fn ticker(product_id: &str, price: &str) -> Ticker {
    Ticker {
        best_ask: "0".to_string(),
        best_ask_quantity: "0".to_string(),
        best_bid: "0".to_string(),
        best_bid_quantity: "0".to_string(),
        high_24_h: "0".to_string(),
        high_52_w: "0".to_string(),
        low_24_h: "0".to_string(),
        low_52_w: "0".to_string(),
        price: price.to_string(),
        price_percent_chg_24_h: "0".to_string(),
        product_id: product_id.to_string(),
        ticker_type: "update".to_string(),
        volume_24_h: "0".to_string(),
    }
}

#[test]
fn empty_registry_has_no_keys() {
    let r: HandlerRegistry<Recorder> = HandlerRegistry::new();
    assert!(r.is_empty());
    assert_eq!(r.len(), 0);
    assert_eq!(r.lookup_index(&"BTC-USD".to_string()), None);
    assert!(r.product_ids().is_empty());
}

#[test]
fn registration_order_is_kept() {
    let mut r: HandlerRegistry<Recorder> = HandlerRegistry::new();
    r.register("BTC-USD".to_string(), recorder().0);
    r.register("ETH-USD".to_string(), recorder().0);
    assert_eq!(r.len(), 2);
    assert_eq!(r.product_ids(), vec!["BTC-USD".to_string(), "ETH-USD".to_string()]);
    assert_eq!(r.lookup_index(&"BTC-USD".to_string()), Some(0));
    assert_eq!(r.lookup_index(&"ETH-USD".to_string()), Some(1));
    assert_eq!(r.lookup_index(&"SOL-USD".to_string()), None);
}

#[test]
fn reregistration_overwrites_the_binding() {
    let mut r: HandlerRegistry<Recorder> = HandlerRegistry::new();
    let (first, first_calls) = recorder();
    let (second, second_calls) = recorder();
    r.register("BTC-USD".to_string(), first);
    r.register("BTC-USD".to_string(), second);
    assert_eq!(r.len(), 1);
    assert_eq!(r.lookup_index(&"BTC-USD".to_string()), Some(0));
    r.invoke(0, ticker("BTC-USD", "100"));
    assert_eq!(first_calls.borrow().len(), 0);
    assert_eq!(second_calls.borrow().len(), 1);
    assert_eq!(second_calls.borrow()[0].price, "100");
}

#[test]
fn invoke_reaches_the_handler_at_the_position() {
    let mut r: HandlerRegistry<Recorder> = HandlerRegistry::new();
    let (btc, btc_calls) = recorder();
    let (eth, eth_calls) = recorder();
    r.register("BTC-USD".to_string(), btc);
    r.register("ETH-USD".to_string(), eth);
    r.invoke(1, ticker("ETH-USD", "3200.00"));
    assert_eq!(btc_calls.borrow().len(), 0);
    assert_eq!(eth_calls.borrow().len(), 1);
    assert_eq!(eth_calls.borrow()[0].product_id, "ETH-USD");
}
