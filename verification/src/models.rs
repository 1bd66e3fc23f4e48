//! The decoded shape of one inbound protocol message.
//!
//! Decimal values are transported as strings and are never parsed to
//! numeric types here: precision is the caller's concern.  Decoding a wire
//! frame into these types is the caller's job as well; the core consumes
//! the decoded values.

use vstd::prelude::*;

verus! {

/// A point-in-time market snapshot for one instrument.
#[derive(Debug)]
pub struct Ticker {
    /// Best asking price.
    pub best_ask: String,
    /// Quantity available at the best ask price.
    pub best_ask_quantity: String,
    /// Best bid price.
    pub best_bid: String,
    /// Quantity available at the best bid price.
    pub best_bid_quantity: String,
    /// 24-hour high price.
    pub high_24_h: String,
    /// 52-week high price.
    pub high_52_w: String,
    /// 24-hour low price.
    pub low_24_h: String,
    /// 52-week low price.
    pub low_52_w: String,
    /// Current price.
    pub price: String,
    /// 24-hour price percent change.
    pub price_percent_chg_24_h: String,
    /// Instrument key (e.g. "BTC-USD"): the subscription target and the
    /// handler-registry key.
    pub product_id: String,
    /// Kind of ticker update (e.g. "snapshot" or "update").
    pub ticker_type: String,
    /// 24-hour trading volume.
    pub volume_24_h: String,
}

impl Clone for Ticker {
    /// A field-for-field copy: handlers receive a copy and can never reach
    /// the shared record.
    fn clone(&self) -> (r: Self)
        ensures
            r == *self,
    {
        Ticker {
            best_ask: self.best_ask.clone(),
            best_ask_quantity: self.best_ask_quantity.clone(),
            best_bid: self.best_bid.clone(),
            best_bid_quantity: self.best_bid_quantity.clone(),
            high_24_h: self.high_24_h.clone(),
            high_52_w: self.high_52_w.clone(),
            low_24_h: self.low_24_h.clone(),
            low_52_w: self.low_52_w.clone(),
            price: self.price.clone(),
            price_percent_chg_24_h: self.price_percent_chg_24_h.clone(),
            product_id: self.product_id.clone(),
            ticker_type: self.ticker_type.clone(),
            volume_24_h: self.volume_24_h.clone(),
        }
    }
}

/// One event inside a message.  The wire format carries no discriminator:
/// the decoder tells the two shapes apart by which fields are present and
/// hands the core the variant it found.
#[derive(Debug)]
pub enum Event {
    /// A batch of ticker updates.
    TickerEvent {
        /// Kind of the batch (e.g. "snapshot" or "update").
        event_type: String,
        /// The ticker records, in stream order.
        tickers: Vec<Ticker>,
    },
    /// The server's acknowledgment of the active subscriptions: for each
    /// channel name, the instrument keys actually subscribed.
    SubscriptionEvent {
        /// Channel name paired with its subscribed instrument keys.
        subscriptions: Vec<(String, Vec<String>)>,
    },
}

/// One decoded protocol message.
#[derive(Debug)]
pub struct WebSocketMessage {
    /// The channel name (e.g. "ticker").
    pub channel: String,
    /// Optional client identifier; may be empty.
    pub client_id: String,
    /// The events of this message, in stream order.
    pub events: Vec<Event>,
    /// Server-assigned counter, expected to increase by one per message.
    pub sequence_num: u64,
    /// Timestamp of the message, kept as an opaque string.
    pub timestamp: String,
}

} // verus!
