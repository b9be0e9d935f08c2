//! Wire form of the stream records: the two record shapes exactly as they
//! appear on the feed, with the event time still a text field.
//!
//! A line decodes as a price update when it has the instrument/ask/bid
//! fields, else as a heartbeat when it has a type tag and a time; the
//! decoder tries the two shapes in that fixed order.

use vstd::prelude::*;

verus! {

/// Mathematical model of one price level.
pub struct QuoteView {
    pub liquidity: u64,
    pub price: Seq<char>,
}

/// Mathematical model of a wire-form price update.
pub struct RawPricingView {
    pub asks: Seq<QuoteView>,
    pub bids: Seq<QuoteView>,
    pub closeout_ask: Seq<char>,
    pub closeout_bid: Seq<char>,
    pub instrument: Seq<char>,
    pub status: Seq<char>,
    pub time: Seq<char>,
}

/// Mathematical model of a wire-form heartbeat.
pub struct RawHeartbeatView {
    pub message_type: Seq<char>,
    pub time: Seq<char>,
}

/// Mathematical model of a wire-form record.
pub enum RawRecordView {
    Pricing(RawPricingView),
    Heartbeat(RawHeartbeatView),
}

/// One price level: available liquidity and its price, the price kept as the
/// exact decimal text of the feed.
#[derive(Debug, Clone)]
pub struct LiquidityPrice {
    pub liquidity: u64,
    pub price: String,
}

impl View for LiquidityPrice {
    type V = QuoteView;

    open spec fn view(&self) -> QuoteView {
        QuoteView { liquidity: self.liquidity, price: self.price@ }
    }
}

/// The sequence of quote models under a vector of price levels.
pub open spec fn quotes_view(v: Seq<LiquidityPrice>) -> Seq<QuoteView> {
    v.map_values(|q: LiquidityPrice| q@)
}

/// A wire-form price update.
#[derive(Debug, Clone)]
pub struct PricingMessage {
    pub asks: Vec<LiquidityPrice>,
    pub bids: Vec<LiquidityPrice>,
    pub closeout_ask: String,
    pub closeout_bid: String,
    pub instrument: String,
    pub status: String,
    pub time: String,
}

impl View for PricingMessage {
    type V = RawPricingView;

    open spec fn view(&self) -> RawPricingView {
        RawPricingView {
            asks: quotes_view(self.asks@),
            bids: quotes_view(self.bids@),
            closeout_ask: self.closeout_ask@,
            closeout_bid: self.closeout_bid@,
            instrument: self.instrument@,
            status: self.status@,
            time: self.time@,
        }
    }
}

/// A wire-form heartbeat.
#[derive(Debug, Clone)]
pub struct HeartbeatMessage {
    pub message_type: String,
    pub time: String,
}

impl View for HeartbeatMessage {
    type V = RawHeartbeatView;

    open spec fn view(&self) -> RawHeartbeatView {
        RawHeartbeatView { message_type: self.message_type@, time: self.time@ }
    }
}

/// A wire-form record: a price update or a heartbeat.
#[derive(Debug, Clone)]
pub enum StreamMessage {
    Pricing(PricingMessage),
    Heartbeat(HeartbeatMessage),
}

impl View for StreamMessage {
    type V = RawRecordView;

    open spec fn view(&self) -> RawRecordView {
        match self {
            StreamMessage::Pricing(p) => RawRecordView::Pricing(p@),
            StreamMessage::Heartbeat(h) => RawRecordView::Heartbeat(h@),
        }
    }
}

} // verus!
