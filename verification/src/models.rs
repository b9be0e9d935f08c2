//! Decoded form of the stream records: the wire records with the broker's
//! timestamp converted to nanoseconds since the Unix epoch.
//!
//! The conversion is delegated to the `chrono` crate; its result is a pure
//! function of the timestamp text, named `timestamp_nanos_of` here.  A record
//! whose timestamp does not convert is rejected as a whole.

use vstd::prelude::*;
use vstd::string::StringExecFns;

use crate::errors::ParseFault;
use crate::modems;
use crate::modems::{QuoteView, RawPricingView, RawHeartbeatView, RawRecordView};
use crate::parse::spec_parse_raw_record;
use crate::parse::parse_raw_record;
use crate::text::chars_of;

verus! {

/// The nanosecond count since the Unix epoch named by the timestamp text,
/// or `None` when the text is no valid timestamp or the count overflows.
pub uninterp spec fn timestamp_nanos_of(s: Seq<char>) -> Option<i64>;

/// Relies on chrono: parsing a `DateTime<Utc>` from text and
/// `timestamp_nanos_opt` both depend on the text alone, and the latter
/// returns `None` exactly when the nanosecond count leaves `i64`.
#[verifier::external_body]
fn timestamp_nanos(s: &str) -> (r: Option<i64>)
    ensures
        r == timestamp_nanos_of(s@),
{
    match s.parse::<chrono::DateTime<chrono::Utc>>() {
        Ok(dt) => dt.timestamp_nanos_opt(),
        Err(_) => None,
    }
}

/// Converts the broker's timestamp text to nanoseconds since the Unix epoch,
/// failing on text that is no timestamp or lies outside the representable
/// range.
pub fn deserialize_oanda_time_to_nanoseconds(s: &str) -> (r: Result<i64, String>)
    ensures
        r matches Ok(n) ==> timestamp_nanos_of(s@) == Some(n),
        r is Ok <==> timestamp_nanos_of(s@) is Some,
        r matches Err(e) ==> e@ == "invalid timestamp"@,
{
    match timestamp_nanos(s) {
        Some(n) => Ok(n),
        None => Err("invalid timestamp".to_owned()),
    }
}

/// Mathematical model of a decoded price update.
pub struct PricingView {
    pub asks: Seq<QuoteView>,
    pub bids: Seq<QuoteView>,
    pub closeout_ask: Seq<char>,
    pub closeout_bid: Seq<char>,
    pub instrument: Seq<char>,
    pub status: Seq<char>,
    pub time: i64,
}

/// Mathematical model of a decoded heartbeat.
pub struct HeartbeatView {
    pub message_type: Seq<char>,
    pub time: i64,
}

/// Mathematical model of a decoded record.
pub enum RecordView {
    Pricing(PricingView),
    Heartbeat(HeartbeatView),
}

/// One price level of a decoded record.
#[derive(Debug)]
pub struct LiquidityPrice {
    pub liquidity: u64,
    pub price: String,
}

impl View for LiquidityPrice {
    type V = QuoteView;

    open spec fn view(&self) -> QuoteView {
        QuoteView { liquidity: self.liquidity, price: self.price@ }
    }
}

/// The sequence of quote models under a vector of decoded price levels.
pub open spec fn quotes_view(v: Seq<LiquidityPrice>) -> Seq<QuoteView> {
    v.map_values(|q: LiquidityPrice| q@)
}

/// A price update with its event time in nanoseconds since the Unix epoch.
#[derive(Debug)]
pub struct PricingMessage {
    pub asks: Vec<LiquidityPrice>,
    pub bids: Vec<LiquidityPrice>,
    pub closeout_ask: String,
    pub closeout_bid: String,
    pub instrument: String,
    pub status: String,
    pub time: i64,
}

impl View for PricingMessage {
    type V = PricingView;

    open spec fn view(&self) -> PricingView {
        PricingView {
            asks: quotes_view(self.asks@),
            bids: quotes_view(self.bids@),
            closeout_ask: self.closeout_ask@,
            closeout_bid: self.closeout_bid@,
            instrument: self.instrument@,
            status: self.status@,
            time: self.time,
        }
    }
}

/// A heartbeat with its event time in nanoseconds since the Unix epoch.
#[derive(Debug)]
pub struct HeartbeatMessage {
    pub message_type: String,
    pub time: i64,
}

impl View for HeartbeatMessage {
    type V = HeartbeatView;

    open spec fn view(&self) -> HeartbeatView {
        HeartbeatView { message_type: self.message_type@, time: self.time }
    }
}

/// A decoded record: a price update or a heartbeat.
#[derive(Debug)]
pub enum StreamMessage {
    Pricing(PricingMessage),
    Heartbeat(HeartbeatMessage),
}

impl View for StreamMessage {
    type V = RecordView;

    open spec fn view(&self) -> RecordView {
        match self {
            StreamMessage::Pricing(p) => RecordView::Pricing(p@),
            StreamMessage::Heartbeat(h) => RecordView::Heartbeat(h@),
        }
    }
}

/// The decoded form of a wire price update, when its timestamp converts.
pub open spec fn spec_decode_pricing(rp: RawPricingView) -> Option<PricingView> {
    match timestamp_nanos_of(rp.time) {
        Some(n) => Some(
            (PricingView {
                asks: rp.asks,
                bids: rp.bids,
                closeout_ask: rp.closeout_ask,
                closeout_bid: rp.closeout_bid,
                instrument: rp.instrument,
                status: rp.status,
                time: n,
            }),
        ),
        None => None,
    }
}

/// The decoded form of a wire heartbeat, when its timestamp converts.
pub open spec fn spec_decode_heartbeat(rh: RawHeartbeatView) -> Option<HeartbeatView> {
    match timestamp_nanos_of(rh.time) {
        Some(n) => Some((HeartbeatView { message_type: rh.message_type, time: n })),
        None => None,
    }
}

/// The decoded form of a wire record, when its timestamp converts.
pub open spec fn spec_decode_record(rv: RawRecordView) -> Option<RecordView> {
    match rv {
        RawRecordView::Pricing(rp) => match spec_decode_pricing(rp) {
            Some(p) => Some(RecordView::Pricing(p)),
            None => None,
        },
        RawRecordView::Heartbeat(rh) => match spec_decode_heartbeat(rh) {
            Some(h) => Some(RecordView::Heartbeat(h)),
            None => None,
        },
    }
}

/// What one line of text decodes to: its structural decode with the
/// timestamp converted, or nothing when either step fails.
pub open spec fn spec_parse_record(t: Seq<char>) -> Option<RecordView> {
    match spec_parse_raw_record(t) {
        Some(rv) => spec_decode_record(rv),
        None => None,
    }
}

fn convert_quotes(v: &Vec<modems::LiquidityPrice>) -> (r: Vec<LiquidityPrice>)
    ensures
        quotes_view(r@) == modems::quotes_view(v@),
{
    let mut out: Vec<LiquidityPrice> = Vec::new();
    let mut i: usize = 0;
    while i < v.len()
        invariant
            i <= v@.len(),
            out@.len() == i,
            quotes_view(out@) == modems::quotes_view(v@).take(i as int),
        decreases v@.len() - i,
    {
        let ghost prev = out@;
        let q = LiquidityPrice { liquidity: v[i].liquidity, price: v[i].price.clone() };
        let ghost qg = q;
        out.push(q);
        i += 1;
        proof {
            let m1 = quotes_view(out@);
            let m2 = modems::quotes_view(v@).take(i as int);
            assert(out@ == prev.push(qg));
            assert forall|k: int| 0 <= k < i implies m1[k] == m2[k] by {
                assert(m1[k] == out@[k]@);
                assert(m2[k] == modems::quotes_view(v@)[k]);
                assert(modems::quotes_view(v@)[k] == v@[k]@);
                if k < i - 1 {
                    assert(out@[k] == prev.push(qg)[k]);
                    assert(prev.push(qg)[k] == prev[k]);
                    assert(quotes_view(prev)[k] == prev[k]@);
                    assert(quotes_view(prev) == modems::quotes_view(v@).take(i - 1));
                    assert(quotes_view(prev)[k] == modems::quotes_view(v@).take(i - 1)[k]);
                } else {
                    assert(out@[k] == prev.push(qg)[k]);
                    assert(prev.push(qg)[k] == qg);
                    assert(qg.liquidity == v@[k].liquidity);
                    assert(qg.price@ == v@[k].price@);
                }
            }
            assert(m1 =~= m2);
        }
    }
    proof {
        assert(modems::quotes_view(v@).take(v@.len() as int) =~= modems::quotes_view(v@));
    }
    out
}

impl StreamMessage {
    /// Decodes the timestamps of a wire record, rejecting the record when a
    /// timestamp does not convert.
    pub fn from_wire(w: modems::StreamMessage) -> (r: Result<StreamMessage, String>)
        ensures
            r matches Ok(m) ==> spec_decode_record(w@) == Some(m@),
            r is Ok <==> spec_decode_record(w@) is Some,
            r matches Err(e) ==> e@ == "invalid timestamp"@,
    {
        match w {
            modems::StreamMessage::Pricing(p) => {
                let time = match deserialize_oanda_time_to_nanoseconds(p.time.as_str()) {
                    Ok(n) => n,
                    Err(e) => {
                        return Err(e);
                    },
                };
                Ok(
                    StreamMessage::Pricing(
                        PricingMessage {
                            asks: convert_quotes(&p.asks),
                            bids: convert_quotes(&p.bids),
                            closeout_ask: p.closeout_ask,
                            closeout_bid: p.closeout_bid,
                            instrument: p.instrument,
                            status: p.status,
                            time,
                        },
                    ),
                )
            },
            modems::StreamMessage::Heartbeat(h) => {
                let time = match deserialize_oanda_time_to_nanoseconds(h.time.as_str()) {
                    Ok(n) => n,
                    Err(e) => {
                        return Err(e);
                    },
                };
                Ok(StreamMessage::Heartbeat(HeartbeatMessage { message_type: h.message_type, time }))
            },
        }
    }

    /// Parses one line of text as a stream record: the structural decode of
    /// the two shapes in order, then the timestamp conversion.  On failure
    /// the fault carries the offending text.
    pub fn parse(text: &str) -> (r: Result<StreamMessage, ParseFault>)
        ensures
            r matches Ok(m) ==> spec_parse_record(text@) == Some(m@),
            r is Ok <==> spec_parse_record(text@) is Some,
            r matches Err(f) ==> f.line@ == text@,
    {
        let cs = chars_of(text);
        match parse_raw_record(&cs) {
            None => Err(
                ParseFault {
                    line: text.to_owned(),
                    diagnostic: "line matches neither the price update nor the heartbeat shape".to_owned(),
                },
            ),
            Some(w) => match StreamMessage::from_wire(w) {
                Ok(m) => Ok(m),
                Err(d) => Err(ParseFault { line: text.to_owned(), diagnostic: d }),
            },
        }
    }
}

} // verus!
