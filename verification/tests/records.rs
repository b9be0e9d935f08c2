use chrono::{TimeZone, Timelike, Utc};
use oanda_stream::errors::AppError;
use oanda_stream::models::{deserialize_oanda_time_to_nanoseconds, StreamMessage};

#[test]
fn test_pricing_message_deserialization() {
    let json_data = r#"
        {
            "asks": [
                {"price": "1.09005", "liquidity": 1000000}
            ],
            "bids": [
                {"price": "1.09000", "liquidity": 1000000}
            ],
            "closeoutAsk": "1.09015",
            "closeoutBid": "1.08990",
            "instrument": "EUR_USD",
            "status": "active",
            "time": "2024-06-11T14:30:00.123456789Z"
        }
    "#;
    let pricing = match StreamMessage::parse(json_data).unwrap() {
        StreamMessage::Pricing(p) => p,
        _ => panic!("expected a price update"),
    };

    assert_eq!(pricing.instrument, "EUR_USD");
    assert_eq!(pricing.asks[0].price, "1.09005");
    assert_eq!(pricing.asks[0].liquidity, 1000000);
    assert_eq!(
        pricing.time,
        Utc.with_ymd_and_hms(2024, 6, 11, 14, 30, 0)
            .unwrap()
            .with_nanosecond(123456789)
            .unwrap()
            .timestamp_nanos_opt()
            .unwrap()
    );
}

#[test]
fn test_heartbeat_message_deserialization() {
    let json_data = r#"
        {
            "type": "HEARTBEAT",
            "time": "2024-06-11T14:31:05.987654321Z"
        }
    "#;
    let heartbeat = match StreamMessage::parse(json_data).unwrap() {
        StreamMessage::Heartbeat(h) => h,
        _ => panic!("expected a heartbeat"),
    };

    assert_eq!(heartbeat.message_type, "HEARTBEAT");
    assert_eq!(
        heartbeat.time,
        Utc.with_ymd_and_hms(2024, 6, 11, 14, 31, 5)
            .unwrap()
            .with_nanosecond(987654321)
            .unwrap()
            .timestamp_nanos_opt()
            .unwrap()
    );
}

#[test]
fn test_stream_message_pricing_variant() {
    let json_data = r#"
        {
            "asks": [],
            "bids": [],
            "closeoutAsk": "1.0",
            "closeoutBid": "1.0",
            "instrument": "AUD_CAD",
            "status": "active",
            "time": "2024-06-11T14:32:00.000000000Z"
        }
    "#;
    let stream_msg = StreamMessage::parse(json_data).unwrap();

    match stream_msg {
        StreamMessage::Pricing(p) => {
            assert_eq!(p.instrument, "AUD_CAD");
            assert!(p.asks.is_empty());
            assert!(p.bids.is_empty());
        }
        _ => panic!("Expected PricingMessage variant"),
    }
}

#[test]
fn test_stream_message_heartbeat_variant() {
    let json_data = r#"
        {
            "type": "HEARTBEAT",
            "time": "2024-06-11T14:33:00.000000000Z"
        }
    "#;
    let stream_msg = StreamMessage::parse(json_data).unwrap();

    match stream_msg {
        StreamMessage::Heartbeat(h) => {
            assert_eq!(h.message_type, "HEARTBEAT");
        }
        _ => panic!("Expected HeartbeatMessage variant"),
    }
}

#[test]
fn test_deserialize_oanda_time_valid() {
    let timestamp = deserialize_oanda_time_to_nanoseconds("2024-06-11T14:34:00.123456789Z").unwrap();
    assert_eq!(
        timestamp,
        Utc.with_ymd_and_hms(2024, 6, 11, 14, 34, 0)
            .unwrap()
            .with_nanosecond(123456789)
            .unwrap()
            .timestamp_nanos_opt()
            .unwrap()
    );
}

#[test]
fn test_deserialize_oanda_time_invalid() {
    let result = deserialize_oanda_time_to_nanoseconds("not a valid time string");
    assert!(result.is_err());
}

#[test]
fn test_app_error_display_env_var() {
    let error = AppError::EnvVar(
        "TEST_VAR".to_string(),
        "environment variable not found".to_string(),
    );
    assert_eq!(
        error.message(),
        "Environment variable 'TEST_VAR' error: environment variable not found"
    );
}

#[test]
fn test_app_error_display_io() {
    let error = AppError::Io("file not found".to_string());
    assert_eq!(error.message(), "I/O error: file not found");
}

#[test]
fn test_app_error_display_custom() {
    let error = AppError::Custom("something went wrong".to_string());
    assert_eq!(error.message(), "Custom application error: something went wrong");
}

#[test]
fn test_app_error_display_json() {
    let fault = StreamMessage::parse("{invalid").unwrap_err();
    let error = AppError::Json(fault.diagnostic);
    assert!(error.message().starts_with("JSON parsing error: "));
}

#[test]
fn parse_rejects_malformed_line() {
    let fault = StreamMessage::parse("{invalid").unwrap_err();
    assert_eq!(fault.line, "{invalid");
}

#[test]
fn parse_rejects_out_of_range_nanoseconds() {
    // Far beyond the last instant representable as i64 nanoseconds.
    let result = deserialize_oanda_time_to_nanoseconds("2300-01-01T00:00:00Z");
    assert!(result.is_err());
    let fault =
        StreamMessage::parse(r#"{"type":"HEARTBEAT","time":"2300-01-01T00:00:00Z"}"#).unwrap_err();
    assert_eq!(fault.line, r#"{"type":"HEARTBEAT","time":"2300-01-01T00:00:00Z"}"#);
}

#[test]
fn parse_accepts_fields_in_any_order_and_skips_unknown() {
    let json_data = r#"{"time":"2024-06-11T14:30:00Z","unknown":{"deep":[1,2,{"x":null}]},"type":"HEARTBEAT","extra":3.5e2}"#;
    match StreamMessage::parse(json_data).unwrap() {
        StreamMessage::Heartbeat(h) => assert_eq!(h.message_type, "HEARTBEAT"),
        _ => panic!("expected a heartbeat"),
    }
}

#[test]
fn parse_rejects_duplicate_field() {
    let json_data = r#"{"type":"HEARTBEAT","type":"HEARTBEAT","time":"2024-06-11T14:30:00Z"}"#;
    assert!(StreamMessage::parse(json_data).is_err());
}

#[test]
fn parse_rejects_liquidity_overflow() {
    let json_data = r#"{"asks":[{"price":"1.0","liquidity":18446744073709551616}],"bids":[],"closeoutAsk":"1.0","closeoutBid":"1.0","instrument":"EUR_USD","status":"active","time":"2024-06-11T14:30:00Z"}"#;
    assert!(StreamMessage::parse(json_data).is_err());
}

#[test]
fn parse_accepts_liquidity_at_limit() {
    let json_data = r#"{"asks":[{"price":"1.0","liquidity":18446744073709551615}],"bids":[],"closeoutAsk":"1.0","closeoutBid":"1.0","instrument":"EUR_USD","status":"active","time":"2024-06-11T14:30:00Z"}"#;
    match StreamMessage::parse(json_data).unwrap() {
        StreamMessage::Pricing(p) => assert_eq!(p.asks[0].liquidity, u64::MAX),
        _ => panic!("expected a price update"),
    }
}

#[test]
fn parse_decodes_string_escapes() {
    let json_data = r#"{"type":"HEARTBEAT\n","time":"2024-06-11T14:30:00Z"}"#;
    match StreamMessage::parse(json_data).unwrap() {
        StreamMessage::Heartbeat(h) => assert_eq!(h.message_type, "HEARTBEAT\n"),
        _ => panic!("expected a heartbeat"),
    }
}

#[test]
fn parse_rejects_missing_required_field() {
    // A price update without its bid side matches neither shape.
    let json_data = r#"{"asks":[],"closeoutAsk":"1.0","closeoutBid":"1.0","instrument":"EUR_USD","status":"active","time":"2024-06-11T14:30:00Z"}"#;
    assert!(StreamMessage::parse(json_data).is_err());
}

#[test]
fn serialize_then_parse_returns_equal_record() {
    let line = r#"{"asks":[{"price":"1.09005","liquidity":1000000}],"bids":[],"closeoutAsk":"1.09015","closeoutBid":"1.08990","instrument":"EUR_USD","status":"active","time":"2024-06-11T14:30:00Z"}"#;
    let chars: Vec<char> = line.chars().collect();
    let raw = oanda_stream::parse::parse_raw_record(&chars).unwrap();
    let text = oanda_stream::render::serialize_record(&raw);
    let chars2: Vec<char> = text.chars().collect();
    let again = oanda_stream::parse::parse_raw_record(&chars2).unwrap();
    match (raw, again) {
        (
            oanda_stream::modems::StreamMessage::Pricing(a),
            oanda_stream::modems::StreamMessage::Pricing(b),
        ) => {
            assert_eq!(a.instrument, b.instrument);
            assert_eq!(a.status, b.status);
            assert_eq!(a.time, b.time);
            assert_eq!(a.closeout_ask, b.closeout_ask);
            assert_eq!(a.closeout_bid, b.closeout_bid);
            assert_eq!(a.asks.len(), b.asks.len());
            assert_eq!(a.asks[0].price, b.asks[0].price);
            assert_eq!(a.asks[0].liquidity, b.asks[0].liquidity);
            assert_eq!(a.bids.len(), b.bids.len());
        }
        _ => panic!("expected price updates on both sides"),
    }
}

#[test]
fn serialize_heartbeat_then_parse_round_trips() {
    let line = r#"{"type":"HEARTBEAT","time":"2024-06-11T14:31:05Z"}"#;
    let chars: Vec<char> = line.chars().collect();
    let raw = oanda_stream::parse::parse_raw_record(&chars).unwrap();
    let text = oanda_stream::render::serialize_record(&raw);
    let chars2: Vec<char> = text.chars().collect();
    let again = oanda_stream::parse::parse_raw_record(&chars2).unwrap();
    match (raw, again) {
        (
            oanda_stream::modems::StreamMessage::Heartbeat(a),
            oanda_stream::modems::StreamMessage::Heartbeat(b),
        ) => {
            assert_eq!(a.message_type, b.message_type);
            assert_eq!(a.time, b.time);
        }
        _ => panic!("expected heartbeats on both sides"),
    }
}
