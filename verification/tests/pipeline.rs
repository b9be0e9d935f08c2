use oanda_stream::errors::AppError;
use oanda_stream::models::StreamMessage;
use oanda_stream::session::{resolve_config, stream_url, LineOutcome, SessionState, StreamSession};

fn streaming_session() -> StreamSession {
    let mut s = StreamSession::new();
    s.on_connected();
    s
}

#[test]
fn chunk_boundary_independence_concrete() {
    // The same bytes split three different ways yield the same payloads.
    let whole = b"{\"type\":\"HEARTBEAT\",\"time\":\"2024-06-11T14:31:05Z\"}\n{\"type\":\"HEARTBEAT\",\"time\":\"2024-06-11T14:31:10Z\"}\n";
    let splits: [&[usize]; 3] = [&[whole.len()], &[1, whole.len() - 1], &[20, 40, whole.len() - 60]];
    let mut results: Vec<Vec<String>> = Vec::new();
    for split in splits.iter() {
        let mut s = streaming_session();
        let mut payloads = Vec::new();
        let mut start = 0;
        for len in split.iter() {
            let chunk = &whole[start..start + len];
            start += len;
            for o in s.on_chunk(chunk) {
                match o {
                    LineOutcome::Publish(text, _) => payloads.push(text),
                    _ => panic!("expected every line to publish"),
                }
            }
        }
        assert_eq!(start, whole.len());
        results.push(payloads);
    }
    assert_eq!(results[0].len(), 2);
    assert_eq!(results[0], results[1]);
    assert_eq!(results[0], results[2]);
}

#[test]
fn partial_line_waits_for_terminator() {
    let mut s = streaming_session();
    let first = s.on_chunk(b"{\"type\":\"HEA");
    assert!(first.is_empty());
    assert_eq!(s.pending_len(), 12);
    let second = s.on_chunk(b"RTBEAT\",\"time\":\"2024-06-11T14:31:05Z\"}\n");
    assert_eq!(second.len(), 1);
    match &second[0] {
        LineOutcome::Publish(text, StreamMessage::Heartbeat(h)) => {
            assert_eq!(text, "{\"type\":\"HEARTBEAT\",\"time\":\"2024-06-11T14:31:05Z\"}");
            assert_eq!(h.message_type, "HEARTBEAT");
        }
        _ => panic!("expected exactly one heartbeat publish"),
    }
}

#[test]
fn whitespace_only_lines_produce_nothing() {
    let mut s = streaming_session();
    let out = s.on_chunk(b"   \n\n\t \r\n");
    assert!(out.is_empty());
    assert_eq!(s.pending_len(), 0);
}

#[test]
fn pricing_scenario_publishes_verbatim() {
    let line = "{\"asks\":[{\"price\":\"1.09005\",\"liquidity\":1000000}],\"bids\":[{\"price\":\"1.09000\",\"liquidity\":1000000}],\"closeoutAsk\":\"1.09015\",\"closeoutBid\":\"1.08990\",\"instrument\":\"EUR_USD\",\"status\":\"active\",\"time\":\"2024-06-11T14:30:00.123456789Z\"}";
    let mut s = streaming_session();
    let mut feed = line.as_bytes().to_vec();
    feed.push(b'\n');
    let out = s.on_chunk(&feed);
    assert_eq!(out.len(), 1);
    match &out[0] {
        LineOutcome::Publish(text, StreamMessage::Pricing(p)) => {
            assert_eq!(text, line);
            assert_eq!(p.instrument, "EUR_USD");
            assert_eq!(p.time, 1718116200123456789i64);
        }
        _ => panic!("expected one price-update publish"),
    }
}

#[test]
fn malformed_line_reported_and_session_continues() {
    let mut s = streaming_session();
    let out = s.on_chunk(b"{invalid\n");
    assert_eq!(out.len(), 1);
    match &out[0] {
        LineOutcome::Reject(fault) => assert_eq!(fault.line, "{invalid"),
        _ => panic!("expected one parse fault"),
    }
    let next = s.on_chunk(b"{\"type\":\"HEARTBEAT\",\"time\":\"2024-06-11T14:31:05Z\"}\n");
    assert_eq!(next.len(), 1);
    assert!(matches!(&next[0], LineOutcome::Publish(_, StreamMessage::Heartbeat(_))));
    assert_eq!(s.state(), SessionState::Streaming);
}

#[test]
fn out_of_range_timestamp_dropped_not_forwarded() {
    let mut s = streaming_session();
    let out = s.on_chunk(b"{\"type\":\"HEARTBEAT\",\"time\":\"2300-01-01T00:00:00Z\"}\n");
    assert_eq!(out.len(), 1);
    assert!(matches!(&out[0], LineOutcome::Reject(_)));
}

#[test]
fn invalid_utf8_is_a_framing_fault() {
    let mut s = streaming_session();
    let out = s.on_chunk(&[0xff, 0xfe, b'\n']);
    assert_eq!(out.len(), 1);
    assert!(matches!(&out[0], LineOutcome::Framing(_)));
    assert_eq!(s.state(), SessionState::Streaming);
}

#[test]
fn stream_end_flushes_and_discards_partial() {
    let mut s = streaming_session();
    let none = s.on_chunk(b"{\"type\":\"HEARTBEAT\",\"time\":\"2024-06-11T14:31:05Z\"}\n{\"partial");
    assert_eq!(none.len(), 1);
    let out = s.on_stream_end();
    assert!(out.is_empty());
    assert_eq!(s.pending_len(), 0);
    assert_eq!(s.state(), SessionState::Closed);
}

#[test]
fn connect_failure_is_fatal() {
    let mut s = StreamSession::new();
    let e = s.on_connect_failed("401 Unauthorized".to_string(), "denied".to_string());
    assert_eq!(s.state(), SessionState::Failed);
    assert_eq!(
        e.message(),
        "Custom application error: Failed to connect to Oanda stream: HTTP status 401 Unauthorized. Body: denied"
    );
}

#[test]
fn transport_error_is_fatal() {
    let mut s = streaming_session();
    let e = s.on_transport_error("connection reset".to_string());
    assert_eq!(s.state(), SessionState::Failed);
    assert_eq!(e.message(), "Request error: connection reset");
}

#[test]
fn config_requires_token_and_account() {
    let e = resolve_config(None, Some("acc".to_string()), None, None, None).unwrap_err();
    assert_eq!(
        e.message(),
        "Environment variable 'OANDA_AUTH_TOKEN' error: environment variable not found or empty"
    );
    let e = resolve_config(Some("tok".to_string()), Some("".to_string()), None, None, None)
        .unwrap_err();
    assert_eq!(
        e.message(),
        "Environment variable 'OANDA_ACCOUNT_ID' error: environment variable not found or empty"
    );
}

#[test]
fn config_env_type_selects_host() {
    let cfg = resolve_config(
        Some("tok".to_string()),
        Some("acc".to_string()),
        Some("FXTRADE".to_string()),
        None,
        None,
    )
    .unwrap();
    assert_eq!(cfg.base_endpoint, "https://stream-fxtrade.oanda.com");
    assert_eq!(cfg.instruments, "EUR_USD");
    assert_eq!(cfg.zmq_pub_address, "tcp://*:9500");
    assert_eq!(stream_url(&cfg), "https://stream-fxtrade.oanda.com/v3/accounts/acc/pricing/stream");

    let cfg = resolve_config(
        Some("tok".to_string()),
        Some("acc".to_string()),
        None,
        Some("EUR_USD,USD_JPY".to_string()),
        Some("tcp://*:9600".to_string()),
    )
    .unwrap();
    assert_eq!(cfg.base_endpoint, "https://stream-fxpractice.oanda.com");
    assert_eq!(cfg.instruments, "EUR_USD,USD_JPY");
    assert_eq!(cfg.zmq_pub_address, "tcp://*:9600");

    let e = resolve_config(
        Some("tok".to_string()),
        Some("acc".to_string()),
        Some("sandbox".to_string()),
        None,
        None,
    )
    .unwrap_err();
    assert_eq!(
        e.message(),
        "Custom application error: Invalid OANDA_ENV_TYPE value 'sandbox'. Must be 'fxtrade' or 'fxpractice'."
    );
}

#[test]
fn app_error_messages_cover_all_variants() {
    assert_eq!(AppError::Reqwest("x".to_string()).message(), "Request error: x");
    assert_eq!(AppError::Zmq("y".to_string()).message(), "ZeroMQ error: y");
}

#[test]
fn frame_buffer_carries_partial_lines() {
    let mut buf = oanda_stream::framing::FrameBuffer::new();
    buf.append(b"alpha\nbet");
    assert!(buf.has_complete_line());
    assert_eq!(buf.extract_line().unwrap(), b"alpha".to_vec());
    assert!(!buf.has_complete_line());
    assert!(buf.extract_line().is_none());
    assert_eq!(buf.pending_len(), 3);
    buf.append(b"a\n");
    assert_eq!(buf.extract_line().unwrap(), b"beta".to_vec());
    assert_eq!(buf.pending_len(), 0);
}
