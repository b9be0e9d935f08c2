//! The stream session: configuration resolution, the connection state
//! machine, and the receive pipeline from raw chunks to per-line outcomes.
//!
//! The session owns a frame buffer and, for each chunk of transport bytes,
//! returns what must happen for every completed line: forward it, or report
//! a framing or parse fault.  The surrounding process performs the transport
//! reads and the fan-out sends and feeds the results back in as plain values.

use vstd::prelude::*;
use vstd::string::StringExecFns;
use vstd::utf8::{valid_utf8, decode_utf8};

use crate::errors::{AppError, ParseFault};
use crate::framing::{FrameBuffer, complete_lines, residual, first_newline, lemma_first_newline};
use crate::models::{RecordView, spec_parse_record, StreamMessage};
use crate::text::{is_ws, trim_spec, lemma_trim_all_ws, trim_chars, chars_of, string_from_chars,
    bytes_to_text};

verus! {

/// Lower-case form of an ASCII letter; any other character is unchanged.
pub open spec fn lower_char(c: char) -> char {
    let u = c as u32;
    if 65 <= u && u <= 90 {
        ((u + 32) as u8) as char
    } else {
        c
    }
}

/// ASCII lower-case form of a character sequence.
pub open spec fn lower_of(s: Seq<char>) -> Seq<char> {
    s.map_values(|c: char| lower_char(c))
}

fn lower_char_of(c: char) -> (r: char)
    ensures
        r == lower_char(c),
{
    let u = c as u32;
    if 65 <= u && u <= 90 {
        ((u + 32) as u8) as char
    } else {
        c
    }
}

/// The ASCII lower-case form of `s`.
fn ascii_lower_chars(s: &str) -> (r: Vec<char>)
    ensures
        r@ == lower_of(s@),
{
    let cs = chars_of(s);
    let mut out: Vec<char> = Vec::new();
    let mut i: usize = 0;
    while i < cs.len()
        invariant
            i <= cs@.len(),
            cs@ == s@,
            out@.len() == i,
            forall|k: int| 0 <= k < i ==> out@[k] == lower_char(s@[k]),
        decreases cs@.len() - i,
    {
        out.push(lower_char_of(cs[i]));
        i += 1;
    }
    proof {
        assert(out@ =~= lower_of(s@));
    }
    out
}

/// The immutable configuration of one session, resolved once at startup.
#[derive(Debug, Clone)]
pub struct Config {
    pub auth_token: String,
    pub account_id: String,
    pub base_endpoint: String,
    pub instruments: String,
    pub zmq_pub_address: String,
}

/// Whether a required setting is present and non-empty.
pub open spec fn required_present(o: Option<String>) -> bool {
    o matches Some(v) && v@.len() > 0
}

/// A setting's value, or its default when it is missing or empty.
pub open spec fn effective_or(o: Option<String>, d: Seq<char>) -> Seq<char> {
    match o {
        None => d,
        Some(v) => if v@.len() == 0 {
            d
        } else {
            v@
        },
    }
}

/// The normalized environment selector: lower-cased, defaulting to the
/// practice environment when missing or empty.
pub open spec fn effective_env_type(o: Option<String>) -> Seq<char> {
    match o {
        None => "fxpractice"@,
        Some(v) => if v@.len() == 0 {
            "fxpractice"@
        } else {
            lower_of(v@)
        },
    }
}

/// Resolves the five environment settings into a configuration.  The token
/// and account are required; the environment selector must normalize to one
/// of the two known hosts; the instrument list and bind address fall back to
/// their defaults.
pub fn resolve_config(
    auth_token: Option<String>,
    account_id: Option<String>,
    env_type: Option<String>,
    instruments: Option<String>,
    zmq_pub_address: Option<String>,
) -> (r: Result<Config, AppError>)
    ensures
        r is Ok <==> required_present(auth_token) && required_present(account_id) && (
        effective_env_type(env_type) == "fxtrade"@ || effective_env_type(env_type)
            == "fxpractice"@),
        r matches Ok(cfg) ==> cfg.auth_token@ == (auth_token->0)@ && cfg.account_id@ == (
        account_id->0)@ && cfg.base_endpoint@ == (if effective_env_type(env_type) == "fxtrade"@ {
            "https://stream-fxtrade.oanda.com"@
        } else {
            "https://stream-fxpractice.oanda.com"@
        }) && cfg.instruments@ == effective_or(instruments, "EUR_USD"@) && cfg.zmq_pub_address@
            == effective_or(zmq_pub_address, "tcp://*:9500"@),
        r matches Err(e) ==> (if !required_present(auth_token) {
            e matches AppError::EnvVar(n, d) && n@ == "OANDA_AUTH_TOKEN"@ && d@
                == "environment variable not found or empty"@
        } else if !required_present(account_id) {
            e matches AppError::EnvVar(n, d) && n@ == "OANDA_ACCOUNT_ID"@ && d@
                == "environment variable not found or empty"@
        } else {
            e matches AppError::Custom(m) && m@ == "Invalid OANDA_ENV_TYPE value '"@
                + effective_env_type(env_type) + "'. Must be 'fxtrade' or 'fxpractice'."@
        }),
{
    proof {
        reveal_strlit("fxtrade");
        reveal_strlit("fxpractice");
    }
    let token = match auth_token {
        Some(t) => {
            if t.as_str().unicode_len() == 0 {
                return Err(
                    AppError::EnvVar(
                        "OANDA_AUTH_TOKEN".to_owned(),
                        "environment variable not found or empty".to_owned(),
                    ),
                );
            }
            t
        },
        None => {
            return Err(
                AppError::EnvVar(
                    "OANDA_AUTH_TOKEN".to_owned(),
                    "environment variable not found or empty".to_owned(),
                ),
            );
        },
    };
    let account = match account_id {
        Some(a) => {
            if a.as_str().unicode_len() == 0 {
                return Err(
                    AppError::EnvVar(
                        "OANDA_ACCOUNT_ID".to_owned(),
                        "environment variable not found or empty".to_owned(),
                    ),
                );
            }
            a
        },
        None => {
            return Err(
                AppError::EnvVar(
                    "OANDA_ACCOUNT_ID".to_owned(),
                    "environment variable not found or empty".to_owned(),
                ),
            );
        },
    };
    let base: String;
    match env_type {
        None => {
            base = "https://stream-fxpractice.oanda.com".to_owned();
        },
        Some(ev) => {
            if ev.as_str().unicode_len() == 0 {
                base = "https://stream-fxpractice.oanda.com".to_owned();
            } else {
                let lowered = ascii_lower_chars(ev.as_str());
                if crate::parse::chars_eq_str(&lowered, "fxtrade") {
                    base = "https://stream-fxtrade.oanda.com".to_owned();
                } else if crate::parse::chars_eq_str(&lowered, "fxpractice") {
                    base = "https://stream-fxpractice.oanda.com".to_owned();
                } else {
                    let mut m = "Invalid OANDA_ENV_TYPE value '".to_owned();
                    let ls = string_from_chars(&lowered);
                    m.append(ls.as_str());
                    m.append("'. Must be 'fxtrade' or 'fxpractice'.");
                    return Err(AppError::Custom(m));
                }
            }
        },
    }
    let instruments_value = match instruments {
        None => "EUR_USD".to_owned(),
        Some(v) => {
            if v.as_str().unicode_len() == 0 {
                "EUR_USD".to_owned()
            } else {
                v
            }
        },
    };
    let bind = match zmq_pub_address {
        None => "tcp://*:9500".to_owned(),
        Some(v) => {
            if v.as_str().unicode_len() == 0 {
                "tcp://*:9500".to_owned()
            } else {
                v
            }
        },
    };
    proof {
        assert(required_present(auth_token));
        assert(required_present(account_id));
        assert(token@ == (auth_token->0)@);
        assert(account@ == (account_id->0)@);
        assert(instruments_value@ == effective_or(instruments, "EUR_USD"@));
        assert(bind@ == effective_or(zmq_pub_address, "tcp://*:9500"@));
        assert(effective_env_type(env_type) == "fxtrade"@ || effective_env_type(env_type)
            == "fxpractice"@);
        assert(base@ == (if effective_env_type(env_type) == "fxtrade"@ {
            "https://stream-fxtrade.oanda.com"@
        } else {
            "https://stream-fxpractice.oanda.com"@
        }));
    }
    Ok(
        (Config {
            auth_token: token,
            account_id: account,
            base_endpoint: base,
            instruments: instruments_value,
            zmq_pub_address: bind,
        }),
    )
}

/// The streaming endpoint for this configuration, before its query
/// parameters.
pub fn stream_url(cfg: &Config) -> (r: String)
    ensures
        r@ == cfg.base_endpoint@ + "/v3/accounts/"@ + cfg.account_id@ + "/pricing/stream"@,
{
    let mut m = cfg.base_endpoint.clone();
    m.append("/v3/accounts/");
    m.append(cfg.account_id.as_str());
    m.append("/pricing/stream");
    m
}

/// The lifecycle of one streaming connection.
#[derive(Debug, Clone, Copy, PartialEq, Eq, Structural)]
pub enum SessionState {
    Connecting,
    Streaming,
    Draining,
    Closed,
    Failed,
}

/// Mathematical model of what one extracted line demands.
pub enum OutcomeView {
    /// Forward the validated text, which decoded to this record.
    Publish(Seq<char>, RecordView),
    /// Report the text as undecodable and drop it.
    Reject(Seq<char>),
    /// Report the bytes as invalid text and drop them.
    Framing,
}

/// What one extracted line demands of the caller.
#[derive(Debug)]
pub enum LineOutcome {
    /// Forward this exact text to the publish sink; the decoded record rides
    /// along for observation.
    Publish(String, StreamMessage),
    /// Report this parse fault; the session continues.
    Reject(ParseFault),
    /// Report this framing fault; the session continues.
    Framing(String),
}

impl View for LineOutcome {
    type V = OutcomeView;

    open spec fn view(&self) -> OutcomeView {
        match self {
            LineOutcome::Publish(t, m) => OutcomeView::Publish(t@, m@),
            LineOutcome::Reject(f) => OutcomeView::Reject(f.line@),
            LineOutcome::Framing(_) => OutcomeView::Framing,
        }
    }
}

/// The outcome models under a vector of outcomes.
pub open spec fn outcomes_view(v: Seq<LineOutcome>) -> Seq<OutcomeView> {
    v.map_values(|o: LineOutcome| o@)
}

/// What one line's bytes demand: nothing for whitespace-only text, a
/// publish for a line that decodes, a report otherwise.
pub open spec fn spec_outcome_of_line(b: Seq<u8>) -> Option<OutcomeView> {
    if !valid_utf8(b) {
        Some(OutcomeView::Framing)
    } else {
        let t = trim_spec(decode_utf8(b));
        if t.len() == 0 {
            None
        } else {
            match spec_parse_record(t) {
                Some(v) => Some(OutcomeView::Publish(t, v)),
                None => Some(OutcomeView::Reject(t)),
            }
        }
    }
}

/// The outcome of one line as a sequence of zero or one demands.
pub open spec fn opt_outcome(o: Option<OutcomeView>) -> Seq<OutcomeView> {
    match o {
        Some(v) => seq![v],
        None => Seq::empty(),
    }
}

/// The demands of a sequence of lines, in order.
pub open spec fn spec_outcomes(lines: Seq<Seq<u8>>) -> Seq<OutcomeView>
    decreases lines.len(),
{
    if lines.len() == 0 {
        Seq::empty()
    } else {
        opt_outcome(spec_outcome_of_line(lines[0])) + spec_outcomes(lines.drop_first())
    }
}

proof fn lemma_outcomes_cons(l: Seq<u8>, rest: Seq<Seq<u8>>)
    ensures
        spec_outcomes(seq![l] + rest) == opt_outcome(spec_outcome_of_line(l)) + spec_outcomes(
            rest,
        ),
{
    assert((seq![l] + rest).drop_first() =~= rest);
    assert((seq![l] + rest)[0] == l);
}

/// Demands distribute over concatenation of line sequences.
pub proof fn lemma_outcomes_concat(x: Seq<Seq<u8>>, y: Seq<Seq<u8>>)
    ensures
        spec_outcomes(x + y) == spec_outcomes(x) + spec_outcomes(y),
    decreases x.len(),
{
    if x.len() == 0 {
        assert(x + y =~= y);
        assert(spec_outcomes(x) + spec_outcomes(y) =~= spec_outcomes(y));
    } else {
        lemma_outcomes_concat(x.drop_first(), y);
        assert((x + y)[0] == x[0]);
        assert((x + y).drop_first() =~= x.drop_first() + y);
        assert(opt_outcome(spec_outcome_of_line(x[0])) + (spec_outcomes(x.drop_first())
            + spec_outcomes(y)) =~= (opt_outcome(spec_outcome_of_line(x[0])) + spec_outcomes(
            x.drop_first(),
        )) + spec_outcomes(y));
    }
}

/// However a byte stream is cut into chunks, the demands produced are those
/// of the lines of the whole stream: feeding `b` after the residue of `a`
/// adds exactly the demands of the lines of `a + b` beyond those of `a`.
pub proof fn lemma_outcomes_chunk_independent(a: Seq<u8>, b: Seq<u8>)
    ensures
        spec_outcomes(complete_lines(a + b)) == spec_outcomes(complete_lines(a)) + spec_outcomes(
            complete_lines(residual(a) + b),
        ),
{
    crate::framing::lemma_lines_chunk_independent(a, b);
    lemma_outcomes_concat(complete_lines(a), complete_lines(residual(a) + b));
}

/// A whitespace-only or empty line demands nothing: no publish and no
/// report.
pub proof fn lemma_ws_line_no_output(b: Seq<u8>)
    requires
        valid_utf8(b),
        forall|j: int| 0 <= j < decode_utf8(b).len() ==> is_ws(decode_utf8(b)[j]),
    ensures
        spec_outcome_of_line(b) is None,
{
    lemma_trim_all_ws(decode_utf8(b));
}

/// Decides what one extracted line demands.
fn process_line(line: Vec<u8>) -> (r: Option<LineOutcome>)
    ensures
        match r {
            Some(o) => spec_outcome_of_line(line@) == Some(o@),
            None => spec_outcome_of_line(line@) is None,
        },
{
    let ghost lv = line@;
    match bytes_to_text(line) {
        None => Some(LineOutcome::Framing("line is not valid UTF-8".to_owned())),
        Some(text) => {
            let cs = chars_of(text.as_str());
            let trimmed = trim_chars(&cs);
            if trimmed.len() == 0 {
                None
            } else {
                let tstr = string_from_chars(&trimmed);
                match StreamMessage::parse(tstr.as_str()) {
                    Ok(m) => Some(LineOutcome::Publish(tstr, m)),
                    Err(f) => Some(LineOutcome::Reject(f)),
                }
            }
        },
    }
}

/// Mathematical model of a session: its lifecycle state and the bytes not
/// yet resolved into a line.
pub struct SessionView {
    pub state: SessionState,
    pub pending: Seq<u8>,
}

/// One streaming session: the connection lifecycle and its frame buffer.
pub struct StreamSession {
    state: SessionState,
    buffer: FrameBuffer,
}

impl View for StreamSession {
    type V = SessionView;

    closed spec fn view(&self) -> SessionView {
        SessionView { state: self.state, pending: self.buffer@ }
    }
}

impl StreamSession {
    /// A fresh session, about to connect, with nothing buffered.
    pub fn new() -> (r: StreamSession)
        ensures
            r@.state == SessionState::Connecting,
            r@.pending == Seq::<u8>::empty(),
    {
        StreamSession { state: SessionState::Connecting, buffer: FrameBuffer::new() }
    }

    /// The current lifecycle state.
    pub fn state(&self) -> (s: SessionState)
        ensures
            s == self@.state,
    {
        self.state
    }

    /// The number of buffered bytes awaiting a terminator.
    pub fn pending_len(&self) -> (n: usize)
        ensures
            n == self@.pending.len(),
    {
        self.buffer.pending_len()
    }

    /// A successful connection moves the session into streaming.
    pub fn on_connected(&mut self)
        requires
            old(self)@.state == SessionState::Connecting,
        ensures
            final(self)@.state == SessionState::Streaming,
            final(self)@.pending == old(self)@.pending,
    {
        self.state = SessionState::Streaming;
    }

    /// A failed connection attempt ends the session; the returned error
    /// carries the response's status text and body.
    pub fn on_connect_failed(&mut self, status: String, body: String) -> (e: AppError)
        requires
            old(self)@.state == SessionState::Connecting,
        ensures
            final(self)@.state == SessionState::Failed,
            e matches AppError::Custom(m) && m@ == "Failed to connect to Oanda stream: HTTP status "@
                + status@ + ". Body: "@ + body@,
    {
        self.state = SessionState::Failed;
        let mut m = "Failed to connect to Oanda stream: HTTP status ".to_owned();
        m.append(status.as_str());
        m.append(". Body: ");
        m.append(body.as_str());
        AppError::Custom(m)
    }

    /// A transport failure while establishing the connection ends the
    /// session.
    pub fn on_connect_error(&mut self, detail: String) -> (e: AppError)
        requires
            old(self)@.state == SessionState::Connecting,
        ensures
            final(self)@.state == SessionState::Failed,
            e matches AppError::Reqwest(d) && d@ == detail@,
    {
        self.state = SessionState::Failed;
        AppError::Reqwest(detail)
    }

    /// A transport read failure mid-stream ends the session.
    pub fn on_transport_error(&mut self, detail: String) -> (e: AppError)
        requires
            old(self)@.state == SessionState::Streaming,
        ensures
            final(self)@.state == SessionState::Failed,
            e matches AppError::Reqwest(d) && d@ == detail@,
    {
        self.state = SessionState::Failed;
        AppError::Reqwest(detail)
    }

    /// Drains every complete line of the buffer, returning the demand of
    /// each in order; the buffer keeps only the residue.
    fn drain_lines(&mut self) -> (out: Vec<LineOutcome>)
        ensures
            final(self)@.state == old(self)@.state,
            final(self)@.pending == residual(old(self)@.pending),
            outcomes_view(out@) == spec_outcomes(complete_lines(old(self)@.pending)),
    {
        let mut out: Vec<LineOutcome> = Vec::new();
        loop
            invariant
                self.state == old(self).state,
                outcomes_view(out@) + spec_outcomes(complete_lines(self.buffer@))
                    == spec_outcomes(complete_lines(old(self).buffer@)),
                residual(self.buffer@) == residual(old(self).buffer@),
            decreases self.buffer@.len(),
        {
            let ghost before = self.buffer@;
            match self.buffer.extract_line() {
                None => {
                    proof {
                        lemma_first_newline(before);
                        assert(complete_lines(before) =~= Seq::<Seq<u8>>::empty());
                        assert(spec_outcomes(complete_lines(before)) =~= Seq::<
                            OutcomeView,
                        >::empty());
                        assert(outcomes_view(out@) + Seq::<OutcomeView>::empty() =~= outcomes_view(
                            out@,
                        ));
                        assert(residual(before) == before);
                    }
                    return out;
                },
                Some(line) => {
                    proof {
                        let i = first_newline(before);
                        assert(complete_lines(before) == seq![before.take(i)] + complete_lines(
                            self.buffer@,
                        ));
                        lemma_outcomes_cons(before.take(i), complete_lines(self.buffer@));
                        assert(residual(before) == residual(self.buffer@));
                    }
                    match process_line(line) {
                        Some(o) => {
                            let ghost og = o;
                            let ghost prev = out@;
                            out.push(o);
                            proof {
                                assert(out@ == prev.push(og));
                                assert(outcomes_view(out@) =~= outcomes_view(prev).push(og@));
                                assert(outcomes_view(prev).push(og@) =~= outcomes_view(prev) + seq![
                                    og@,
                                ]);
                                assert((outcomes_view(prev) + seq![og@]) + spec_outcomes(
                                    complete_lines(self.buffer@),
                                ) =~= outcomes_view(prev) + (seq![og@] + spec_outcomes(
                                    complete_lines(self.buffer@),
                                )));
                            }
                        },
                        None => {
                            proof {
                                assert(opt_outcome(spec_outcome_of_line(before.take(
                                    first_newline(before),
                                ))) + spec_outcomes(complete_lines(self.buffer@)) =~= spec_outcomes(
                                    complete_lines(self.buffer@),
                                ));
                            }
                        },
                    }
                },
            }
        }
    }

    /// Feeds one chunk of transport bytes: every line completed by it is
    /// decided in order, and the trailing partial line is carried forward.
    pub fn on_chunk(&mut self, chunk: &[u8]) -> (out: Vec<LineOutcome>)
        requires
            old(self)@.state == SessionState::Streaming,
        ensures
            final(self)@.state == SessionState::Streaming,
            final(self)@.pending == residual(old(self)@.pending + chunk@),
            outcomes_view(out@) == spec_outcomes(complete_lines(old(self)@.pending + chunk@)),
    {
        self.buffer.append(chunk);
        self.drain_lines()
    }

    /// A clean end of stream: the remaining complete lines are decided, a
    /// trailing partial line is discarded, and the session closes.
    pub fn on_stream_end(&mut self) -> (out: Vec<LineOutcome>)
        requires
            old(self)@.state == SessionState::Streaming,
        ensures
            final(self)@.state == SessionState::Closed,
            final(self)@.pending == Seq::<u8>::empty(),
            outcomes_view(out@) == spec_outcomes(complete_lines(old(self)@.pending)),
    {
        self.state = SessionState::Draining;
        let out = self.drain_lines();
        self.buffer = FrameBuffer::new();
        self.state = SessionState::Closed;
        out
    }
}

} // verus!
