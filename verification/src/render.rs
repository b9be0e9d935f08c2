//! Canonical serialization of wire-form records, the inverse direction of
//! the decoder: fields in declaration order, strings escaped, numbers in
//! plain decimal.

use vstd::prelude::*;

use crate::modems;
use crate::modems::{QuoteView, RawPricingView, RawHeartbeatView, RawRecordView, LiquidityPrice};
use crate::text::{chars_of, string_from_chars};
use crate::parse::{
    spec_parse_string, spec_string_body, spec_hex4, simple_escape, hex_val, spec_skip_ws,
    spec_skip_value, spec_heartbeat_member, spec_heartbeat_sep, spec_heartbeat_done,
    spec_parse_heartbeat_record, spec_parse_pricing_record, spec_parse_raw_record,
    spec_pricing_member, spec_pricing_sep, spec_pricing_done, JSON_DEPTH_LIMIT, is_digit,
    digit_val, is_json_ws,
};

verus! {

/// The character for one hexadecimal digit value, lower case.
pub open spec fn hex_digit_char(v: int) -> char {
    if v < 10 {
        ((48 + v) as u8) as char
    } else {
        ((87 + v) as u8) as char
    }
}

/// The rendering of one character inside a string: itself, or its escape.
pub open spec fn render_escape(c: char) -> Seq<char> {
    let u = c as u32;
    if c == '"' {
        seq!['\\', '"']
    } else if c == '\\' {
        seq!['\\', '\\']
    } else if u < 0x20 {
        seq!['\\', 'u', '0', '0', hex_digit_char(u as int / 16), hex_digit_char(u as int % 16)]
    } else {
        seq![c]
    }
}

/// The rendering of a string's content, character by character.
pub open spec fn render_string_body(s: Seq<char>) -> Seq<char>
    decreases s.len(),
{
    if s.len() == 0 {
        Seq::empty()
    } else {
        render_escape(s[0]) + render_string_body(s.drop_first())
    }
}

/// The rendering of a string, quotes included.
pub open spec fn render_string(s: Seq<char>) -> Seq<char> {
    seq!['"'] + render_string_body(s) + seq!['"']
}

/// The decimal rendering of a number.
pub open spec fn render_u64(n: u64) -> Seq<char>
    decreases n,
{
    if n < 10 {
        seq![((48 + n) as u8) as char]
    } else {
        render_u64(n / 10) + seq![((48 + (n % 10)) as u8) as char]
    }
}

/// The rendering of one price level.
pub open spec fn render_quote(q: QuoteView) -> Seq<char> {
    seq!['{'] + render_string("liquidity"@) + seq![':'] + render_u64(q.liquidity) + seq![',']
        + render_string("price"@) + seq![':'] + render_string(q.price) + seq!['}']
}

/// The rendering of the items of a quote array, comma-separated.
pub open spec fn render_quotes(qs: Seq<QuoteView>) -> Seq<char>
    decreases qs.len(),
{
    if qs.len() == 0 {
        Seq::empty()
    } else if qs.len() == 1 {
        render_quote(qs[0])
    } else {
        render_quote(qs[0]) + seq![','] + render_quotes(qs.drop_first())
    }
}

/// The rendering of a quote array, brackets included.
pub open spec fn render_quote_array(qs: Seq<QuoteView>) -> Seq<char> {
    seq!['['] + render_quotes(qs) + seq![']']
}

/// The rendering of a price update, fields in declaration order.
pub open spec fn render_pricing(p: RawPricingView) -> Seq<char> {
    seq!['{'] + render_string("asks"@) + seq![':'] + render_quote_array(p.asks) + seq![',']
        + render_string("bids"@) + seq![':'] + render_quote_array(p.bids) + seq![',']
        + render_string("closeoutAsk"@) + seq![':'] + render_string(p.closeout_ask) + seq![',']
        + render_string("closeoutBid"@) + seq![':'] + render_string(p.closeout_bid) + seq![',']
        + render_string("instrument"@) + seq![':'] + render_string(p.instrument) + seq![',']
        + render_string("status"@) + seq![':'] + render_string(p.status) + seq![',']
        + render_string("time"@) + seq![':'] + render_string(p.time) + seq!['}']
}

/// The rendering of a heartbeat.
pub open spec fn render_heartbeat(h: RawHeartbeatView) -> Seq<char> {
    seq!['{'] + render_string("type"@) + seq![':'] + render_string(h.message_type) + seq![',']
        + render_string("time"@) + seq![':'] + render_string(h.time) + seq!['}']
}

/// The rendering of a record.
pub open spec fn render_record(r: RawRecordView) -> Seq<char> {
    match r {
        RawRecordView::Pricing(p) => render_pricing(p),
        RawRecordView::Heartbeat(h) => render_heartbeat(h),
    }
}

fn push_char(out: &mut Vec<char>, c: char)
    ensures
        final(out)@ == old(out)@ + seq![c],
{
    out.push(c);
    proof {
        assert(final(out)@ =~= old(out)@ + seq![c]);
    }
}


proof fn lemma_render_body_snoc(s: Seq<char>, i: int)
    requires
        0 <= i < s.len(),
    ensures
        render_string_body(s.take(i + 1)) == render_string_body(s.take(i)) + render_escape(s[i]),
    decreases i,
{
    if i == 0 {
        assert(s.take(1)[0] == s[0]);
        assert(s.take(1).drop_first() =~= Seq::<char>::empty());
        assert(s.take(0) =~= Seq::<char>::empty());
        assert(render_escape(s[0]) + Seq::<char>::empty() =~= render_escape(s[0]));
        assert(Seq::<char>::empty() + render_escape(s[0]) =~= render_escape(s[0]));
    } else {
        lemma_render_body_snoc(s.drop_first(), i - 1);
        assert(s.take(i + 1)[0] == s[0]);
        assert(s.take(i + 1).drop_first() =~= s.drop_first().take(i));
        assert(s.take(i)[0] == s[0]);
        assert(s.take(i).drop_first() =~= s.drop_first().take(i - 1));
        assert(s.drop_first()[i - 1] == s[i]);
        assert(render_escape(s[0]) + (render_string_body(s.drop_first().take(i - 1))
            + render_escape(s[i])) =~= (render_escape(s[0]) + render_string_body(
            s.drop_first().take(i - 1),
        )) + render_escape(s[i]));
    }
}

fn push_escape(out: &mut Vec<char>, c: char)
    ensures
        final(out)@ == old(out)@ + render_escape(c),
{
    let u = c as u32;
    if c == '"' {
        push_char(out, '\\');
        push_char(out, '"');
        proof {
            assert((old(out)@ + seq!['\\']) + seq!['"'] =~= old(out)@ + render_escape(c));
        }
    } else if c == '\\' {
        push_char(out, '\\');
        push_char(out, '\\');
        proof {
            assert((old(out)@ + seq!['\\']) + seq!['\\'] =~= old(out)@ + render_escape(c));
        }
    } else if u < 0x20 {
        push_char(out, '\\');
        push_char(out, 'u');
        push_char(out, '0');
        push_char(out, '0');
        let hi = u / 16;
        let lo = u % 16;
        let hc = if hi < 10 {
            ((48 + hi) as u8) as char
        } else {
            ((87 + hi) as u8) as char
        };
        let lc = if lo < 10 {
            ((48 + lo) as u8) as char
        } else {
            ((87 + lo) as u8) as char
        };
        push_char(out, hc);
        push_char(out, lc);
        proof {
            assert(hc == hex_digit_char(u as int / 16));
            assert(lc == hex_digit_char(u as int % 16));
            assert(((((old(out)@ + seq!['\\']) + seq!['u']) + seq!['0']) + seq!['0']) + seq![hc]
                + seq![lc] =~= old(out)@ + render_escape(c));
        }
    } else {
        push_char(out, c);
        proof {
            assert(old(out)@ + seq![c] =~= old(out)@ + render_escape(c));
        }
    }
}

fn push_string(out: &mut Vec<char>, s: &str)
    ensures
        final(out)@ == old(out)@ + render_string(s@),
{
    push_char(out, '"');
    let cs = chars_of(s);
    let mut i: usize = 0;
    while i < cs.len()
        invariant
            i <= cs@.len(),
            cs@ == s@,
            out@ == old(out)@ + seq!['"'] + render_string_body(s@.take(i as int)),
        decreases cs@.len() - i,
    {
        let ghost before = out@;
        push_escape(out, cs[i]);
        i += 1;
        proof {
            lemma_render_body_snoc(s@, i - 1);
            assert(before + render_escape(s@[i - 1]) =~= old(out)@ + seq!['"']
                + render_string_body(s@.take(i as int)));
        }
    }
    proof {
        assert(s@.take(s@.len() as int) =~= s@);
    }
    push_char(out, '"');
    proof {
        assert((old(out)@ + seq!['"'] + render_string_body(s@)) + seq!['"'] =~= old(out)@
            + render_string(s@));
    }
}

fn push_u64(out: &mut Vec<char>, n: u64)
    ensures
        final(out)@ == old(out)@ + render_u64(n),
    decreases n,
{
    if n < 10 {
        push_char(out, (48 + n as u8) as char);
    } else {
        push_u64(out, n / 10);
        let ghost mid = out@;
        push_char(out, (48 + (n % 10) as u8) as char);
        proof {
            assert(mid + seq![((48 + (n % 10)) as u8) as char] =~= old(out)@ + render_u64(n));
        }
    }
}

fn push_quote(out: &mut Vec<char>, q: &LiquidityPrice)
    ensures
        final(out)@ == old(out)@ + render_quote(q@),
{
    push_char(out, '{');
    push_string(out, "liquidity");
    push_char(out, ':');
    push_u64(out, q.liquidity);
    push_char(out, ',');
    push_string(out, "price");
    push_char(out, ':');
    push_string(out, q.price.as_str());
    push_char(out, '}');
    proof {
        assert(final(out)@ =~= old(out)@ + render_quote(q@));
    }
}

fn push_quotes(out: &mut Vec<char>, v: &Vec<LiquidityPrice>, i: usize)
    requires
        i <= v@.len(),
    ensures
        final(out)@ == old(out)@ + render_quotes(modems::quotes_view(v@).skip(i as int)),
    decreases v@.len() - i,
{
    let ghost qs = modems::quotes_view(v@).skip(i as int);
    if i >= v.len() {
        proof {
            assert(qs.len() == 0);
            assert(old(out)@ + render_quotes(qs) =~= old(out)@);
        }
    } else if i + 1 == v.len() {
        push_quote(out, &v[i]);
        proof {
            assert(qs.len() == 1);
            assert(qs[0] == v@[i as int]@);
        }
    } else {
        push_quote(out, &v[i]);
        let ghost mid = out@;
        push_char(out, ',');
        let ghost mid2 = out@;
        push_quotes(out, v, i + 1);
        proof {
            assert(qs[0] == v@[i as int]@);
            assert(qs.drop_first() =~= modems::quotes_view(v@).skip(i + 1));
            assert(((old(out)@ + render_quote(v@[i as int]@)) + seq![',']) + render_quotes(
                modems::quotes_view(v@).skip(i + 1),
            ) =~= old(out)@ + ((render_quote(qs[0]) + seq![',']) + render_quotes(qs.drop_first())));
            assert((render_quote(qs[0]) + seq![',']) + render_quotes(qs.drop_first())
                =~= render_quote(qs[0]) + seq![','] + render_quotes(qs.drop_first()));
        }
    }
}

fn push_quote_array(out: &mut Vec<char>, v: &Vec<LiquidityPrice>)
    ensures
        final(out)@ == old(out)@ + render_quote_array(modems::quotes_view(v@)),
{
    push_char(out, '[');
    push_quotes(out, v, 0);
    proof {
        assert(modems::quotes_view(v@).skip(0) =~= modems::quotes_view(v@));
    }
    push_char(out, ']');
    proof {
        assert(final(out)@ =~= old(out)@ + render_quote_array(modems::quotes_view(v@)));
    }
}

/// Serializes a wire-form record to its canonical text.
pub fn serialize_record(m: &modems::StreamMessage) -> (r: String)
    ensures
        r@ == render_record(m@),
{
    let mut out: Vec<char> = Vec::new();
    match m {
        modems::StreamMessage::Pricing(p) => {
            push_char(&mut out, '{');
            push_string(&mut out, "asks");
            push_char(&mut out, ':');
            push_quote_array(&mut out, &p.asks);
            push_char(&mut out, ',');
            push_string(&mut out, "bids");
            push_char(&mut out, ':');
            push_quote_array(&mut out, &p.bids);
            push_char(&mut out, ',');
            push_string(&mut out, "closeoutAsk");
            push_char(&mut out, ':');
            push_string(&mut out, p.closeout_ask.as_str());
            push_char(&mut out, ',');
            push_string(&mut out, "closeoutBid");
            push_char(&mut out, ':');
            push_string(&mut out, p.closeout_bid.as_str());
            push_char(&mut out, ',');
            push_string(&mut out, "instrument");
            push_char(&mut out, ':');
            push_string(&mut out, p.instrument.as_str());
            push_char(&mut out, ',');
            push_string(&mut out, "status");
            push_char(&mut out, ':');
            push_string(&mut out, p.status.as_str());
            push_char(&mut out, ',');
            push_string(&mut out, "time");
            push_char(&mut out, ':');
            push_string(&mut out, p.time.as_str());
            push_char(&mut out, '}');
            proof {
                assert(out@ =~= render_record(m@));
            }
        },
        modems::StreamMessage::Heartbeat(h) => {
            push_char(&mut out, '{');
            push_string(&mut out, "type");
            push_char(&mut out, ':');
            push_string(&mut out, h.message_type.as_str());
            push_char(&mut out, ',');
            push_string(&mut out, "time");
            push_char(&mut out, ':');
            push_string(&mut out, h.time.as_str());
            push_char(&mut out, '}');
            proof {
                assert(out@ =~= render_record(m@));
            }
        },
    }
    string_from_chars(&out)
}

/// Whether `c` renders as itself inside a string.
pub open spec fn plain_char(c: char) -> bool {
    c != '"' && c != '\\' && (c as u32) >= 0x20
}

/// A sequence of plain characters renders as itself.
proof fn lemma_render_body_plain(s: Seq<char>)
    requires
        forall|k: int| 0 <= k < s.len() ==> plain_char(s[k]),
    ensures
        render_string_body(s) == s,
    decreases s.len(),
{
    if s.len() == 0 {
    } else {
        lemma_render_body_plain(s.drop_first());
        assert(render_escape(s[0]) =~= seq![s[0]]);
        assert(seq![s[0]] + s.drop_first() =~= s);
    }
}

/// Parsing a rendered string body at its position recovers the content and
/// stops after the closing quote.
proof fn lemma_string_body_round_trip(w: Seq<char>, i: int, s: Seq<char>)
    requires
        0 <= i,
        i + render_string_body(s).len() + 1 <= w.len(),
        w.subrange(i, i + render_string_body(s).len() + 1) == render_string_body(s) + seq!['"'],
    ensures
        spec_string_body(w, i) == Some((s, i + render_string_body(s).len() + 1)),
    decreases s.len(),
{
    let body = render_string_body(s);
    let seg = body + seq!['"'];
    let ll = body.len() as int;
    let sub = w.subrange(i, i + ll + 1);
    if s.len() == 0 {
        assert(sub[0] == w[i]);
        assert(seg[0] == '"');
        assert(w[i] == '"');
    } else {
        let c = s[0];
        let e = render_escape(c);
        let rest = render_string_body(s.drop_first());
        let el = e.len() as int;
        assert(body == e + rest);
        assert(w.subrange(i + el, i + el + rest.len() + 1) =~= rest + seq!['"']) by {
            let sub2 = w.subrange(i + el, i + el + rest.len() + 1);
            assert forall|k: int| 0 <= k < rest.len() + 1 implies sub2[k] == (rest
                + seq!['"'])[k] by {
                assert(sub2[k] == w[i + el + k]);
                assert(sub[el + k] == w[i + (el + k)]);
                assert(i + (el + k) == i + el + k);
                if k < rest.len() {
                    assert(seg[el + k] == body[el + k]);
                    assert(body[el + k] == rest[k]);
                    assert((rest + seq!['"'])[k] == rest[k]);
                } else {
                    assert(seg[el + k] == '"');
                    assert((rest + seq!['"'])[k] == '"');
                }
            }
        }
        lemma_string_body_round_trip(w, i + el, s.drop_first());
        assert(sub[0] == w[i]);
        assert(seg[0] == body[0]);
        assert(body[0] == e[0]);
        let u = c as u32;
        if c == '"' {
            assert(w[i] == '\\');
            assert(sub[1] == w[i + 1]);
            assert(seg[1] == body[1] && body[1] == e[1]);
            assert(w[i + 1] == '"');
            assert(simple_escape(w[i + 1]) == Some('"'));
            assert(seq![c] + s.drop_first() =~= s);
        } else if c == '\\' {
            assert(w[i] == '\\');
            assert(sub[1] == w[i + 1]);
            assert(seg[1] == body[1] && body[1] == e[1]);
            assert(w[i + 1] == '\\');
            assert(simple_escape(w[i + 1]) == Some('\\'));
            assert(seq![c] + s.drop_first() =~= s);
        } else if u < 0x20 {
            assert(w[i] == '\\');
            assert(sub[1] == w[i + 1]);
            assert(sub[2] == w[i + 2]);
            assert(sub[3] == w[i + 3]);
            assert(sub[4] == w[i + 4]);
            assert(sub[5] == w[i + 5]);
            assert(seg[1] == e[1] && seg[2] == e[2] && seg[3] == e[3] && seg[4] == e[4] && seg[5]
                == e[5]);
            assert(w[i + 1] == 'u');
            assert(w[i + 2] == '0' && w[i + 3] == '0');
            assert(w[i + 4] == hex_digit_char(u as int / 16));
            assert(w[i + 5] == hex_digit_char(u as int % 16));
            assert(hex_val('0') == 0);
            let hv = u as int / 16;
            let lv = u as int % 16;
            assert(hex_val(hex_digit_char(hv)) == hv);
            assert(hex_val(hex_digit_char(lv)) == lv);
            assert(spec_hex4(w, i + 2) == Some((hv * 16 + lv) as u32));
            assert(hv * 16 + lv == u);
            assert(u <= 0x7F);
            assert((u as u8) as u32 == u);
            vstd::utf8::char_u32_cast(c, u);
            assert((u as char) == c);
            assert(((u as u8) as char) == (u as char));
            assert(((u as u8) as char) == c);
            assert(seq![c] + s.drop_first() =~= s);
        } else {
            assert(w[i] == c);
            assert(seq![c] + s.drop_first() =~= s);
        }
    }
}

/// Parsing a rendered string at its position recovers the content; skipping
/// a value there consumes exactly the rendered string.
proof fn lemma_string_round_trip(w: Seq<char>, i: int, s: Seq<char>)
    requires
        0 <= i,
        i + render_string(s).len() <= w.len(),
        w.subrange(i, i + render_string(s).len()) == render_string(s),
    ensures
        spec_parse_string(w, i) == Some((s, i + render_string(s).len())),
        spec_skip_value(w, i, JSON_DEPTH_LIMIT) == Some(i + render_string(s).len()),
{
    let rs = render_string(s);
    let ll = rs.len() as int;
    let body = render_string_body(s);
    let sub = w.subrange(i, i + ll);
    assert(sub[0] == w[i]);
    assert(rs[0] == '"');
    assert(w[i] == '"');
    assert(w.subrange(i + 1, i + 1 + body.len() + 1) =~= body + seq!['"']) by {
        let sub2 = w.subrange(i + 1, i + 1 + body.len() + 1);
        assert forall|k: int| 0 <= k < body.len() + 1 implies sub2[k] == (body
            + seq!['"'])[k] by {
            assert(sub2[k] == w[i + 1 + k]);
            assert(sub[1 + k] == w[i + (1 + k)]);
            assert(i + (1 + k) == i + 1 + k);
            if k < body.len() {
                assert(rs[1 + k] == (seq!['"'] + body)[1 + k]);
                assert(rs[1 + k] == body[k]);
                assert((body + seq!['"'])[k] == body[k]);
            } else {
                assert(rs[1 + k] == '"');
                assert((body + seq!['"'])[k] == '"');
            }
        }
    }
    lemma_string_body_round_trip(w, i + 1, s);
}

/// Round trip of the heartbeat shape: parsing the canonical serialization
/// of a heartbeat record yields exactly the record again — the price-update
/// shape is tried first and rejects it, and both fields come back unchanged.
#[verifier::rlimit(100)]
#[verifier::spinoff_prover]
proof fn lemma_heartbeat_round_trip(h: RawHeartbeatView)
    ensures
        spec_parse_raw_record(render_heartbeat(h)) == Some(RawRecordView::Heartbeat(h)),
{
    reveal_strlit("type");
    reveal_strlit("time");
    reveal_strlit("asks");
    reveal_strlit("bids");
    reveal_strlit("closeoutAsk");
    reveal_strlit("closeoutBid");
    reveal_strlit("instrument");
    reveal_strlit("status");
    let w = render_heartbeat(h);
    assert(forall|k: int| 0 <= k < "type"@.len() ==> plain_char("type"@[k]));
    assert(forall|k: int| 0 <= k < "time"@.len() ==> plain_char("time"@[k]));
    lemma_render_body_plain("type"@);
    lemma_render_body_plain("time"@);
    let kt = render_string("type"@);
    let km = render_string("time"@);
    let vm = render_string(h.message_type);
    let vt = render_string(h.time);
    let lm = vm.len() as int;
    let lv = vt.len() as int;
    assert(kt.len() == 6);
    assert(km.len() == 6);
    assert(lm >= 2);
    assert(lv >= 2);
    assert(w == seq!['{'] + kt + seq![':'] + vm + seq![','] + km + seq![':'] + vt + seq!['}']);
    assert(w.len() == 17 + lm + lv);

    assert(w[0] == '{');
    assert(spec_skip_ws(w, 0) == 0);
    assert(w[1] == '"');
    assert(spec_skip_ws(w, 1) == 1);
    assert(w.subrange(1, 7) =~= kt);
    lemma_string_round_trip(w, 1, "type"@);
    assert(w[7] == ':');
    assert(spec_skip_ws(w, 7) == 7);
    assert(w[8] == '"');
    assert(spec_skip_ws(w, 8) == 8);
    assert(w.subrange(8, 8 + lm) =~= vm);
    lemma_string_round_trip(w, 8, h.message_type);
    assert(w[8 + lm] == ',');
    assert(spec_skip_ws(w, 8 + lm) == 8 + lm);
    assert(w[9 + lm] == '"');
    assert(spec_skip_ws(w, 9 + lm) == 9 + lm);
    assert(w.subrange(9 + lm, 15 + lm) =~= km);
    lemma_string_round_trip(w, 9 + lm, "time"@);
    assert(w[15 + lm] == ':');
    assert(spec_skip_ws(w, 15 + lm) == 15 + lm);
    assert(w[16 + lm] == '"');
    assert(spec_skip_ws(w, 16 + lm) == 16 + lm);
    assert(w.subrange(16 + lm, 16 + lm + lv) =~= vt);
    lemma_string_round_trip(w, 16 + lm, h.time);
    assert(w[16 + lm + lv] == '}');
    assert(spec_skip_ws(w, 16 + lm + lv) == 16 + lm + lv);
    assert(spec_skip_ws(w, 17 + lm + lv) == 17 + lm + lv);

    assert("time"@ != "type"@);
    assert(spec_heartbeat_member(w, 1, None, None) == spec_heartbeat_sep(
        w,
        8 + lm,
        Some(h.message_type),
        None,
    ));
    assert(spec_heartbeat_sep(w, 8 + lm, Some(h.message_type), None) == spec_heartbeat_member(
        w,
        9 + lm,
        Some(h.message_type),
        None,
    ));
    assert(spec_heartbeat_member(w, 9 + lm, Some(h.message_type), None) == spec_heartbeat_sep(
        w,
        16 + lm + lv,
        Some(h.message_type),
        Some(h.time),
    ));
    assert(spec_heartbeat_sep(w, 16 + lm + lv, Some(h.message_type), Some(h.time))
        == spec_heartbeat_done(Some(h.message_type), Some(h.time), 17 + lm + lv));
    assert(h == (RawHeartbeatView { message_type: h.message_type, time: h.time }));
    assert(spec_parse_heartbeat_record(w) == Some(h));

    assert("asks"@ != "type"@);
    assert("bids"@ != "type"@);
    assert("closeoutAsk"@ != "type"@);
    assert("closeoutBid"@ != "type"@);
    assert("instrument"@ != "type"@);
    assert("status"@ != "type"@);
    assert("asks"@ != "time"@);
    assert("bids"@ != "time"@);
    assert("closeoutAsk"@ != "time"@);
    assert("closeoutBid"@ != "time"@);
    assert("instrument"@ != "time"@);
    assert("status"@ != "time"@);
    assert(spec_pricing_member(w, 1, None, None, None, None, None, None, None)
        == spec_pricing_sep(w, 8 + lm, None, None, None, None, None, None, None));
    assert(spec_pricing_sep(w, 8 + lm, None, None, None, None, None, None, None)
        == spec_pricing_member(w, 9 + lm, None, None, None, None, None, None, None));
    assert(spec_pricing_member(w, 9 + lm, None, None, None, None, None, None, None)
        == spec_pricing_sep(w, 16 + lm + lv, None, None, None, None, None, None, Some(h.time)));
    assert(spec_pricing_sep(w, 16 + lm + lv, None, None, None, None, None, None, Some(h.time))
        == spec_pricing_done(None, None, None, None, None, None, Some(h.time), 17 + lm + lv));
    assert(spec_pricing_done(None, None, None, None, None, None, Some(h.time), 17 + lm + lv)
        is None);
    assert(spec_parse_pricing_record(w) is None);
}

proof fn lemma_render_u64_digit_chars(n: u64)
    ensures
        render_u64(n).len() >= 1,
        forall|k: int| 0 <= k < render_u64(n).len() ==> is_digit(#[trigger] render_u64(n)[k]),
        n >= 10 ==> digit_val(render_u64(n)[0]) >= 1,
        n < 10 ==> render_u64(n).len() == 1 && digit_val(render_u64(n)[0]) == n,
    decreases n,
{
    if n < 10 {
        let dc = ((48 + n) as u8) as char;
        assert(render_u64(n) == seq![dc]);
        assert(dc as u32 == 48 + n);
        assert(digit_val(dc) == n);
    } else {
        lemma_render_u64_digit_chars(n / 10);
        let prev = render_u64(n / 10);
        let dc = ((48 + (n % 10)) as u8) as char;
        assert(render_u64(n) == prev + seq![dc]);
        assert(dc as u32 == 48 + (n % 10));
        assert(digit_val(dc) == n % 10);
        assert forall|k: int| 0 <= k < render_u64(n).len() implies is_digit(
            #[trigger] render_u64(n)[k],
        ) by {
            if k < prev.len() {
                assert(render_u64(n)[k] == prev[k]);
            } else {
                assert(render_u64(n)[k] == dc);
            }
        }
        assert(render_u64(n)[0] == prev[0]);
        assert(n / 10 >= 1);
    }
}

proof fn lemma_digits_end_at(w: Seq<char>, i: int, j: int)
    requires
        0 <= i <= j <= w.len(),
        forall|k: int| i <= k < j ==> is_digit(w[k]),
        j < w.len() ==> !is_digit(w[j]),
    ensures
        crate::parse::spec_digits_end(w, i) == j,
    decreases j - i,
{
    if i < j {
        lemma_digits_end_at(w, i + 1, j);
    }
}

proof fn lemma_digits_val_of_render(w: Seq<char>, i: int, n: u64)
    requires
        0 <= i,
        i + render_u64(n).len() <= w.len(),
        w.subrange(i, i + render_u64(n).len()) == render_u64(n),
    ensures
        crate::parse::spec_digits_val(w, i, i + render_u64(n).len()) == n,
    decreases n,
{
    let r = render_u64(n);
    let ll = r.len() as int;
    let sub = w.subrange(i, i + ll);
    lemma_render_u64_digit_chars(n);
    if n < 10 {
        assert(sub[0] == w[i]);
        assert(w[i] == r[0]);
        assert(crate::parse::spec_digits_val(w, i, i + 1) == crate::parse::spec_digits_val(
            w,
            i,
            i,
        ) * 10 + digit_val(w[i]));
    } else {
        let prev = render_u64(n / 10);
        let pl = prev.len() as int;
        lemma_render_u64_digit_chars(n / 10);
        assert(r == prev + seq![((48 + (n % 10)) as u8) as char]);
        assert(w.subrange(i, i + pl) =~= prev) by {
            let sub2 = w.subrange(i, i + pl);
            assert forall|k: int| 0 <= k < pl implies sub2[k] == prev[k] by {
                assert(sub2[k] == w[i + k]);
                assert(sub[k] == w[i + k]);
                assert(sub[k] == r[k]);
                assert(r[k] == prev[k]);
            }
        }
        lemma_digits_val_of_render(w, i, n / 10);
        assert(sub[ll - 1] == w[i + (ll - 1)]);
        assert(r[ll - 1] == ((48 + (n % 10)) as u8) as char);
        assert(digit_val(w[i + (ll - 1)]) == n % 10);
        assert(crate::parse::spec_digits_val(w, i, i + ll) == crate::parse::spec_digits_val(
            w,
            i,
            i + ll - 1,
        ) * 10 + digit_val(w[i + ll - 1]));
        assert(i + (ll - 1) == i + ll - 1);
        assert((n / 10) * 10 + (n % 10) == n);
    }
}

/// Parsing the decimal rendering of a number at its position recovers the
/// number, provided the following character cannot extend it.
proof fn lemma_u64_round_trip(w: Seq<char>, i: int, n: u64)
    requires
        0 <= i,
        i + render_u64(n).len() <= w.len(),
        w.subrange(i, i + render_u64(n).len()) == render_u64(n),
        i + render_u64(n).len() < w.len() ==> !is_digit(w[i + render_u64(n).len()]),
    ensures
        crate::parse::spec_parse_u64(w, i) == Some((n, i + render_u64(n).len())),
{
    let r = render_u64(n);
    let ll = r.len() as int;
    let sub = w.subrange(i, i + ll);
    lemma_render_u64_digit_chars(n);
    assert forall|k: int| i <= k < i + ll implies is_digit(w[k]) by {
        assert(sub[k - i] == w[k]);
        assert(sub[k - i] == r[k - i]);
    }
    lemma_digits_end_at(w, i, i + ll);
    lemma_digits_val_of_render(w, i, n);
    assert(sub[0] == w[i]);
    assert(w[i] == r[0]);
    assert(is_digit(w[i]));
    if ll > 1 {
        assert(n >= 10);
        assert(digit_val(r[0]) >= 1);
        assert(digit_val('0' as char) == 0);
        assert(w[i] != '0');
    } else {
        assert(i + 1 == i + ll);
        if i + 1 < w.len() {
            assert(!is_digit(w[i + 1]));
        }
    }
}

/// Parsing the rendering of one price level at its position recovers it.
#[verifier::rlimit(100)]
#[verifier::spinoff_prover]
proof fn lemma_quote_round_trip(w: Seq<char>, i: int, q: QuoteView)
    ensures
        0 <= i && i + render_quote(q).len() <= w.len() && w.subrange(
            i,
            i + render_quote(q).len(),
        ) == render_quote(q) ==> crate::parse::spec_parse_quote(w, i) == Some(
            (q, i + render_quote(q).len()),
        ),
{
    if !(0 <= i && i + render_quote(q).len() <= w.len() && w.subrange(i, i + render_quote(q).len())
        == render_quote(q)) {
        return ;
    }
    reveal_strlit("liquidity");
    reveal_strlit("price");
    assert(forall|k: int| 0 <= k < "liquidity"@.len() ==> plain_char("liquidity"@[k]));
    assert(forall|k: int| 0 <= k < "price"@.len() ==> plain_char("price"@[k]));
    lemma_render_body_plain("liquidity"@);
    lemma_render_body_plain("price"@);
    lemma_render_u64_digit_chars(q.liquidity);
    let rq = render_quote(q);
    let kl = render_string("liquidity"@);
    let num = render_u64(q.liquidity);
    let kp = render_string("price"@);
    let ps = render_string(q.price);
    let ln = num.len() as int;
    let lp = ps.len() as int;
    assert(kl.len() == 11);
    assert(kp.len() == 7);
    assert(lp >= 2);
    assert(rq == seq!['{'] + kl + seq![':'] + num + seq![','] + kp + seq![':'] + ps + seq!['}']);
    let ll = rq.len() as int;
    assert(ll == 23 + ln + lp);
    let sub = w.subrange(i, i + ll);
    assert forall|k: int| 0 <= k < ll implies #[trigger] w[i + k] == rq[k] by {
        assert(sub[k] == w[i + k]);
    }
    assert(w.subrange(i + 1, i + 12) =~= kl) by {
        let s2 = w.subrange(i + 1, i + 12);
        assert forall|k: int| 0 <= k < 11 implies s2[k] == kl[k] by {
            assert(s2[k] == w[i + 1 + k]);
            assert(w[i + (1 + k)] == rq[1 + k]);
            assert(rq[1 + k] == kl[k]);
        }
    }
    assert(w.subrange(i + 13, i + 13 + ln) =~= num) by {
        let s2 = w.subrange(i + 13, i + 13 + ln);
        assert forall|k: int| 0 <= k < ln implies s2[k] == num[k] by {
            assert(s2[k] == w[i + 13 + k]);
            assert(w[i + (13 + k)] == rq[13 + k]);
            assert(rq[13 + k] == num[k]);
        }
    }
    assert(w.subrange(i + 14 + ln, i + 21 + ln) =~= kp) by {
        let s2 = w.subrange(i + 14 + ln, i + 21 + ln);
        assert forall|k: int| 0 <= k < 7 implies s2[k] == kp[k] by {
            assert(s2[k] == w[i + 14 + ln + k]);
            assert(w[i + (14 + ln + k)] == rq[14 + ln + k]);
            assert(rq[14 + ln + k] == kp[k]);
        }
    }
    assert(w.subrange(i + 22 + ln, i + 22 + ln + lp) =~= ps) by {
        let s2 = w.subrange(i + 22 + ln, i + 22 + ln + lp);
        assert forall|k: int| 0 <= k < lp implies s2[k] == ps[k] by {
            assert(s2[k] == w[i + 22 + ln + k]);
            assert(w[i + (22 + ln + k)] == rq[22 + ln + k]);
            assert(rq[22 + ln + k] == ps[k]);
        }
    }
    assert(w[i + 0] == '{');
    assert(w[i + 1] == '"');
    assert(spec_skip_ws(w, i + 1) == i + 1);
    lemma_string_round_trip(w, i + 1, "liquidity"@);
    assert(w[i + 12] == ':');
    assert(spec_skip_ws(w, i + 12) == i + 12);
    assert(rq[13] == num[0]);
    assert(is_digit(w[i + 13]));
    assert(48 <= w[i + 13] as u32 && w[i + 13] as u32 <= 57);
    assert(!is_json_ws(w[i + 13]));
    assert(spec_skip_ws(w, i + 13) == i + 13);
    assert(w[i + (13 + ln)] == ',');
    assert(i + 13 + ln < w.len() ==> !is_digit(w[i + 13 + ln]));
    lemma_u64_round_trip(w, i + 13, q.liquidity);
    assert(spec_skip_ws(w, i + 13 + ln) == i + 13 + ln);
    assert(w[i + (14 + ln)] == '"');
    assert(spec_skip_ws(w, i + 14 + ln) == i + 14 + ln);
    lemma_string_round_trip(w, i + 14 + ln, "price"@);
    assert(w[i + (21 + ln)] == ':');
    assert(spec_skip_ws(w, i + 21 + ln) == i + 21 + ln);
    assert(w[i + (22 + ln)] == '"');
    assert(spec_skip_ws(w, i + 22 + ln) == i + 22 + ln);
    lemma_string_round_trip(w, i + 22 + ln, q.price);
    assert(w[i + (22 + ln + lp)] == '}');
    assert(spec_skip_ws(w, i + 22 + ln + lp) == i + 22 + ln + lp);
    assert("price"@ != "liquidity"@);
    assert(crate::parse::spec_quote_member(w, i + 1, None, None)
        == crate::parse::spec_quote_sep(w, i + 13 + ln, Some(q.liquidity), None));
    assert(crate::parse::spec_quote_sep(w, i + 13 + ln, Some(q.liquidity), None)
        == crate::parse::spec_quote_member(w, i + 14 + ln, Some(q.liquidity), None));
    assert(crate::parse::spec_quote_member(w, i + 14 + ln, Some(q.liquidity), None)
        == crate::parse::spec_quote_sep(w, i + 22 + ln + lp, Some(q.liquidity), Some(q.price)));
    assert(crate::parse::spec_quote_sep(w, i + 22 + ln + lp, Some(q.liquidity), Some(q.price))
        == Some((QuoteView { liquidity: q.liquidity, price: q.price }, i + ll)));
    assert(q == (QuoteView { liquidity: q.liquidity, price: q.price }));
}

proof fn lemma_array_items_round_trip(w: Seq<char>, i: int, qs: Seq<QuoteView>, acc: Seq<
    QuoteView,
>)
    requires
        qs.len() >= 1,
        0 <= i,
        i + render_quotes(qs).len() + 1 <= w.len(),
        w.subrange(i, i + render_quotes(qs).len() + 1) == render_quotes(qs) + seq![']'],
    ensures
        crate::parse::spec_array_item(w, i, acc) == Some(
            (acc + qs, i + render_quotes(qs).len() + 1),
        ),
    decreases qs.len(),
{
    let r = render_quotes(qs);
    let seg = r + seq![']'];
    let ll = r.len() as int;
    let sub = w.subrange(i, i + ll + 1);
    assert forall|k: int| 0 <= k < ll + 1 implies #[trigger] w[i + k] == seg[k] by {
        assert(sub[k] == w[i + k]);
    }
    let q0 = render_quote(qs[0]);
    let l0 = q0.len() as int;
    assert(l0 >= 2);
    if qs.len() == 1 {
        assert(r == q0);
        assert(w.subrange(i, i + l0) =~= q0) by {
            let s2 = w.subrange(i, i + l0);
            assert forall|k: int| 0 <= k < l0 implies s2[k] == q0[k] by {
                assert(s2[k] == w[i + k]);
                assert(seg[k] == r[k]);
            }
        }
        lemma_quote_round_trip(w, i, qs[0]);
        assert(w[i + l0] == ']');
        assert(spec_skip_ws(w, i + l0) == i + l0);
        assert(acc.push(qs[0]) =~= acc + qs);
    } else {
        let rest = render_quotes(qs.drop_first());
        assert(r == q0 + seq![','] + rest);
        assert(w.subrange(i, i + l0) =~= q0) by {
            let s2 = w.subrange(i, i + l0);
            assert forall|k: int| 0 <= k < l0 implies s2[k] == q0[k] by {
                assert(s2[k] == w[i + k]);
                assert(seg[k] == r[k]);
                assert(r[k] == q0[k]);
            }
        }
        lemma_quote_round_trip(w, i, qs[0]);
        assert(w[i + l0] == ',');
        assert(spec_skip_ws(w, i + l0) == i + l0);
        assert(w.subrange(i + l0 + 1, i + l0 + 1 + rest.len() + 1) =~= rest + seq![']']) by {
            let s2 = w.subrange(i + l0 + 1, i + l0 + 1 + rest.len() + 1);
            assert forall|k: int| 0 <= k < rest.len() + 1 implies s2[k] == (rest
                + seq![']'])[k] by {
                assert(s2[k] == w[i + l0 + 1 + k]);
                assert(w[i + (l0 + 1 + k)] == seg[l0 + 1 + k]);
                if k < rest.len() {
                    assert(seg[l0 + 1 + k] == r[l0 + 1 + k]);
                    assert(r[l0 + 1 + k] == rest[k]);
                    assert((rest + seq![']'])[k] == rest[k]);
                } else {
                    assert(seg[l0 + 1 + k] == ']');
                    assert((rest + seq![']'])[k] == ']');
                }
            }
        }
        assert(rest[0] == render_quote(qs.drop_first()[0])[0]);
        assert(render_quote(qs.drop_first()[0])[0] == '{');
        assert(w[i + (l0 + 1)] == '{');
        assert(spec_skip_ws(w, i + l0 + 1) == i + l0 + 1);
        lemma_array_items_round_trip(w, i + l0 + 1, qs.drop_first(), acc.push(qs[0]));
        assert(acc.push(qs[0]) + qs.drop_first() =~= acc + qs);
    }
}

proof fn lemma_quote_array_round_trip(w: Seq<char>, i: int, qs: Seq<QuoteView>)
    requires
        0 <= i,
        i + render_quote_array(qs).len() <= w.len(),
        w.subrange(i, i + render_quote_array(qs).len()) == render_quote_array(qs),
    ensures
        crate::parse::spec_parse_quote_array(w, i) == Some(
            (qs, i + render_quote_array(qs).len()),
        ),
{
    let ra = render_quote_array(qs);
    let r = render_quotes(qs);
    let ll = ra.len() as int;
    let sub = w.subrange(i, i + ll);
    assert forall|k: int| 0 <= k < ll implies #[trigger] w[i + k] == ra[k] by {
        assert(sub[k] == w[i + k]);
    }
    assert(w[i + 0] == '[');
    if qs.len() == 0 {
        assert(w[i + 1] == ']');
        assert(spec_skip_ws(w, i + 1) == i + 1);
        assert(Seq::<QuoteView>::empty() =~= qs);
    } else {
        assert(ra[1] == r[0]);
        assert(r[0] == render_quote(qs[0])[0]);
        assert(render_quote(qs[0])[0] == '{');
        assert(w[i + 1] == '{');
        assert(spec_skip_ws(w, i + 1) == i + 1);
        assert(w.subrange(i + 1, i + 1 + r.len() + 1) =~= r + seq![']']) by {
            let s2 = w.subrange(i + 1, i + 1 + r.len() + 1);
            assert forall|k: int| 0 <= k < r.len() + 1 implies s2[k] == (r + seq![']'])[k] by {
                assert(s2[k] == w[i + 1 + k]);
                assert(w[i + (1 + k)] == ra[1 + k]);
                if k < r.len() {
                    assert(ra[1 + k] == r[k]);
                    assert((r + seq![']'])[k] == r[k]);
                } else {
                    assert(ra[1 + k] == ']');
                    assert((r + seq![']'])[k] == ']');
                }
            }
        }
        lemma_array_items_round_trip(w, i + 1, qs, Seq::empty());
        assert(Seq::<QuoteView>::empty() + qs =~= qs);
    }
}

spec fn po0(p: RawPricingView) -> int {
    16 + render_quote_array(p.asks).len() as int + render_quote_array(p.bids).len() as int
}

spec fn po1(p: RawPricingView) -> int {
    po0(p) + 15 + render_string(p.closeout_ask).len() as int
}

spec fn po2(p: RawPricingView) -> int {
    po1(p) + 15 + render_string(p.closeout_bid).len() as int
}

spec fn po3(p: RawPricingView) -> int {
    po2(p) + 14 + render_string(p.instrument).len() as int
}

spec fn po4(p: RawPricingView) -> int {
    po3(p) + 10 + render_string(p.status).len() as int
}

spec fn plen(p: RawPricingView) -> int {
    po4(p) + 9 + render_string(p.time).len() as int
}

proof fn lemma_split_subrange(w: Seq<char>, a: int, b: int, u: Seq<char>, v: Seq<char>)
    requires
        0 <= a <= b <= w.len(),
        b - a == u.len() + v.len(),
        w.subrange(a, b) == u + v,
    ensures
        w.subrange(a, a + u.len()) == u,
        w.subrange(a + u.len(), b) == v,
{
    let s = w.subrange(a, b);
    let ul = u.len() as int;
    assert(w.subrange(a, a + ul) =~= u) by {
        let s1 = w.subrange(a, a + ul);
        assert forall|k: int| 0 <= k < ul implies s1[k] == u[k] by {
            assert(s1[k] == w[a + k]);
            assert(s[k] == w[a + k]);
            assert(s[k] == (u + v)[k]);
        }
    }
    assert(w.subrange(a + ul, b) =~= v) by {
        let s2 = w.subrange(a + ul, b);
        assert forall|k: int| 0 <= k < v.len() implies s2[k] == v[k] by {
            assert(s2[k] == w[a + ul + k]);
            assert(s[ul + k] == w[a + (ul + k)]);
            assert(a + (ul + k) == a + ul + k);
            assert(s[ul + k] == (u + v)[ul + k]);
        }
    }
}

proof fn lemma_char_at(w: Seq<char>, a: int, c: char)
    requires
        0 <= a,
        a + 1 <= w.len(),
        w.subrange(a, a + 1) == seq![c],
    ensures
        w[a] == c,
{
    assert(w.subrange(a, a + 1)[0] == w[a]);
}

/// The seven field keys are pairwise distinct.
proof fn lemma_key_inequalities()
    ensures
        "bids"@ != "asks"@,
        "closeoutAsk"@ != "asks"@,
        "closeoutAsk"@ != "bids"@,
        "closeoutBid"@ != "asks"@,
        "closeoutBid"@ != "bids"@,
        "closeoutBid"@ != "closeoutAsk"@,
        "instrument"@ != "asks"@,
        "instrument"@ != "bids"@,
        "instrument"@ != "closeoutAsk"@,
        "instrument"@ != "closeoutBid"@,
        "status"@ != "asks"@,
        "status"@ != "bids"@,
        "status"@ != "closeoutAsk"@,
        "status"@ != "closeoutBid"@,
        "status"@ != "instrument"@,
        "time"@ != "asks"@,
        "time"@ != "bids"@,
        "time"@ != "closeoutAsk"@,
        "time"@ != "closeoutBid"@,
        "time"@ != "instrument"@,
        "time"@ != "status"@,
{
    reveal_strlit("asks");
    reveal_strlit("bids");
    reveal_strlit("closeoutAsk");
    reveal_strlit("closeoutBid");
    reveal_strlit("instrument");
    reveal_strlit("status");
    reveal_strlit("time");
    assert("asks"@.len() == 4);
    assert("bids"@.len() == 4);
    assert("closeoutAsk"@.len() == 11);
    assert("closeoutBid"@.len() == 11);
    assert("instrument"@.len() == 10);
    assert("status"@.len() == 6);
    assert("time"@.len() == 4);
    assert("asks"@[0] == 'a' && "bids"@[0] == 'b' && "time"@[0] == 't');
    assert("closeoutAsk"@[8] == 'A' && "closeoutBid"@[8] == 'B');
}

#[verifier::rlimit(100)]
#[verifier::spinoff_prover]
proof fn lemma_pricing_layout_tail(p: RawPricingView)
    ensures
        render_pricing(p).len() == plen(p),
        render_pricing(p).subrange(0, po0(p)) == seq!['{'] + render_string("asks"@) + seq![':']
            + render_quote_array(p.asks) + seq![','] + render_string("bids"@) + seq![':']
            + render_quote_array(p.bids),
        render_pricing(p)[po0(p)] == ',',
        render_pricing(p).subrange(po0(p) + 1, po0(p) + 14) == render_string("closeoutAsk"@),
        render_pricing(p)[po0(p) + 14] == ':',
        render_pricing(p).subrange(po0(p) + 15, po1(p)) == render_string(p.closeout_ask),
        render_pricing(p)[po1(p)] == ',',
        render_pricing(p).subrange(po1(p) + 1, po1(p) + 14) == render_string("closeoutBid"@),
        render_pricing(p)[po1(p) + 14] == ':',
        render_pricing(p).subrange(po1(p) + 15, po2(p)) == render_string(p.closeout_bid),
        render_pricing(p)[po2(p)] == ',',
        render_pricing(p).subrange(po2(p) + 1, po2(p) + 13) == render_string("instrument"@),
        render_pricing(p)[po2(p) + 13] == ':',
        render_pricing(p).subrange(po2(p) + 14, po3(p)) == render_string(p.instrument),
        render_pricing(p)[po3(p)] == ',',
        render_pricing(p).subrange(po3(p) + 1, po3(p) + 9) == render_string("status"@),
        render_pricing(p)[po3(p) + 9] == ':',
        render_pricing(p).subrange(po3(p) + 10, po4(p)) == render_string(p.status),
        render_pricing(p)[po4(p)] == ',',
        render_pricing(p).subrange(po4(p) + 1, po4(p) + 7) == render_string("time"@),
        render_pricing(p)[po4(p) + 7] == ':',
        render_pricing(p).subrange(po4(p) + 8, plen(p) - 1) == render_string(p.time),
        render_pricing(p)[plen(p) - 1] == '}',
{
    lemma_render_body_plain_keys();
    let w = render_pricing(p);
    let ka = render_string("asks"@);
    let kb = render_string("bids"@);
    let kca = render_string("closeoutAsk"@);
    let kcb = render_string("closeoutBid"@);
    let kin = render_string("instrument"@);
    let kst = render_string("status"@);
    let ktm = render_string("time"@);
    let a1 = render_quote_array(p.asks);
    let a2 = render_quote_array(p.bids);
    let s1 = render_string(p.closeout_ask);
    let s2 = render_string(p.closeout_bid);
    let s3 = render_string(p.instrument);
    let s4 = render_string(p.status);
    let s5 = render_string(p.time);
    let c07 = seq!['{'] + ka + seq![':'] + a1 + seq![','] + kb + seq![':'] + a2;
    let c08 = c07 + seq![','];
    let c09 = c08 + kca;
    let c10 = c09 + seq![':'];
    let c11 = c10 + s1;
    let c12 = c11 + seq![','];
    let c13 = c12 + kcb;
    let c14 = c13 + seq![':'];
    let c15 = c14 + s2;
    let c16 = c15 + seq![','];
    let c17 = c16 + kin;
    let c18 = c17 + seq![':'];
    let c19 = c18 + s3;
    let c20 = c19 + seq![','];
    let c21 = c20 + kst;
    let c22 = c21 + seq![':'];
    let c23 = c22 + s4;
    let c24 = c23 + seq![','];
    let c25 = c24 + ktm;
    let c26 = c25 + seq![':'];
    let c27 = c26 + s5;
    assert(w =~= c27 + seq!['}']);
    let ll = w.len() as int;
    assert(ll == plen(p));
    assert(w.subrange(0, ll) =~= w) by {
        let s0 = w.subrange(0, ll);
        assert forall|k: int| 0 <= k < ll implies s0[k] == w[k] by {
            assert(s0[k] == w[0 + k]);
        }
    }
    lemma_split_subrange(w, 0, ll, c27, seq!['}']);
    lemma_char_at(w, ll - 1, '}');
    lemma_split_subrange(w, 0, c27.len() as int, c26, s5);
    lemma_split_subrange(w, 0, c26.len() as int, c25, seq![':']);
    lemma_char_at(w, c25.len() as int, ':');
    lemma_split_subrange(w, 0, c25.len() as int, c24, ktm);
    lemma_split_subrange(w, 0, c24.len() as int, c23, seq![',']);
    lemma_char_at(w, c23.len() as int, ',');
    lemma_split_subrange(w, 0, c23.len() as int, c22, s4);
    lemma_split_subrange(w, 0, c22.len() as int, c21, seq![':']);
    lemma_char_at(w, c21.len() as int, ':');
    lemma_split_subrange(w, 0, c21.len() as int, c20, kst);
    lemma_split_subrange(w, 0, c20.len() as int, c19, seq![',']);
    lemma_char_at(w, c19.len() as int, ',');
    lemma_split_subrange(w, 0, c19.len() as int, c18, s3);
    lemma_split_subrange(w, 0, c18.len() as int, c17, seq![':']);
    lemma_char_at(w, c17.len() as int, ':');
    lemma_split_subrange(w, 0, c17.len() as int, c16, kin);
    lemma_split_subrange(w, 0, c16.len() as int, c15, seq![',']);
    lemma_char_at(w, c15.len() as int, ',');
    lemma_split_subrange(w, 0, c15.len() as int, c14, s2);
    lemma_split_subrange(w, 0, c14.len() as int, c13, seq![':']);
    lemma_char_at(w, c13.len() as int, ':');
    lemma_split_subrange(w, 0, c13.len() as int, c12, kcb);
    lemma_split_subrange(w, 0, c12.len() as int, c11, seq![',']);
    lemma_char_at(w, c11.len() as int, ',');
    lemma_split_subrange(w, 0, c11.len() as int, c10, s1);
    lemma_split_subrange(w, 0, c10.len() as int, c09, seq![':']);
    lemma_char_at(w, c09.len() as int, ':');
    lemma_split_subrange(w, 0, c09.len() as int, c08, kca);
    lemma_split_subrange(w, 0, c08.len() as int, c07, seq![',']);
    lemma_char_at(w, c07.len() as int, ',');
}

#[verifier::rlimit(100)]
#[verifier::spinoff_prover]
proof fn lemma_pricing_layout(p: RawPricingView)
    ensures
        render_pricing(p).len() == plen(p),
        render_pricing(p)[0] == '{',
        render_pricing(p).subrange(1, 7) == render_string("asks"@),
        render_pricing(p)[7] == ':',
        render_pricing(p).subrange(8, 8 + render_quote_array(p.asks).len() as int)
            == render_quote_array(p.asks),
        render_pricing(p)[8 + render_quote_array(p.asks).len() as int] == ',',
        render_pricing(p).subrange(
            9 + render_quote_array(p.asks).len() as int,
            15 + render_quote_array(p.asks).len() as int,
        ) == render_string("bids"@),
        render_pricing(p)[15 + render_quote_array(p.asks).len() as int] == ':',
        render_pricing(p).subrange(16 + render_quote_array(p.asks).len() as int, po0(p))
            == render_quote_array(p.bids),
        render_pricing(p)[po0(p)] == ',',
        render_pricing(p).subrange(po0(p) + 1, po0(p) + 14) == render_string("closeoutAsk"@),
        render_pricing(p)[po0(p) + 14] == ':',
        render_pricing(p).subrange(po0(p) + 15, po1(p)) == render_string(p.closeout_ask),
        render_pricing(p)[po1(p)] == ',',
        render_pricing(p).subrange(po1(p) + 1, po1(p) + 14) == render_string("closeoutBid"@),
        render_pricing(p)[po1(p) + 14] == ':',
        render_pricing(p).subrange(po1(p) + 15, po2(p)) == render_string(p.closeout_bid),
        render_pricing(p)[po2(p)] == ',',
        render_pricing(p).subrange(po2(p) + 1, po2(p) + 13) == render_string("instrument"@),
        render_pricing(p)[po2(p) + 13] == ':',
        render_pricing(p).subrange(po2(p) + 14, po3(p)) == render_string(p.instrument),
        render_pricing(p)[po3(p)] == ',',
        render_pricing(p).subrange(po3(p) + 1, po3(p) + 9) == render_string("status"@),
        render_pricing(p)[po3(p) + 9] == ':',
        render_pricing(p).subrange(po3(p) + 10, po4(p)) == render_string(p.status),
        render_pricing(p)[po4(p)] == ',',
        render_pricing(p).subrange(po4(p) + 1, po4(p) + 7) == render_string("time"@),
        render_pricing(p)[po4(p) + 7] == ':',
        render_pricing(p).subrange(po4(p) + 8, plen(p) - 1) == render_string(p.time),
        render_pricing(p)[plen(p) - 1] == '}',
{
    lemma_render_body_plain_keys();
    lemma_pricing_layout_tail(p);
    let w = render_pricing(p);
    let ka = render_string("asks"@);
    let kb = render_string("bids"@);
    let a1 = render_quote_array(p.asks);
    let a2 = render_quote_array(p.bids);
    let c01 = seq!['{'] + ka;
    let c02 = c01 + seq![':'];
    let c03 = c02 + a1;
    let c04 = c03 + seq![','];
    let c05 = c04 + kb;
    let c06 = c05 + seq![':'];
    let c07 = c06 + a2;
    assert(w.subrange(0, po0(p)) == c07) by {
        assert(seq!['{'] + ka + seq![':'] + a1 + seq![','] + kb + seq![':'] + a2 =~= c07);
    }
    lemma_split_subrange(w, 0, c07.len() as int, c06, a2);
    lemma_split_subrange(w, 0, c06.len() as int, c05, seq![':']);
    lemma_char_at(w, c05.len() as int, ':');
    lemma_split_subrange(w, 0, c05.len() as int, c04, kb);
    lemma_split_subrange(w, 0, c04.len() as int, c03, seq![',']);
    lemma_char_at(w, c03.len() as int, ',');
    lemma_split_subrange(w, 0, c03.len() as int, c02, a1);
    lemma_split_subrange(w, 0, c02.len() as int, c01, seq![':']);
    lemma_char_at(w, c01.len() as int, ':');
    lemma_split_subrange(w, 0, c01.len() as int, seq!['{'], ka);
    lemma_char_at(w, 0, '{');
}

/// The seven field keys hold no character that needs an escape.
proof fn lemma_render_body_plain_keys()
    ensures
        render_string_body("asks"@) == "asks"@,
        render_string_body("bids"@) == "bids"@,
        render_string_body("closeoutAsk"@) == "closeoutAsk"@,
        render_string_body("closeoutBid"@) == "closeoutBid"@,
        render_string_body("instrument"@) == "instrument"@,
        render_string_body("status"@) == "status"@,
        render_string_body("time"@) == "time"@,
        render_string("asks"@).len() == 6,
        render_string("bids"@).len() == 6,
        render_string("closeoutAsk"@).len() == 13,
        render_string("closeoutBid"@).len() == 13,
        render_string("instrument"@).len() == 12,
        render_string("status"@).len() == 8,
        render_string("time"@).len() == 6,
{
    reveal_strlit("asks");
    reveal_strlit("bids");
    reveal_strlit("closeoutAsk");
    reveal_strlit("closeoutBid");
    reveal_strlit("instrument");
    reveal_strlit("status");
    reveal_strlit("time");
    assert(forall|k: int| 0 <= k < "asks"@.len() ==> plain_char("asks"@[k]));
    assert(forall|k: int| 0 <= k < "bids"@.len() ==> plain_char("bids"@[k]));
    assert(forall|k: int| 0 <= k < "closeoutAsk"@.len() ==> plain_char("closeoutAsk"@[k]));
    assert(forall|k: int| 0 <= k < "closeoutBid"@.len() ==> plain_char("closeoutBid"@[k]));
    assert(forall|k: int| 0 <= k < "instrument"@.len() ==> plain_char("instrument"@[k]));
    assert(forall|k: int| 0 <= k < "status"@.len() ==> plain_char("status"@[k]));
    assert(forall|k: int| 0 <= k < "time"@.len() ==> plain_char("time"@[k]));
    lemma_render_body_plain("asks"@);
    lemma_render_body_plain("bids"@);
    lemma_render_body_plain("closeoutAsk"@);
    lemma_render_body_plain("closeoutBid"@);
    lemma_render_body_plain("instrument"@);
    lemma_render_body_plain("status"@);
    lemma_render_body_plain("time"@);
}

#[verifier::rlimit(100)]
#[verifier::spinoff_prover]
proof fn lemma_pricing_asks_step(p: RawPricingView)
    ensures
        spec_pricing_member(render_pricing(p), 1, None, None, None, None, None, None, None)
            == spec_pricing_member(
            render_pricing(p),
            9 + render_quote_array(p.asks).len() as int,
            Some(p.asks),
            None,
            None,
            None,
            None,
            None,
            None,
        ),
{
    lemma_render_body_plain_keys();
    lemma_key_inequalities();
    lemma_pricing_layout(p);
    let w = render_pricing(p);
    let ka = render_string("asks"@);
    let a1 = render_quote_array(p.asks);
    let la = a1.len() as int;
    assert(w.subrange(1, 7)[0] == w[1]);
    assert(ka[0] == '"');
    lemma_string_round_trip(w, 1, "asks"@);
    assert(spec_skip_ws(w, 7) == 7);
    assert(w.subrange(8, 8 + la)[0] == w[8]);
    assert(a1[0] == '[');
    assert(spec_skip_ws(w, 8) == 8);
    lemma_quote_array_round_trip(w, 8, p.asks);
    assert(spec_skip_ws(w, 8 + la) == 8 + la);
    assert(w.subrange(9 + la, 15 + la)[0] == w[9 + la]);
    assert(render_string("bids"@)[0] == '"');
    assert(spec_skip_ws(w, 9 + la) == 9 + la);
    assert(spec_pricing_member(w, 1, None, None, None, None, None, None, None) == spec_pricing_sep(
        w,
        8 + la,
        Some(p.asks),
        None,
        None,
        None,
        None,
        None,
        None,
    ));
}

#[verifier::rlimit(100)]
#[verifier::spinoff_prover]
proof fn lemma_pricing_bids_step(p: RawPricingView)
    ensures
        spec_pricing_member(
            render_pricing(p),
            9 + render_quote_array(p.asks).len() as int,
            Some(p.asks),
            None,
            None,
            None,
            None,
            None,
            None,
        ) == spec_pricing_member(
            render_pricing(p),
            po0(p) + 1,
            Some(p.asks),
            Some(p.bids),
            None,
            None,
            None,
            None,
            None,
        ),
{
    lemma_render_body_plain_keys();
    lemma_key_inequalities();
    lemma_pricing_layout(p);
    let w = render_pricing(p);
    let kb = render_string("bids"@);
    let a1 = render_quote_array(p.asks);
    let a2 = render_quote_array(p.bids);
    let la = a1.len() as int;
    assert(w.subrange(9 + la, 15 + la)[0] == w[9 + la]);
    assert(kb[0] == '"');
    lemma_string_round_trip(w, 9 + la, "bids"@);
    assert(spec_skip_ws(w, 15 + la) == 15 + la);
    assert(w.subrange(16 + la, po0(p))[0] == w[16 + la]);
    assert(a2[0] == '[');
    assert(spec_skip_ws(w, 16 + la) == 16 + la);
    lemma_quote_array_round_trip(w, 16 + la, p.bids);
    assert(spec_skip_ws(w, po0(p)) == po0(p));
    assert(w.subrange(po0(p) + 1, po0(p) + 14)[0] == w[po0(p) + 1]);
    assert(render_string("closeoutAsk"@)[0] == '"');
    assert(spec_skip_ws(w, po0(p) + 1) == po0(p) + 1);
    assert(spec_pricing_member(w, 9 + la, Some(p.asks), None, None, None, None, None, None)
        == spec_pricing_sep(w, po0(p), Some(p.asks), Some(p.bids), None, None, None, None, None));
}

#[verifier::rlimit(100)]
#[verifier::spinoff_prover]
proof fn lemma_pricing_closeout_ask_step(p: RawPricingView)
    ensures
        spec_pricing_member(
            render_pricing(p),
            po0(p) + 1,
            Some(p.asks),
            Some(p.bids),
            None,
            None,
            None,
            None,
            None,
        ) == spec_pricing_member(
            render_pricing(p),
            po1(p) + 1,
            Some(p.asks),
            Some(p.bids),
            Some(p.closeout_ask),
            None,
            None,
            None,
            None,
        ),
{
    lemma_key_inequalities();
    lemma_render_body_plain_keys();
    lemma_pricing_layout(p);
    let w = render_pricing(p);
    let s1 = render_string(p.closeout_ask);
    let m0 = po0(p);
    let m1 = po1(p);
    lemma_string_round_trip(w, m0 + 1, "closeoutAsk"@);
    assert(spec_skip_ws(w, m0 + 14) == m0 + 14);
    assert(w.subrange(m0 + 15, m1)[0] == w[m0 + 15]);
    assert(s1[0] == '"');
    assert(spec_skip_ws(w, m0 + 15) == m0 + 15);
    lemma_string_round_trip(w, m0 + 15, p.closeout_ask);
    assert(spec_skip_ws(w, m1) == m1);
    assert(w.subrange(m1 + 1, m1 + 14)[0] == w[m1 + 1]);
    assert(render_string("closeoutBid"@)[0] == '"');
    assert(spec_skip_ws(w, m1 + 1) == m1 + 1);
    assert("closeoutAsk"@ != "asks"@ && "closeoutAsk"@ != "bids"@);
    assert(spec_pricing_member(w, m0 + 1, Some(p.asks), Some(p.bids), None, None, None, None, None)
        == spec_pricing_sep(
        w,
        m1,
        Some(p.asks),
        Some(p.bids),
        Some(p.closeout_ask),
        None,
        None,
        None,
        None,
    ));
}

#[verifier::rlimit(100)]
#[verifier::spinoff_prover]
proof fn lemma_pricing_closeout_bid_step(p: RawPricingView)
    ensures
        spec_pricing_member(
            render_pricing(p),
            po1(p) + 1,
            Some(p.asks),
            Some(p.bids),
            Some(p.closeout_ask),
            None,
            None,
            None,
            None,
        ) == spec_pricing_sep(
            render_pricing(p),
            po2(p),
            Some(p.asks),
            Some(p.bids),
            Some(p.closeout_ask),
            Some(p.closeout_bid),
            None,
            None,
            None,
        ),
{
    lemma_key_inequalities();
    lemma_render_body_plain_keys();
    lemma_pricing_layout_tail(p);
    let w = render_pricing(p);
    let s2 = render_string(p.closeout_bid);
    let m1 = po1(p);
    let m2 = po2(p);
    lemma_string_round_trip(w, m1 + 1, "closeoutBid"@);
    assert(spec_skip_ws(w, m1 + 14) == m1 + 14);
    assert(w.subrange(m1 + 15, m2)[0] == w[m1 + 15]);
    assert(s2[0] == '"');
    assert(spec_skip_ws(w, m1 + 15) == m1 + 15);
    lemma_string_round_trip(w, m1 + 15, p.closeout_bid);
    assert(spec_skip_ws(w, m2) == m2);
    assert(w.subrange(m2 + 1, m2 + 13)[0] == w[m2 + 1]);
    assert(render_string("instrument"@)[0] == '"');
    assert(spec_skip_ws(w, m2 + 1) == m2 + 1);
    assert("closeoutBid"@ != "asks"@ && "closeoutBid"@ != "bids"@ && "closeoutBid"@
        != "closeoutAsk"@);
    assert(spec_pricing_member(w, m1 + 1, Some(p.asks), Some(p.bids), Some(p.closeout_ask), None, None, None, None)
        == spec_pricing_sep(w, m2, Some(p.asks), Some(p.bids), Some(p.closeout_ask), Some(p.closeout_bid), None, None, None));
}

#[verifier::rlimit(100)]
#[verifier::spinoff_prover]
proof fn lemma_pricing_bid_sep_step(p: RawPricingView)
    ensures
        spec_pricing_sep(
            render_pricing(p),
            po2(p),
            Some(p.asks),
            Some(p.bids),
            Some(p.closeout_ask),
            Some(p.closeout_bid),
            None,
            None,
            None,
        ) == spec_pricing_member(
            render_pricing(p),
            po2(p) + 1,
            Some(p.asks),
            Some(p.bids),
            Some(p.closeout_ask),
            Some(p.closeout_bid),
            None,
            None,
            None,
        ),
{
    lemma_render_body_plain_keys();
    lemma_pricing_layout_tail(p);
    let w = render_pricing(p);
    let m2 = po2(p);
    assert(spec_skip_ws(w, m2) == m2);
    assert(w.subrange(m2 + 1, m2 + 13)[0] == w[m2 + 1]);
    assert(render_string("instrument"@)[0] == '"');
    assert(spec_skip_ws(w, m2 + 1) == m2 + 1);
}

#[verifier::rlimit(100)]
#[verifier::spinoff_prover]
proof fn lemma_pricing_tail_step(p: RawPricingView)
    ensures
        spec_pricing_member(
            render_pricing(p),
            po2(p) + 1,
            Some(p.asks),
            Some(p.bids),
            Some(p.closeout_ask),
            Some(p.closeout_bid),
            None,
            None,
            None,
        ) == spec_pricing_done(
            Some(p.asks),
            Some(p.bids),
            Some(p.closeout_ask),
            Some(p.closeout_bid),
            Some(p.instrument),
            Some(p.status),
            Some(p.time),
            plen(p),
        ),
{
    lemma_key_inequalities();
    lemma_render_body_plain_keys();
    lemma_pricing_layout(p);
    let w = render_pricing(p);
    let s3 = render_string(p.instrument);
    let s4 = render_string(p.status);
    let s5 = render_string(p.time);
    let l5 = s5.len() as int;
    let m2 = po2(p);
    let m3 = po3(p);
    let m4 = po4(p);
    let ll = plen(p);
    lemma_string_round_trip(w, m2 + 1, "instrument"@);
    assert(spec_skip_ws(w, m2 + 13) == m2 + 13);
    assert(w.subrange(m2 + 14, m3)[0] == w[m2 + 14]);
    assert(s3[0] == '"');
    assert(spec_skip_ws(w, m2 + 14) == m2 + 14);
    lemma_string_round_trip(w, m2 + 14, p.instrument);
    assert(spec_skip_ws(w, m3) == m3);
    assert(w.subrange(m3 + 1, m3 + 9)[0] == w[m3 + 1]);
    assert(render_string("status"@)[0] == '"');
    assert(spec_skip_ws(w, m3 + 1) == m3 + 1);
    lemma_string_round_trip(w, m3 + 1, "status"@);
    assert(spec_skip_ws(w, m3 + 9) == m3 + 9);
    assert(w.subrange(m3 + 10, m4)[0] == w[m3 + 10]);
    assert(s4[0] == '"');
    assert(spec_skip_ws(w, m3 + 10) == m3 + 10);
    lemma_string_round_trip(w, m3 + 10, p.status);
    assert(spec_skip_ws(w, m4) == m4);
    assert(w.subrange(m4 + 1, m4 + 7)[0] == w[m4 + 1]);
    assert(render_string("time"@)[0] == '"');
    assert(spec_skip_ws(w, m4 + 1) == m4 + 1);
    lemma_string_round_trip(w, m4 + 1, "time"@);
    assert(spec_skip_ws(w, m4 + 7) == m4 + 7);
    assert(w.subrange(m4 + 8, ll - 1)[0] == w[m4 + 8]);
    assert(s5[0] == '"');
    assert(spec_skip_ws(w, m4 + 8) == m4 + 8);
    lemma_string_round_trip(w, m4 + 8, p.time);
    assert(spec_skip_ws(w, m4 + 8 + l5) == m4 + 8 + l5);
    assert("instrument"@ != "asks"@ && "instrument"@ != "bids"@ && "instrument"@
        != "closeoutAsk"@ && "instrument"@ != "closeoutBid"@);
    assert("status"@ != "asks"@ && "status"@ != "bids"@ && "status"@ != "closeoutAsk"@ && "status"@
        != "closeoutBid"@ && "status"@ != "instrument"@);
    assert("time"@ != "asks"@ && "time"@ != "bids"@ && "time"@ != "closeoutAsk"@ && "time"@
        != "closeoutBid"@ && "time"@ != "instrument"@ && "time"@ != "status"@);
    assert(spec_pricing_member(w, m2 + 1, Some(p.asks), Some(p.bids), Some(p.closeout_ask), Some(p.closeout_bid), None, None, None)
        == spec_pricing_sep(w, m3, Some(p.asks), Some(p.bids), Some(p.closeout_ask), Some(p.closeout_bid), Some(p.instrument), None, None));
    assert(spec_pricing_sep(w, m3, Some(p.asks), Some(p.bids), Some(p.closeout_ask), Some(p.closeout_bid), Some(p.instrument), None, None)
        == spec_pricing_member(w, m3 + 1, Some(p.asks), Some(p.bids), Some(p.closeout_ask), Some(p.closeout_bid), Some(p.instrument), None, None));
    assert(spec_pricing_member(w, m3 + 1, Some(p.asks), Some(p.bids), Some(p.closeout_ask), Some(p.closeout_bid), Some(p.instrument), None, None)
        == spec_pricing_sep(w, m4, Some(p.asks), Some(p.bids), Some(p.closeout_ask), Some(p.closeout_bid), Some(p.instrument), Some(p.status), None));
    assert(spec_pricing_sep(w, m4, Some(p.asks), Some(p.bids), Some(p.closeout_ask), Some(p.closeout_bid), Some(p.instrument), Some(p.status), None)
        == spec_pricing_member(w, m4 + 1, Some(p.asks), Some(p.bids), Some(p.closeout_ask), Some(p.closeout_bid), Some(p.instrument), Some(p.status), None));
    assert(spec_pricing_member(w, m4 + 1, Some(p.asks), Some(p.bids), Some(p.closeout_ask), Some(p.closeout_bid), Some(p.instrument), Some(p.status), None)
        == spec_pricing_sep(w, m4 + 8 + l5, Some(p.asks), Some(p.bids), Some(p.closeout_ask), Some(p.closeout_bid), Some(p.instrument), Some(p.status), Some(p.time)));
    assert(spec_pricing_sep(w, m4 + 8 + l5, Some(p.asks), Some(p.bids), Some(p.closeout_ask), Some(p.closeout_bid), Some(p.instrument), Some(p.status), Some(p.time))
        == spec_pricing_done(Some(p.asks), Some(p.bids), Some(p.closeout_ask), Some(p.closeout_bid), Some(p.instrument), Some(p.status), Some(p.time), ll));
}

#[verifier::rlimit(100)]
#[verifier::spinoff_prover]
proof fn lemma_pricing_round_trip(p: RawPricingView)
    ensures
        spec_parse_pricing_record(render_pricing(p)) == Some(p),
{
    let w = render_pricing(p);
    lemma_render_body_plain_keys();
    lemma_pricing_layout(p);
    assert(w.len() == plen(p));
    assert(spec_skip_ws(w, 0) == 0);
    assert(w.subrange(1, 7)[0] == w[1]);
    assert(render_string("asks"@)[0] == '"');
    assert(spec_skip_ws(w, 1) == 1);
    lemma_pricing_asks_step(p);
    lemma_pricing_bids_step(p);
    lemma_pricing_closeout_ask_step(p);
    lemma_pricing_closeout_bid_step(p);
    lemma_pricing_bid_sep_step(p);
    lemma_pricing_tail_step(p);
    assert(spec_skip_ws(w, plen(p)) == plen(p));
    assert(p == (RawPricingView {
        asks: p.asks,
        bids: p.bids,
        closeout_ask: p.closeout_ask,
        closeout_bid: p.closeout_bid,
        instrument: p.instrument,
        status: p.status,
        time: p.time,
    }));
}

/// Parsing the canonical serialization of any wire record yields exactly the
/// record again, every field unchanged.
pub proof fn lemma_parse_serialize_round_trip(r: RawRecordView)
    ensures
        spec_parse_raw_record(render_record(r)) == Some(r),
{
    match r {
        RawRecordView::Pricing(p) => {
            lemma_pricing_round_trip(p);
        },
        RawRecordView::Heartbeat(h) => {
            lemma_heartbeat_round_trip(h);
        },
    }
}

} // verus!
