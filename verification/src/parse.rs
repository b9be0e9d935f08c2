//! Structural decoder for the two wire record shapes.
//!
//! The records arrive as JSON objects.  The decoder works on the characters
//! of one extracted line: it accepts the fields of each shape in any order,
//! skips unknown fields, rejects duplicates of a known field, and tries the
//! price-update shape before the heartbeat shape, as the feed's untagged
//! records require.  Every executable function returns exactly what its
//! specification-level counterpart describes.

use vstd::prelude::*;
use vstd::string::StrSliceExecFns;

use crate::modems::{
    QuoteView, RawPricingView, RawHeartbeatView, RawRecordView, LiquidityPrice, PricingMessage,
    HeartbeatMessage, StreamMessage, quotes_view,
};
use crate::text::string_from_chars;

verus! {

/// The insignificant characters between JSON tokens.
pub open spec fn is_json_ws(c: char) -> bool {
    c == ' ' || c == '\t' || c == '\n' || c == '\r'
}

fn is_json_ws_char(c: char) -> (r: bool)
    ensures
        r == is_json_ws(c),
{
    c == ' ' || c == '\t' || c == '\n' || c == '\r'
}

/// First position at or after `i` holding no insignificant character.
pub open spec fn spec_skip_ws(s: Seq<char>, i: int) -> int
    decreases s.len() - i,
{
    if 0 <= i < s.len() && is_json_ws(s[i]) {
        spec_skip_ws(s, i + 1)
    } else {
        i
    }
}

fn skip_ws(s: &Vec<char>, i: usize) -> (j: usize)
    requires
        i <= s@.len(),
    ensures
        j as int == spec_skip_ws(s@, i as int),
        i <= j <= s@.len(),
    decreases s@.len() - i,
{
    if i < s.len() && is_json_ws_char(s[i]) {
        skip_ws(s, i + 1)
    } else {
        i
    }
}

/// The decimal value of an ASCII digit, or `10` when `c` is no digit.
pub open spec fn digit_val(c: char) -> int {
    let u = c as u32;
    if 48 <= u && u <= 57 {
        u - 48
    } else {
        10
    }
}

pub open spec fn is_digit(c: char) -> bool {
    digit_val(c) < 10
}

fn digit_of(c: char) -> (r: u32)
    ensures
        r as int == digit_val(c),
{
    let u = c as u32;
    if 48 <= u && u <= 57 {
        u - 48
    } else {
        10
    }
}

/// The hexadecimal value of `c`, or `16` when `c` is no hex digit.
pub open spec fn hex_val(c: char) -> int {
    let u = c as u32;
    if 48 <= u && u <= 57 {
        u - 48
    } else if 97 <= u && u <= 102 {
        u - 97 + 10
    } else if 65 <= u && u <= 70 {
        u - 65 + 10
    } else {
        16
    }
}

fn hex_of(c: char) -> (r: u32)
    ensures
        r as int == hex_val(c),
{
    let u = c as u32;
    if 48 <= u && u <= 57 {
        u - 48
    } else if 97 <= u && u <= 102 {
        u - 97 + 10
    } else if 65 <= u && u <= 70 {
        u - 65 + 10
    } else {
        16
    }
}

/// The character named by a one-character escape, or `None`.
pub open spec fn simple_escape(c: char) -> Option<char> {
    if c == '"' {
        Some('"')
    } else if c == '\\' {
        Some('\\')
    } else if c == '/' {
        Some('/')
    } else if c == 'b' {
        Some(8u8 as char)
    } else if c == 'f' {
        Some(12u8 as char)
    } else if c == 'n' {
        Some('\n')
    } else if c == 'r' {
        Some('\r')
    } else if c == 't' {
        Some('\t')
    } else {
        None
    }
}

fn simple_escape_of(c: char) -> (r: Option<char>)
    ensures
        r == simple_escape(c),
{
    if c == '"' {
        Some('"')
    } else if c == '\\' {
        Some('\\')
    } else if c == '/' {
        Some('/')
    } else if c == 'b' {
        Some(8u8 as char)
    } else if c == 'f' {
        Some(12u8 as char)
    } else if c == 'n' {
        Some('\n')
    } else if c == 'r' {
        Some('\r')
    } else if c == 't' {
        Some('\t')
    } else {
        None
    }
}

/// The value of the four hex digits at `i`, or `None`.  Only values in the
/// ASCII range are accepted as escapes.
pub open spec fn spec_hex4(s: Seq<char>, i: int) -> Option<u32> {
    if 0 <= i && i + 4 <= s.len() && hex_val(s[i]) < 16 && hex_val(s[i + 1]) < 16 && hex_val(
        s[i + 2],
    ) < 16 && hex_val(s[i + 3]) < 16 {
        Some(
            ((hex_val(s[i]) * 0x1000 + hex_val(s[i + 1]) * 0x100 + hex_val(s[i + 2]) * 0x10
                + hex_val(s[i + 3])) as u32),
        )
    } else {
        None
    }
}

fn hex4(s: &Vec<char>, i: usize) -> (r: Option<u32>)
    requires
        i + 4 <= s@.len(),
    ensures
        r == spec_hex4(s@, i as int),
{
    let n = s.len();
    let a = hex_of(s[i]);
    let b = hex_of(s[i + 1]);
    let c = hex_of(s[i + 2]);
    let d = hex_of(s[i + 3]);
    if a < 16 && b < 16 && c < 16 && d < 16 {
        Some(a * 0x1000 + b * 0x100 + c * 0x10 + d)
    } else {
        None
    }
}

/// Decodes a string body starting just after the opening quote: the decoded
/// content and the position after the closing quote.  Unescaped control
/// characters are rejected; `\u` escapes are accepted in the ASCII range.
pub open spec fn spec_string_body(s: Seq<char>, i: int) -> Option<(Seq<char>, int)>
    decreases s.len() - i,
{
    if i < 0 || i >= s.len() {
        None
    } else {
        let c = s[i];
        if c == '"' {
            Some((Seq::empty(), i + 1))
        } else if c == '\\' {
            if i + 1 >= s.len() {
                None
            } else {
                let e = s[i + 1];
                if e == 'u' {
                    match spec_hex4(s, i + 2) {
                        Some(code) => if code <= 0x7F {
                            match spec_string_body(s, i + 6) {
                                Some((rest, k)) => Some((seq![(code as u8) as char] + rest, k)),
                                None => None,
                            }
                        } else {
                            None
                        },
                        None => None,
                    }
                } else {
                    match simple_escape(e) {
                        Some(d) => match spec_string_body(s, i + 2) {
                            Some((rest, k)) => Some((seq![d] + rest, k)),
                            None => None,
                        },
                        None => None,
                    }
                }
            }
        } else if (c as u32) < 0x20 {
            None
        } else {
            match spec_string_body(s, i + 1) {
                Some((rest, k)) => Some((seq![c] + rest, k)),
                None => None,
            }
        }
    }
}

/// Decodes a quoted string at `i`: the content and the position after the
/// closing quote.
pub open spec fn spec_parse_string(s: Seq<char>, i: int) -> Option<(Seq<char>, int)> {
    if 0 <= i < s.len() && s[i] == '"' {
        spec_string_body(s, i + 1)
    } else {
        None
    }
}

/// The end of a string body never precedes its start.
proof fn lemma_string_body_advances(s: Seq<char>, i: int)
    requires
        spec_string_body(s, i) is Some,
    ensures
        i < (spec_string_body(s, i)->0).1 <= s.len(),
    decreases s.len() - i,
{
    let c = s[i];
    if c == '"' {
    } else if c == '\\' {
        let e = s[i + 1];
        if e == 'u' {
            lemma_string_body_advances(s, i + 6);
        } else {
            lemma_string_body_advances(s, i + 2);
        }
    } else {
        lemma_string_body_advances(s, i + 1);
    }
}

fn parse_string_body(s: &Vec<char>, i: usize) -> (r: Option<(Vec<char>, usize)>)
    requires
        i <= s@.len(),
    ensures
        match r {
            Some((content, end)) => spec_string_body(s@, i as int) matches Some(p) && p.0
                == content@ && p.1 == end as int && i < end <= s@.len(),
            None => spec_string_body(s@, i as int) is None,
        },
{
    let mut acc: Vec<char> = Vec::new();
    let mut j = i;
    loop
        invariant
            i <= j <= s@.len(),
            ({
                match spec_string_body(s@, j as int) {
                    Some(p) => spec_string_body(s@, i as int) matches Some(q) && q.0 == acc@ + p.0
                        && q.1 == p.1,
                    None => spec_string_body(s@, i as int) is None,
                }
            }),
        decreases s@.len() - j,
    {
        if j >= s.len() {
            return None;
        }
        let c = s[j];
        if c == '"' {
            proof {
                assert(spec_string_body(s@, j as int) matches Some(p) && p.0 == Seq::<
                    char,
                >::empty() && p.1 == j + 1);
                assert(acc@ + Seq::<char>::empty() =~= acc@);
                lemma_string_body_advances(s@, i as int);
            }
            return Some((acc, j + 1));
        } else if c == '\\' {
            if j + 1 >= s.len() {
                return None;
            }
            let e = s[j + 1];
            if e == 'u' {
                if s.len() - j < 6 {
                    proof {
                        assert(spec_hex4(s@, j + 2) is None);
                    }
                    return None;
                }
                match hex4(s, j + 2) {
                    Some(code) => {
                        if code <= 0x7F {
                            let d = (code as u8) as char;
                            acc.push(d);
                            proof {
                                let r6 = spec_string_body(s@, j + 6);
                                if r6 is Some {
                                    assert((acc@.drop_last() + (seq![d] + (r6->0).0)) =~= acc@ + (
                                    r6->0).0);
                                }
                            }
                            j = j + 6;
                        } else {
                            return None;
                        }
                    },
                    None => {
                        return None;
                    },
                }
            } else {
                match simple_escape_of(e) {
                    Some(d) => {
                        acc.push(d);
                        proof {
                            let r2 = spec_string_body(s@, j + 2);
                            if r2 is Some {
                                assert((acc@.drop_last() + (seq![d] + (r2->0).0)) =~= acc@ + (
                                r2->0).0);
                            }
                        }
                        j = j + 2;
                    },
                    None => {
                        return None;
                    },
                }
            }
        } else if (c as u32) < 0x20 {
            return None;
        } else {
            acc.push(c);
            proof {
                let r1 = spec_string_body(s@, j + 1);
                if r1 is Some {
                    assert((acc@.drop_last() + (seq![c] + (r1->0).0)) =~= acc@ + (r1->0).0);
                }
            }
            j = j + 1;
        }
    }
}

/// Decodes a quoted string at `i`.
fn parse_string(s: &Vec<char>, i: usize) -> (r: Option<(Vec<char>, usize)>)
    requires
        i <= s@.len(),
    ensures
        match r {
            Some((content, end)) => spec_parse_string(s@, i as int) matches Some(p) && p.0
                == content@ && p.1 == end as int && i < end <= s@.len(),
            None => spec_parse_string(s@, i as int) is None,
        },
{
    if i < s.len() && s[i] == '"' {
        parse_string_body(s, i + 1)
    } else {
        None
    }
}

/// End of the digit run starting at `i`.
pub open spec fn spec_digits_end(s: Seq<char>, i: int) -> int
    decreases s.len() - i,
{
    if 0 <= i < s.len() && is_digit(s[i]) {
        spec_digits_end(s, i + 1)
    } else {
        i
    }
}

/// Value of the digits of `s` from `i` (inclusive) to `j` (exclusive).
pub open spec fn spec_digits_val(s: Seq<char>, i: int, j: int) -> int
    decreases j - i,
{
    if i >= j {
        0
    } else {
        spec_digits_val(s, i, j - 1) * 10 + digit_val(s[j - 1])
    }
}

proof fn lemma_digits_val_nonneg(s: Seq<char>, i: int, j: int)
    ensures
        spec_digits_val(s, i, j) >= 0,
    decreases j - i,
{
    if i < j {
        lemma_digits_val_nonneg(s, i, j - 1);
    }
}

proof fn lemma_digits_val_mono(s: Seq<char>, i: int, j: int, k: int)
    requires
        i <= j <= k,
    ensures
        spec_digits_val(s, i, j) <= spec_digits_val(s, i, k),
    decreases k - j,
{
    if j < k {
        lemma_digits_val_mono(s, i, j, k - 1);
        lemma_digits_val_nonneg(s, i, k - 1);
    }
}

/// An unsigned decimal number at `i`: its value and end position.  Rejects a
/// leading zero before further digits, and any value above `u64::MAX`.
pub open spec fn spec_parse_u64(s: Seq<char>, i: int) -> Option<(u64, int)> {
    if 0 <= i < s.len() && is_digit(s[i]) && !(s[i] == '0' && i + 1 < s.len() && is_digit(
        s[i + 1],
    )) {
        let e = spec_digits_end(s, i);
        let v = spec_digits_val(s, i, e);
        if v <= u64::MAX {
            Some((v as u64, e))
        } else {
            None
        }
    } else {
        None
    }
}

/// `spec_digits_end` stays within bounds and past its start on a digit.
proof fn lemma_digits_end_bounds(s: Seq<char>, i: int)
    requires
        0 <= i <= s.len(),
    ensures
        i <= spec_digits_end(s, i) <= s.len(),
        0 <= i < s.len() && is_digit(s[i]) ==> i < spec_digits_end(s, i),
        forall|j: int| i <= j < spec_digits_end(s, i) ==> is_digit(s[j]),
        spec_digits_end(s, i) < s.len() ==> !is_digit(s[spec_digits_end(s, i)]),
    decreases s.len() - i,
{
    if 0 <= i < s.len() && is_digit(s[i]) {
        lemma_digits_end_bounds(s, i + 1);
    }
}

fn parse_u64(s: &Vec<char>, i: usize) -> (r: Option<(u64, usize)>)
    requires
        i <= s@.len(),
    ensures
        match r {
            Some((v, end)) => spec_parse_u64(s@, i as int) matches Some(p) && p.0 == v && p.1
                == end as int && i < end <= s@.len(),
            None => spec_parse_u64(s@, i as int) is None,
        },
{
    if !(i < s.len() && digit_of(s[i]) < 10) {
        return None;
    }
    if s[i] == '0' && i + 1 < s.len() && digit_of(s[i + 1]) < 10 {
        return None;
    }
    proof {
        lemma_digits_end_bounds(s@, i as int);
    }
    let ghost e = spec_digits_end(s@, i as int);
    let mut acc: u64 = 0;
    let mut j = i;
    while j < s.len() && digit_of(s[j]) < 10
        invariant
            i < s@.len(),
            is_digit(s@[i as int]),
            !(s@[i as int] == '0' && i + 1 < s@.len() && is_digit(s@[i + 1])),
            e == spec_digits_end(s@, i as int),
            i <= j <= s@.len(),
            j <= e <= s@.len(),
            acc as int == spec_digits_val(s@, i as int, j as int),
            forall|k: int| i <= k < e ==> is_digit(s@[k]),
            e < s@.len() ==> !is_digit(s@[e]),
            i < e,
        decreases s@.len() - j,
    {
        let d = digit_of(s[j]);
        proof {
            if j == e {
                assert(!is_digit(s@[e]));
            }
        }
        if acc > (u64::MAX - d as u64) / 10 {
            proof {
                if j == e {
                    assert(!is_digit(s@[e]));
                }
                assert(spec_digits_val(s@, i as int, j + 1) == acc as int * 10 + d);
                lemma_digits_val_mono(s@, i as int, j + 1, e);
                assert(spec_digits_val(s@, i as int, e) > u64::MAX);
            }
            return None;
        }
        acc = acc * 10 + d as u64;
        j += 1;
    }
    proof {
        if j < s@.len() {
            assert(!is_digit(s@[j as int]));
        }
        assert(j == e);
    }
    Some((acc, j))
}

/// Nesting budget for values in unknown fields, as a decoder commonly caps
/// recursion.
pub const JSON_DEPTH_LIMIT: u32 = 128;

/// A character that may continue a numeric token (consumed loosely when the
/// field is ignored).
pub open spec fn is_num_char(c: char) -> bool {
    is_digit(c) || c == '-' || c == '+' || c == '.' || c == 'e' || c == 'E'
}

fn is_num_char_of(c: char) -> (r: bool)
    ensures
        r == is_num_char(c),
{
    let u = c as u32;
    (48 <= u && u <= 57) || c == '-' || c == '+' || c == '.' || c == 'e' || c == 'E'
}

/// End of the numeric-character run starting at `i`.
pub open spec fn spec_num_end(s: Seq<char>, i: int) -> int
    decreases s.len() - i,
{
    if 0 <= i < s.len() && is_num_char(s[i]) {
        spec_num_end(s, i + 1)
    } else {
        i
    }
}

proof fn lemma_num_end_bounds(s: Seq<char>, i: int)
    requires
        0 <= i <= s.len(),
    ensures
        i <= spec_num_end(s, i) <= s.len(),
    decreases s.len() - i,
{
    if 0 <= i < s.len() && is_num_char(s[i]) {
        lemma_num_end_bounds(s, i + 1);
    }
}

fn num_end(s: &Vec<char>, i: usize) -> (j: usize)
    requires
        i <= s@.len(),
    ensures
        j as int == spec_num_end(s@, i as int),
        i <= j <= s@.len(),
    decreases s@.len() - i,
{
    if i < s.len() && is_num_char_of(s[i]) {
        num_end(s, i + 1)
    } else {
        i
    }
}

/// Position after the value starting at `i`, whatever its kind, or `None`
/// when no well-formed value starts there.
pub open spec fn spec_skip_value(s: Seq<char>, i: int, depth: u32) -> Option<int>
    decreases depth, s.len() - i, 0int,
{
    if i < 0 || i >= s.len() {
        None
    } else {
        let c = s[i];
        if c == '"' {
            match spec_string_body(s, i + 1) {
                Some((content, k)) => Some(k),
                None => None,
            }
        } else if c == 't' {
            if i + 4 <= s.len() && s[i + 1] == 'r' && s[i + 2] == 'u' && s[i + 3] == 'e' {
                Some(i + 4)
            } else {
                None
            }
        } else if c == 'f' {
            if i + 5 <= s.len() && s[i + 1] == 'a' && s[i + 2] == 'l' && s[i + 3] == 's' && s[i + 4]
                == 'e' {
                Some(i + 5)
            } else {
                None
            }
        } else if c == 'n' {
            if i + 4 <= s.len() && s[i + 1] == 'u' && s[i + 2] == 'l' && s[i + 3] == 'l' {
                Some(i + 4)
            } else {
                None
            }
        } else if c == '-' || is_digit(c) {
            Some(spec_num_end(s, i + 1))
        } else if c == '{' {
            if depth == 0 {
                None
            } else {
                spec_skip_members_first(s, i + 1, depth)
            }
        } else if c == '[' {
            if depth == 0 {
                None
            } else {
                spec_skip_items_first(s, i + 1, depth)
            }
        } else {
            None
        }
    }
}

/// Position after the remainder of an object whose `{` stood at `i - 1`.
pub open spec fn spec_skip_members_first(s: Seq<char>, i: int, depth: u32) -> Option<int>
    decreases depth, s.len() - i, 2int,
{
    if i < 0 || i > s.len() {
        None
    } else {
        let j = spec_skip_ws(s, i);
        if !(i <= j <= s.len()) {
            None
        } else if j >= s.len() {
            None
        } else if s[j] == '}' {
            Some(j + 1)
        } else {
            spec_skip_member(s, j, depth)
        }
    }
}

/// Position after the members from the one starting at `i` to the closing
/// brace.
pub open spec fn spec_skip_member(s: Seq<char>, i: int, depth: u32) -> Option<int>
    decreases depth, s.len() - i, 1int,
{
    if depth == 0 {
        None
    } else {
        match spec_parse_string(s, i) {
            None => None,
            Some((key, k1)) => {
                if !(i < k1 <= s.len()) {
                    None
                } else {
                    let k2 = spec_skip_ws(s, k1);
                    if !(k1 <= k2 <= s.len()) {
                        None
                    } else if k2 >= s.len() || s[k2] != ':' {
                        None
                    } else {
                        let k3 = spec_skip_ws(s, k2 + 1);
                        if !(k2 + 1 <= k3 <= s.len()) {
                            None
                        } else {
                            match spec_skip_value(s, k3, (depth - 1) as u32) {
                                None => None,
                                Some(k4) => {
                                    if !(k3 < k4 <= s.len()) {
                                        None
                                    } else {
                                        let k5 = spec_skip_ws(s, k4);
                                        if !(k4 <= k5 <= s.len()) {
                                            None
                                        } else if k5 >= s.len() {
                                            None
                                        } else if s[k5] == ',' {
                                            let k6 = spec_skip_ws(s, k5 + 1);
                                            if !(k5 + 1 <= k6 <= s.len()) {
                                                None
                                            } else {
                                                spec_skip_member(s, k6, depth)
                                            }
                                        } else if s[k5] == '}' {
                                            Some(k5 + 1)
                                        } else {
                                            None
                                        }
                                    }
                                },
                            }
                        }
                    }
                }
            },
        }
    }
}

/// Position after the remainder of an array whose `[` stood at `i - 1`.
pub open spec fn spec_skip_items_first(s: Seq<char>, i: int, depth: u32) -> Option<int>
    decreases depth, s.len() - i, 2int,
{
    if i < 0 || i > s.len() {
        None
    } else {
        let j = spec_skip_ws(s, i);
        if !(i <= j <= s.len()) {
            None
        } else if j >= s.len() {
            None
        } else if s[j] == ']' {
            Some(j + 1)
        } else {
            spec_skip_item(s, j, depth)
        }
    }
}

/// Position after the items from the one starting at `i` to the closing
/// bracket.
pub open spec fn spec_skip_item(s: Seq<char>, i: int, depth: u32) -> Option<int>
    decreases depth, s.len() - i, 1int,
{
    if depth == 0 {
        None
    } else {
        match spec_skip_value(s, i, (depth - 1) as u32) {
            None => None,
            Some(k) => {
                if !(i < k <= s.len()) {
                    None
                } else {
                    let k5 = spec_skip_ws(s, k);
                    if !(k <= k5 <= s.len()) {
                        None
                    } else if k5 >= s.len() {
                        None
                    } else if s[k5] == ',' {
                        let k6 = spec_skip_ws(s, k5 + 1);
                        if !(k5 + 1 <= k6 <= s.len()) {
                            None
                        } else {
                            spec_skip_item(s, k6, depth)
                        }
                    } else if s[k5] == ']' {
                        Some(k5 + 1)
                    } else {
                        None
                    }
                }
            },
        }
    }
}

/// Skips the value starting at `i`.
fn skip_value(s: &Vec<char>, i: usize, depth: u32) -> (r: Option<usize>)
    requires
        i <= s@.len(),
    ensures
        match r {
            Some(k) => spec_skip_value(s@, i as int, depth) == Some(k as int) && i < k <= s@.len(),
            None => spec_skip_value(s@, i as int, depth) is None,
        },
    decreases depth, s@.len() - i, 0int,
{
    if i >= s.len() {
        return None;
    }
    let c = s[i];
    if c == '"' {
        match parse_string_body(s, i + 1) {
            Some((_content, k)) => Some(k),
            None => None,
        }
    } else if c == 't' {
        if s.len() - i >= 4 && s[i + 1] == 'r' && s[i + 2] == 'u' && s[i + 3] == 'e' {
            Some(i + 4)
        } else {
            None
        }
    } else if c == 'f' {
        if s.len() - i >= 5 && s[i + 1] == 'a' && s[i + 2] == 'l' && s[i + 3] == 's' && s[i + 4]
            == 'e' {
            Some(i + 5)
        } else {
            None
        }
    } else if c == 'n' {
        if s.len() - i >= 4 && s[i + 1] == 'u' && s[i + 2] == 'l' && s[i + 3] == 'l' {
            Some(i + 4)
        } else {
            None
        }
    } else if c == '-' || digit_of(c) < 10 {
        Some(num_end(s, i + 1))
    } else if c == '{' {
        if depth == 0 {
            None
        } else {
            skip_members_first(s, i + 1, depth)
        }
    } else if c == '[' {
        if depth == 0 {
            None
        } else {
            skip_items_first(s, i + 1, depth)
        }
    } else {
        None
    }
}

/// Skips the remainder of an object after its opening brace.
fn skip_members_first(s: &Vec<char>, i: usize, depth: u32) -> (r: Option<usize>)
    requires
        i <= s@.len(),
        depth >= 1,
    ensures
        match r {
            Some(k) => spec_skip_members_first(s@, i as int, depth) == Some(k as int) && i < k
                <= s@.len(),
            None => spec_skip_members_first(s@, i as int, depth) is None,
        },
    decreases depth, s@.len() - i, 2int,
{
    let j = skip_ws(s, i);
    if j >= s.len() {
        return None;
    }
    if s[j] == '}' {
        return Some(j + 1);
    }
    skip_member(s, j, depth)
}

/// Skips members from the one starting at `i` through the closing brace.
fn skip_member(s: &Vec<char>, i: usize, depth: u32) -> (r: Option<usize>)
    requires
        i <= s@.len(),
        depth >= 1,
    ensures
        match r {
            Some(k) => spec_skip_member(s@, i as int, depth) == Some(k as int) && i < k
                <= s@.len(),
            None => spec_skip_member(s@, i as int, depth) is None,
        },
    decreases depth, s@.len() - i, 1int,
{
    let mut j = i;
    loop
        invariant
            i <= j <= s@.len(),
            depth >= 1,
            spec_skip_member(s@, i as int, depth) == spec_skip_member(s@, j as int, depth),
        decreases s@.len() - j,
    {
        let (_key, k1) = match parse_string(s, j) {
            Some(p) => p,
            None => {
                return None;
            },
        };
        let k2 = skip_ws(s, k1);
        if k2 >= s.len() {
            return None;
        }
        if s[k2] != ':' {
            return None;
        }
        let k3 = skip_ws(s, k2 + 1);
        let k4 = match skip_value(s, k3, depth - 1) {
            Some(k4) => k4,
            None => {
                return None;
            },
        };
        let k5 = skip_ws(s, k4);
        if k5 >= s.len() {
            return None;
        }
        if s[k5] == ',' {
            let k6 = skip_ws(s, k5 + 1);
            j = k6;
        } else if s[k5] == '}' {
            return Some(k5 + 1);
        } else {
            return None;
        }
    }
}

/// Skips the remainder of an array after its opening bracket.
fn skip_items_first(s: &Vec<char>, i: usize, depth: u32) -> (r: Option<usize>)
    requires
        i <= s@.len(),
        depth >= 1,
    ensures
        match r {
            Some(k) => spec_skip_items_first(s@, i as int, depth) == Some(k as int) && i < k
                <= s@.len(),
            None => spec_skip_items_first(s@, i as int, depth) is None,
        },
    decreases depth, s@.len() - i, 2int,
{
    let j = skip_ws(s, i);
    if j >= s.len() {
        return None;
    }
    if s[j] == ']' {
        return Some(j + 1);
    }
    skip_item(s, j, depth)
}

/// Skips items from the one starting at `i` through the closing bracket.
fn skip_item(s: &Vec<char>, i: usize, depth: u32) -> (r: Option<usize>)
    requires
        i <= s@.len(),
        depth >= 1,
    ensures
        match r {
            Some(k) => spec_skip_item(s@, i as int, depth) == Some(k as int) && i < k <= s@.len(),
            None => spec_skip_item(s@, i as int, depth) is None,
        },
    decreases depth, s@.len() - i, 1int,
{
    let mut j = i;
    loop
        invariant
            i <= j <= s@.len(),
            depth >= 1,
            spec_skip_item(s@, i as int, depth) == spec_skip_item(s@, j as int, depth),
        decreases s@.len() - j,
    {
        let k = match skip_value(s, j, depth - 1) {
            Some(k) => k,
            None => {
                return None;
            },
        };
        let k5 = skip_ws(s, k);
        if k5 >= s.len() {
            return None;
        }
        if s[k5] == ',' {
            let k6 = skip_ws(s, k5 + 1);
            j = k6;
        } else if s[k5] == ']' {
            return Some(k5 + 1);
        } else {
            return None;
        }
    }
}

/// The characters under an optional string.
pub open spec fn opt_str(o: Option<String>) -> Option<Seq<char>> {
    match o {
        Some(x) => Some(x@),
        None => None,
    }
}

/// The quote models under an optional vector of price levels.
pub open spec fn opt_quotes(o: Option<Vec<LiquidityPrice>>) -> Option<Seq<QuoteView>> {
    match o {
        Some(v) => Some(quotes_view(v@)),
        None => None,
    }
}

/// Whether the characters of `v` are exactly those of `lit`.
pub fn chars_eq_str(v: &Vec<char>, lit: &str) -> (r: bool)
    ensures
        r == (v@ == lit@),
{
    let n = lit.unicode_len();
    if v.len() != n {
        proof {
            if v@ == lit@ {
                assert(v@.len() == lit@.len());
            }
        }
        return false;
    }
    let mut i: usize = 0;
    while i < n
        invariant
            i <= n,
            n == lit@.len(),
            n == v@.len(),
            forall|j: int| 0 <= j < i ==> v@[j] == lit@[j],
        decreases n - i,
    {
        if v[i] != lit.get_char(i) {
            return false;
        }
        i += 1;
    }
    proof {
        assert(v@ =~= lit@);
    }
    true
}

/// The completed quote once both fields have appeared.
pub open spec fn spec_quote_done(liq: Option<u64>, price: Option<Seq<char>>, end: int) -> Option<
    (QuoteView, int),
> {
    match (liq, price) {
        (Some(l), Some(p)) => Some((QuoteView { liquidity: l, price: p }, end)),
        _ => None,
    }
}

/// Members of a price level from the one starting at `i`.
pub open spec fn spec_quote_member(
    s: Seq<char>,
    i: int,
    liq: Option<u64>,
    price: Option<Seq<char>>,
) -> Option<(QuoteView, int)>
    decreases s.len() - i, 1int,
{
    match spec_parse_string(s, i) {
        None => None,
        Some((key, k1)) => {
            if !(i < k1 <= s.len()) {
                None
            } else {
                let k2 = spec_skip_ws(s, k1);
                if !(k1 <= k2 <= s.len()) {
                    None
                } else if k2 >= s.len() || s[k2] != ':' {
                    None
                } else {
                    let k3 = spec_skip_ws(s, k2 + 1);
                    if !(k2 + 1 <= k3 <= s.len()) {
                        None
                    } else if key == "liquidity"@ {
                        if liq is Some {
                            None
                        } else {
                            match spec_parse_u64(s, k3) {
                                None => None,
                                Some((v, k4)) => if k3 < k4 <= s.len() {
                                    spec_quote_sep(s, k4, Some(v), price)
                                } else {
                                    None
                                },
                            }
                        }
                    } else if key == "price"@ {
                        if price is Some {
                            None
                        } else {
                            match spec_parse_string(s, k3) {
                                None => None,
                                Some((p, k4)) => if k3 < k4 <= s.len() {
                                    spec_quote_sep(s, k4, liq, Some(p))
                                } else {
                                    None
                                },
                            }
                        }
                    } else {
                        match spec_skip_value(s, k3, JSON_DEPTH_LIMIT) {
                            None => None,
                            Some(k4) => if k3 < k4 <= s.len() {
                                spec_quote_sep(s, k4, liq, price)
                            } else {
                                None
                            },
                        }
                    }
                }
            }
        },
    }
}

/// After one member of a price level: a separator or the closing brace.
pub open spec fn spec_quote_sep(
    s: Seq<char>,
    i: int,
    liq: Option<u64>,
    price: Option<Seq<char>>,
) -> Option<(QuoteView, int)>
    decreases s.len() - i, 0int,
{
    if !(0 <= i <= s.len()) {
        None
    } else {
        let k5 = spec_skip_ws(s, i);
        if !(i <= k5 <= s.len()) {
            None
        } else if k5 >= s.len() {
            None
        } else if s[k5] == ',' {
            let k6 = spec_skip_ws(s, k5 + 1);
            if !(k5 + 1 <= k6 <= s.len()) {
                None
            } else {
                spec_quote_member(s, k6, liq, price)
            }
        } else if s[k5] == '}' {
            spec_quote_done(liq, price, k5 + 1)
        } else {
            None
        }
    }
}

/// A price-level object at `i`: liquidity and price in either order, unknown
/// fields skipped, duplicates rejected.
pub open spec fn spec_parse_quote(s: Seq<char>, i: int) -> Option<(QuoteView, int)> {
    if 0 <= i < s.len() && s[i] == '{' {
        let j = spec_skip_ws(s, i + 1);
        if !(i + 1 <= j <= s.len()) {
            None
        } else if j < s.len() && s[j] == '}' {
            None
        } else {
            spec_quote_member(s, j, None, None)
        }
    } else {
        None
    }
}

#[verifier::rlimit(100)]
#[verifier::spinoff_prover]
fn parse_quote(s: &Vec<char>, i: usize) -> (r: Option<(LiquidityPrice, usize)>)
    requires
        i <= s@.len(),
    ensures
        match r {
            Some((q, end)) => spec_parse_quote(s@, i as int) matches Some(p) && p.0 == q@ && p.1
                == end as int && i < end <= s@.len(),
            None => spec_parse_quote(s@, i as int) is None,
        },
{
    if !(i < s.len() && s[i] == '{') {
        return None;
    }
    let j0 = skip_ws(s, i + 1);
    if j0 < s.len() && s[j0] == '}' {
        return None;
    }
    let mut liq: Option<u64> = None;
    let mut price: Option<String> = None;
    let mut j = j0;
    loop
        invariant
            i < s@.len(),
            s@[i as int] == '{',
            i + 1 <= j <= s@.len(),
            spec_parse_quote(s@, i as int) == spec_quote_member(s@, j as int, liq, opt_str(price)),
        decreases s@.len() - j,
    {
        let (key, k1) = match parse_string(s, j) {
            Some(p) => p,
            None => {
                return None;
            },
        };
        let k2 = skip_ws(s, k1);
        if k2 >= s.len() {
            return None;
        }
        if s[k2] != ':' {
            return None;
        }
        let k3 = skip_ws(s, k2 + 1);
        if chars_eq_str(&key, "liquidity") {
            if liq.is_some() {
                return None;
            }
            let (v, k4) = match parse_u64(s, k3) {
                Some(p) => p,
                None => {
                    return None;
                },
            };
            liq = Some(v);
            match quote_sep_step(s, k4) {
                SepStep::Next(k6) => {
                    j = k6;
                },
                SepStep::Close(end) => {
                    return quote_finish(liq, price, end);
                },
                SepStep::Bad => {
                    return None;
                },
            }
        } else if chars_eq_str(&key, "price") {
            if price.is_some() {
                return None;
            }
            let (p, k4) = match parse_string(s, k3) {
                Some(p) => p,
                None => {
                    return None;
                },
            };
            price = Some(string_from_chars(&p));
            match quote_sep_step(s, k4) {
                SepStep::Next(k6) => {
                    j = k6;
                },
                SepStep::Close(end) => {
                    return quote_finish(liq, price, end);
                },
                SepStep::Bad => {
                    return None;
                },
            }
        } else {
            let k4 = match skip_value(s, k3, JSON_DEPTH_LIMIT) {
                Some(k) => k,
                None => {
                    return None;
                },
            };
            match quote_sep_step(s, k4) {
                SepStep::Next(k6) => {
                    j = k6;
                },
                SepStep::Close(end) => {
                    return quote_finish(liq, price, end);
                },
                SepStep::Bad => {
                    return None;
                },
            }
        }
    }
}

/// What follows one object member: the next member's start, the position
/// after the closing brace, or neither.
enum SepStep {
    Next(usize),
    Close(usize),
    Bad,
}

/// Reads the separator after an object member ending at `i`.
fn sep_step(s: &Vec<char>, i: usize) -> (r: SepStep)
    requires
        i <= s@.len(),
    ensures
        ({
            let k5 = spec_skip_ws(s@, i as int);
            match r {
                SepStep::Next(k6) => i <= k5 < s@.len() && s@[k5] == ',' && k6 as int
                    == spec_skip_ws(s@, k5 + 1) && k5 + 1 <= k6 as int <= s@.len(),
                SepStep::Close(end) => i <= k5 < s@.len() && s@[k5] == '}' && end as int == k5 + 1,
                SepStep::Bad => k5 >= s@.len() || (s@[k5] != ',' && s@[k5] != '}'),
            }
        }),
{
    let k5 = skip_ws(s, i);
    if k5 >= s.len() {
        return SepStep::Bad;
    }
    if s[k5] == ',' {
        let k6 = skip_ws(s, k5 + 1);
        SepStep::Next(k6)
    } else if s[k5] == '}' {
        SepStep::Close(k5 + 1)
    } else {
        SepStep::Bad
    }
}

fn quote_sep_step(s: &Vec<char>, i: usize) -> (r: SepStep)
    requires
        i <= s@.len(),
    ensures
        ({
            match r {
                SepStep::Next(k6) => forall|liq: Option<u64>, price: Option<Seq<char>>|
                    spec_quote_sep(s@, i as int, liq, price) == #[trigger] spec_quote_member(
                        s@,
                        k6 as int,
                        liq,
                        price,
                    ) && i < k6 <= s@.len(),
                SepStep::Close(end) => forall|liq: Option<u64>, price: Option<Seq<char>>|
                    spec_quote_sep(s@, i as int, liq, price) == #[trigger] spec_quote_done(
                        liq,
                        price,
                        end as int,
                    ) && i < end <= s@.len(),
                SepStep::Bad => forall|liq: Option<u64>, price: Option<Seq<char>>|
                    #[trigger] spec_quote_sep(s@, i as int, liq, price) is None,
            }
        }),
{
    sep_step(s, i)
}

fn quote_finish(liq: Option<u64>, price: Option<String>, end: usize) -> (r: Option<
    (LiquidityPrice, usize),
>)
    ensures
        match r {
            Some((q, e)) => spec_quote_done(liq, opt_str(price), end as int) == Some(
                (q@, end as int),
            ) && e == end,
            None => spec_quote_done(liq, opt_str(price), end as int) is None,
        },
{
    match (liq, price) {
        (Some(l), Some(p)) => Some((LiquidityPrice { liquidity: l, price: p }, end)),
        _ => None,
    }
}

/// Items of a quote array from the one starting at `i`.
pub open spec fn spec_array_item(s: Seq<char>, i: int, acc: Seq<QuoteView>) -> Option<
    (Seq<QuoteView>, int),
>
    decreases s.len() - i, 1int,
{
    match spec_parse_quote(s, i) {
        None => None,
        Some((q, k)) => {
            if !(i < k <= s.len()) {
                None
            } else {
                spec_array_sep(s, k, acc.push(q))
            }
        },
    }
}

/// After one quote item: a separator or the closing bracket.
pub open spec fn spec_array_sep(s: Seq<char>, i: int, acc: Seq<QuoteView>) -> Option<
    (Seq<QuoteView>, int),
>
    decreases s.len() - i, 0int,
{
    if !(0 <= i <= s.len()) {
        None
    } else {
        let k5 = spec_skip_ws(s, i);
        if !(i <= k5 <= s.len()) {
            None
        } else if k5 >= s.len() {
            None
        } else if s[k5] == ',' {
            let k6 = spec_skip_ws(s, k5 + 1);
            if !(k5 + 1 <= k6 <= s.len()) {
                None
            } else {
                spec_array_item(s, k6, acc)
            }
        } else if s[k5] == ']' {
            Some((acc, k5 + 1))
        } else {
            None
        }
    }
}

/// An array of price levels at `i`.
pub open spec fn spec_parse_quote_array(s: Seq<char>, i: int) -> Option<(Seq<QuoteView>, int)> {
    if 0 <= i < s.len() && s[i] == '[' {
        let j = spec_skip_ws(s, i + 1);
        if !(i + 1 <= j <= s.len()) {
            None
        } else if j < s.len() && s[j] == ']' {
            Some((Seq::empty(), j + 1))
        } else {
            spec_array_item(s, j, Seq::empty())
        }
    } else {
        None
    }
}

fn parse_quote_array(s: &Vec<char>, i: usize) -> (r: Option<(Vec<LiquidityPrice>, usize)>)
    requires
        i <= s@.len(),
    ensures
        match r {
            Some((arr, end)) => spec_parse_quote_array(s@, i as int) matches Some(p) && p.0
                == quotes_view(arr@) && p.1 == end as int && i < end <= s@.len(),
            None => spec_parse_quote_array(s@, i as int) is None,
        },
{
    if !(i < s.len() && s[i] == '[') {
        return None;
    }
    let j0 = skip_ws(s, i + 1);
    let mut acc: Vec<LiquidityPrice> = Vec::new();
    if j0 < s.len() && s[j0] == ']' {
        proof {
            assert(quotes_view(acc@) =~= Seq::<QuoteView>::empty());
        }
        return Some((acc, j0 + 1));
    }
    let mut j = j0;
    proof {
        assert(quotes_view(acc@) =~= Seq::<QuoteView>::empty());
    }
    loop
        invariant
            i < s@.len(),
            i + 1 <= j <= s@.len(),
            spec_parse_quote_array(s@, i as int) == spec_array_item(
                s@,
                j as int,
                quotes_view(acc@),
            ),
        decreases s@.len() - j,
    {
        let (q, k) = match parse_quote(s, j) {
            Some(p) => p,
            None => {
                return None;
            },
        };
        let ghost prev = acc@;
        let ghost qv = q@;
        acc.push(q);
        proof {
            assert(quotes_view(acc@) =~= quotes_view(prev).push(qv));
        }
        let k5 = skip_ws(s, k);
        if k5 >= s.len() {
            return None;
        }
        if s[k5] == ',' {
            let k6 = skip_ws(s, k5 + 1);
            j = k6;
        } else if s[k5] == ']' {
            return Some((acc, k5 + 1));
        } else {
            return None;
        }
    }
}

/// The completed price update once all seven fields have appeared.
pub open spec fn spec_pricing_done(
    asks: Option<Seq<QuoteView>>,
    bids: Option<Seq<QuoteView>>,
    closeout_ask: Option<Seq<char>>,
    closeout_bid: Option<Seq<char>>,
    instrument: Option<Seq<char>>,
    status: Option<Seq<char>>,
    time: Option<Seq<char>>,
    end: int,
) -> Option<(RawPricingView, int)> {
    match (asks, bids, closeout_ask, closeout_bid, instrument, status, time) {
        (Some(a), Some(b), Some(ca), Some(cb), Some(ins), Some(st), Some(t)) => Some(
            (
                RawPricingView {
                    asks: a,
                    bids: b,
                    closeout_ask: ca,
                    closeout_bid: cb,
                    instrument: ins,
                    status: st,
                    time: t,
                },
                end,
            ),
        ),
        _ => None,
    }
}

/// Members of a price update from the one starting at `i`.
pub open spec fn spec_pricing_member(
    s: Seq<char>,
    i: int,
    asks: Option<Seq<QuoteView>>,
    bids: Option<Seq<QuoteView>>,
    closeout_ask: Option<Seq<char>>,
    closeout_bid: Option<Seq<char>>,
    instrument: Option<Seq<char>>,
    status: Option<Seq<char>>,
    time: Option<Seq<char>>,
) -> Option<(RawPricingView, int)>
    decreases s.len() - i, 1int,
{
    match spec_parse_string(s, i) {
        None => None,
        Some((key, k1)) => {
            if !(i < k1 <= s.len()) {
                None
            } else {
                let k2 = spec_skip_ws(s, k1);
                if !(k1 <= k2 <= s.len()) {
                    None
                } else if k2 >= s.len() || s[k2] != ':' {
                    None
                } else {
                    let k3 = spec_skip_ws(s, k2 + 1);
                    if !(k2 + 1 <= k3 <= s.len()) {
                        None
                    } else if key == "asks"@ {
                        if asks is Some {
                            None
                        } else {
                            match spec_parse_quote_array(s, k3) {
                                None => None,
                                Some((a, k4)) => if k3 < k4 <= s.len() {
                                    spec_pricing_sep(
                                        s,
                                        k4,
                                        Some(a),
                                        bids,
                                        closeout_ask,
                                        closeout_bid,
                                        instrument,
                                        status,
                                        time,
                                    )
                                } else {
                                    None
                                },
                            }
                        }
                    } else if key == "bids"@ {
                        if bids is Some {
                            None
                        } else {
                            match spec_parse_quote_array(s, k3) {
                                None => None,
                                Some((b, k4)) => if k3 < k4 <= s.len() {
                                    spec_pricing_sep(
                                        s,
                                        k4,
                                        asks,
                                        Some(b),
                                        closeout_ask,
                                        closeout_bid,
                                        instrument,
                                        status,
                                        time,
                                    )
                                } else {
                                    None
                                },
                            }
                        }
                    } else if key == "closeoutAsk"@ {
                        if closeout_ask is Some {
                            None
                        } else {
                            match spec_parse_string(s, k3) {
                                None => None,
                                Some((v, k4)) => if k3 < k4 <= s.len() {
                                    spec_pricing_sep(
                                        s,
                                        k4,
                                        asks,
                                        bids,
                                        Some(v),
                                        closeout_bid,
                                        instrument,
                                        status,
                                        time,
                                    )
                                } else {
                                    None
                                },
                            }
                        }
                    } else if key == "closeoutBid"@ {
                        if closeout_bid is Some {
                            None
                        } else {
                            match spec_parse_string(s, k3) {
                                None => None,
                                Some((v, k4)) => if k3 < k4 <= s.len() {
                                    spec_pricing_sep(
                                        s,
                                        k4,
                                        asks,
                                        bids,
                                        closeout_ask,
                                        Some(v),
                                        instrument,
                                        status,
                                        time,
                                    )
                                } else {
                                    None
                                },
                            }
                        }
                    } else if key == "instrument"@ {
                        if instrument is Some {
                            None
                        } else {
                            match spec_parse_string(s, k3) {
                                None => None,
                                Some((v, k4)) => if k3 < k4 <= s.len() {
                                    spec_pricing_sep(
                                        s,
                                        k4,
                                        asks,
                                        bids,
                                        closeout_ask,
                                        closeout_bid,
                                        Some(v),
                                        status,
                                        time,
                                    )
                                } else {
                                    None
                                },
                            }
                        }
                    } else if key == "status"@ {
                        if status is Some {
                            None
                        } else {
                            match spec_parse_string(s, k3) {
                                None => None,
                                Some((v, k4)) => if k3 < k4 <= s.len() {
                                    spec_pricing_sep(
                                        s,
                                        k4,
                                        asks,
                                        bids,
                                        closeout_ask,
                                        closeout_bid,
                                        instrument,
                                        Some(v),
                                        time,
                                    )
                                } else {
                                    None
                                },
                            }
                        }
                    } else if key == "time"@ {
                        if time is Some {
                            None
                        } else {
                            match spec_parse_string(s, k3) {
                                None => None,
                                Some((v, k4)) => if k3 < k4 <= s.len() {
                                    spec_pricing_sep(
                                        s,
                                        k4,
                                        asks,
                                        bids,
                                        closeout_ask,
                                        closeout_bid,
                                        instrument,
                                        status,
                                        Some(v),
                                    )
                                } else {
                                    None
                                },
                            }
                        }
                    } else {
                        match spec_skip_value(s, k3, JSON_DEPTH_LIMIT) {
                            None => None,
                            Some(k4) => if k3 < k4 <= s.len() {
                                spec_pricing_sep(
                                    s,
                                    k4,
                                    asks,
                                    bids,
                                    closeout_ask,
                                    closeout_bid,
                                    instrument,
                                    status,
                                    time,
                                )
                            } else {
                                None
                            },
                        }
                    }
                }
            }
        },
    }
}

/// After one member of a price update: a separator or the closing brace.
pub open spec fn spec_pricing_sep(
    s: Seq<char>,
    i: int,
    asks: Option<Seq<QuoteView>>,
    bids: Option<Seq<QuoteView>>,
    closeout_ask: Option<Seq<char>>,
    closeout_bid: Option<Seq<char>>,
    instrument: Option<Seq<char>>,
    status: Option<Seq<char>>,
    time: Option<Seq<char>>,
) -> Option<(RawPricingView, int)>
    decreases s.len() - i, 0int,
{
    if !(0 <= i <= s.len()) {
        None
    } else {
        let k5 = spec_skip_ws(s, i);
        if !(i <= k5 <= s.len()) {
            None
        } else if k5 >= s.len() {
            None
        } else if s[k5] == ',' {
            let k6 = spec_skip_ws(s, k5 + 1);
            if !(k5 + 1 <= k6 <= s.len()) {
                None
            } else {
                spec_pricing_member(
                    s,
                    k6,
                    asks,
                    bids,
                    closeout_ask,
                    closeout_bid,
                    instrument,
                    status,
                    time,
                )
            }
        } else if s[k5] == '}' {
            spec_pricing_done(
                asks,
                bids,
                closeout_ask,
                closeout_bid,
                instrument,
                status,
                time,
                k5 + 1,
            )
        } else {
            None
        }
    }
}

/// Members of a heartbeat from the one starting at `i`.
pub open spec fn spec_heartbeat_member(
    s: Seq<char>,
    i: int,
    message_type: Option<Seq<char>>,
    time: Option<Seq<char>>,
) -> Option<(RawHeartbeatView, int)>
    decreases s.len() - i, 1int,
{
    match spec_parse_string(s, i) {
        None => None,
        Some((key, k1)) => {
            if !(i < k1 <= s.len()) {
                None
            } else {
                let k2 = spec_skip_ws(s, k1);
                if !(k1 <= k2 <= s.len()) {
                    None
                } else if k2 >= s.len() || s[k2] != ':' {
                    None
                } else {
                    let k3 = spec_skip_ws(s, k2 + 1);
                    if !(k2 + 1 <= k3 <= s.len()) {
                        None
                    } else if key == "type"@ {
                        if message_type is Some {
                            None
                        } else {
                            match spec_parse_string(s, k3) {
                                None => None,
                                Some((v, k4)) => if k3 < k4 <= s.len() {
                                    spec_heartbeat_sep(s, k4, Some(v), time)
                                } else {
                                    None
                                },
                            }
                        }
                    } else if key == "time"@ {
                        if time is Some {
                            None
                        } else {
                            match spec_parse_string(s, k3) {
                                None => None,
                                Some((v, k4)) => if k3 < k4 <= s.len() {
                                    spec_heartbeat_sep(s, k4, message_type, Some(v))
                                } else {
                                    None
                                },
                            }
                        }
                    } else {
                        match spec_skip_value(s, k3, JSON_DEPTH_LIMIT) {
                            None => None,
                            Some(k4) => if k3 < k4 <= s.len() {
                                spec_heartbeat_sep(s, k4, message_type, time)
                            } else {
                                None
                            },
                        }
                    }
                }
            }
        },
    }
}

/// The completed heartbeat once both fields have appeared.
pub open spec fn spec_heartbeat_done(
    message_type: Option<Seq<char>>,
    time: Option<Seq<char>>,
    end: int,
) -> Option<(RawHeartbeatView, int)> {
    match (message_type, time) {
        (Some(mt), Some(t)) => Some((RawHeartbeatView { message_type: mt, time: t }, end)),
        _ => None,
    }
}

/// After one member of a heartbeat: a separator or the closing brace.
pub open spec fn spec_heartbeat_sep(
    s: Seq<char>,
    i: int,
    message_type: Option<Seq<char>>,
    time: Option<Seq<char>>,
) -> Option<(RawHeartbeatView, int)>
    decreases s.len() - i, 0int,
{
    if !(0 <= i <= s.len()) {
        None
    } else {
        let k5 = spec_skip_ws(s, i);
        if !(i <= k5 <= s.len()) {
            None
        } else if k5 >= s.len() {
            None
        } else if s[k5] == ',' {
            let k6 = spec_skip_ws(s, k5 + 1);
            if !(k5 + 1 <= k6 <= s.len()) {
                None
            } else {
                spec_heartbeat_member(s, k6, message_type, time)
            }
        } else if s[k5] == '}' {
            spec_heartbeat_done(message_type, time, k5 + 1)
        } else {
            None
        }
    }
}

/// A whole line decoded as a price update, when it is one.
pub open spec fn spec_parse_pricing_record(t: Seq<char>) -> Option<RawPricingView> {
    let j = spec_skip_ws(t, 0);
    if 0 <= j < t.len() && t[j] == '{' {
        let j1 = spec_skip_ws(t, j + 1);
        if !(j + 1 <= j1 <= t.len()) {
            None
        } else if j1 < t.len() && t[j1] == '}' {
            None
        } else {
            match spec_pricing_member(t, j1, None, None, None, None, None, None, None) {
                None => None,
                Some((pv, k)) => if 0 <= k <= t.len() && spec_skip_ws(t, k) == t.len() {
                    Some(pv)
                } else {
                    None
                },
            }
        }
    } else {
        None
    }
}

/// A whole line decoded as a heartbeat, when it is one.
pub open spec fn spec_parse_heartbeat_record(t: Seq<char>) -> Option<RawHeartbeatView> {
    let j = spec_skip_ws(t, 0);
    if 0 <= j < t.len() && t[j] == '{' {
        let j1 = spec_skip_ws(t, j + 1);
        if !(j + 1 <= j1 <= t.len()) {
            None
        } else if j1 < t.len() && t[j1] == '}' {
            None
        } else {
            match spec_heartbeat_member(t, j1, None, None) {
                None => None,
                Some((hv, k)) => if 0 <= k <= t.len() && spec_skip_ws(t, k) == t.len() {
                    Some(hv)
                } else {
                    None
                },
            }
        }
    } else {
        None
    }
}

/// The structural decode of one line: the price-update shape is tried first,
/// then the heartbeat shape.
pub open spec fn spec_parse_raw_record(t: Seq<char>) -> Option<RawRecordView> {
    match spec_parse_pricing_record(t) {
        Some(p) => Some(RawRecordView::Pricing(p)),
        None => match spec_parse_heartbeat_record(t) {
            Some(h) => Some(RawRecordView::Heartbeat(h)),
            None => None,
        },
    }
}

fn parse_pricing_record(t: &Vec<char>) -> (r: Option<PricingMessage>)
    ensures
        match r {
            Some(p) => spec_parse_pricing_record(t@) == Some(p@),
            None => spec_parse_pricing_record(t@) is None,
        },
{
    let j = skip_ws(t, 0);
    if !(j < t.len() && t[j] == '{') {
        return None;
    }
    let j1 = skip_ws(t, j + 1);
    if j1 < t.len() && t[j1] == '}' {
        return None;
    }
    let mut asks: Option<Vec<LiquidityPrice>> = None;
    let mut bids: Option<Vec<LiquidityPrice>> = None;
    let mut closeout_ask: Option<String> = None;
    let mut closeout_bid: Option<String> = None;
    let mut instrument: Option<String> = None;
    let mut status: Option<String> = None;
    let mut time: Option<String> = None;
    let mut j2 = j1;
    let ghost t0 = t@;
    loop
        invariant
            t0 == t@,
            j2 <= t@.len(),
            spec_parse_pricing_record(t@) == ({
                match spec_pricing_member(
                    t@,
                    j2 as int,
                    opt_quotes(asks),
                    opt_quotes(bids),
                    opt_str(closeout_ask),
                    opt_str(closeout_bid),
                    opt_str(instrument),
                    opt_str(status),
                    opt_str(time),
                ) {
                    None => None::<RawPricingView>,
                    Some((pv, k)) => if 0 <= k <= t@.len() && spec_skip_ws(t@, k) == t@.len() {
                        Some(pv)
                    } else {
                        None
                    },
                }
            }),
        decreases t@.len() - j2,
    {
        let (key, k1) = match parse_string(t, j2) {
            Some(p) => p,
            None => {
                return None;
            },
        };
        let k2 = skip_ws(t, k1);
        if k2 >= t.len() {
            return None;
        }
        if t[k2] != ':' {
            return None;
        }
        let k3 = skip_ws(t, k2 + 1);
        let k4: usize;
        if chars_eq_str(&key, "asks") {
            if asks.is_some() {
                return None;
            }
            let (a, k) = match parse_quote_array(t, k3) {
                Some(p) => p,
                None => {
                    return None;
                },
            };
            asks = Some(a);
            k4 = k;
        } else if chars_eq_str(&key, "bids") {
            if bids.is_some() {
                return None;
            }
            let (b, k) = match parse_quote_array(t, k3) {
                Some(p) => p,
                None => {
                    return None;
                },
            };
            bids = Some(b);
            k4 = k;
        } else if chars_eq_str(&key, "closeoutAsk") {
            if closeout_ask.is_some() {
                return None;
            }
            let (v, k) = match parse_string(t, k3) {
                Some(p) => p,
                None => {
                    return None;
                },
            };
            closeout_ask = Some(string_from_chars(&v));
            k4 = k;
        } else if chars_eq_str(&key, "closeoutBid") {
            if closeout_bid.is_some() {
                return None;
            }
            let (v, k) = match parse_string(t, k3) {
                Some(p) => p,
                None => {
                    return None;
                },
            };
            closeout_bid = Some(string_from_chars(&v));
            k4 = k;
        } else if chars_eq_str(&key, "instrument") {
            if instrument.is_some() {
                return None;
            }
            let (v, k) = match parse_string(t, k3) {
                Some(p) => p,
                None => {
                    return None;
                },
            };
            instrument = Some(string_from_chars(&v));
            k4 = k;
        } else if chars_eq_str(&key, "status") {
            if status.is_some() {
                return None;
            }
            let (v, k) = match parse_string(t, k3) {
                Some(p) => p,
                None => {
                    return None;
                },
            };
            status = Some(string_from_chars(&v));
            k4 = k;
        } else if chars_eq_str(&key, "time") {
            if time.is_some() {
                return None;
            }
            let (v, k) = match parse_string(t, k3) {
                Some(p) => p,
                None => {
                    return None;
                },
            };
            time = Some(string_from_chars(&v));
            k4 = k;
        } else {
            let k = match skip_value(t, k3, JSON_DEPTH_LIMIT) {
                Some(p) => p,
                None => {
                    return None;
                },
            };
            k4 = k;
        }
        let k5 = skip_ws(t, k4);
        if k5 >= t.len() {
            return None;
        }
        if t[k5] == ',' {
            let k6 = skip_ws(t, k5 + 1);
            j2 = k6;
        } else if t[k5] == '}' {
            let end = k5 + 1;
            let e2 = skip_ws(t, end);
            if e2 != t.len() {
                return None;
            }
            match (asks, bids, closeout_ask, closeout_bid, instrument, status, time) {
                (
                    Some(a),
                    Some(b),
                    Some(ca),
                    Some(cb),
                    Some(ins),
                    Some(st),
                    Some(tm),
                ) => {
                    return Some(
                        (PricingMessage {
                            asks: a,
                            bids: b,
                            closeout_ask: ca,
                            closeout_bid: cb,
                            instrument: ins,
                            status: st,
                            time: tm,
                        }),
                    );
                },
                _ => {
                    return None;
                },
            }
        } else {
            return None;
        }
    }
}

fn parse_heartbeat_record(t: &Vec<char>) -> (r: Option<HeartbeatMessage>)
    ensures
        match r {
            Some(h) => spec_parse_heartbeat_record(t@) == Some(h@),
            None => spec_parse_heartbeat_record(t@) is None,
        },
{
    let j = skip_ws(t, 0);
    if !(j < t.len() && t[j] == '{') {
        return None;
    }
    let j1 = skip_ws(t, j + 1);
    if j1 < t.len() && t[j1] == '}' {
        return None;
    }
    let mut message_type: Option<String> = None;
    let mut time: Option<String> = None;
    let mut j2 = j1;
    loop
        invariant
            j2 <= t@.len(),
            spec_parse_heartbeat_record(t@) == ({
                match spec_heartbeat_member(t@, j2 as int, opt_str(message_type), opt_str(time)) {
                    None => None::<RawHeartbeatView>,
                    Some((hv, k)) => if 0 <= k <= t@.len() && spec_skip_ws(t@, k) == t@.len() {
                        Some(hv)
                    } else {
                        None
                    },
                }
            }),
        decreases t@.len() - j2,
    {
        let (key, k1) = match parse_string(t, j2) {
            Some(p) => p,
            None => {
                return None;
            },
        };
        let k2 = skip_ws(t, k1);
        if k2 >= t.len() {
            return None;
        }
        if t[k2] != ':' {
            return None;
        }
        let k3 = skip_ws(t, k2 + 1);
        let k4: usize;
        if chars_eq_str(&key, "type") {
            if message_type.is_some() {
                return None;
            }
            let (v, k) = match parse_string(t, k3) {
                Some(p) => p,
                None => {
                    return None;
                },
            };
            message_type = Some(string_from_chars(&v));
            k4 = k;
        } else if chars_eq_str(&key, "time") {
            if time.is_some() {
                return None;
            }
            let (v, k) = match parse_string(t, k3) {
                Some(p) => p,
                None => {
                    return None;
                },
            };
            time = Some(string_from_chars(&v));
            k4 = k;
        } else {
            let k = match skip_value(t, k3, JSON_DEPTH_LIMIT) {
                Some(p) => p,
                None => {
                    return None;
                },
            };
            k4 = k;
        }
        let k5 = skip_ws(t, k4);
        if k5 >= t.len() {
            return None;
        }
        if t[k5] == ',' {
            let k6 = skip_ws(t, k5 + 1);
            j2 = k6;
        } else if t[k5] == '}' {
            let end = k5 + 1;
            let e2 = skip_ws(t, end);
            if e2 != t.len() {
                return None;
            }
            match (message_type, time) {
                (Some(mt), Some(tm)) => {
                    return Some((HeartbeatMessage { message_type: mt, time: tm }));
                },
                _ => {
                    return None;
                },
            }
        } else {
            return None;
        }
    }
}

/// Decodes one line's characters as a wire-form record, trying the
/// price-update shape first and the heartbeat shape second.
pub fn parse_raw_record(t: &Vec<char>) -> (r: Option<StreamMessage>)
    ensures
        match r {
            Some(m) => spec_parse_raw_record(t@) == Some(m@),
            None => spec_parse_raw_record(t@) is None,
        },
{
    match parse_pricing_record(t) {
        Some(p) => Some(StreamMessage::Pricing(p)),
        None => match parse_heartbeat_record(t) {
            Some(h) => Some(StreamMessage::Heartbeat(h)),
            None => None,
        },
    }
}

} // verus!
