//! The IPC message bodies: single-member JSON objects for the four
//! operations — list history, promote by index, set text, read latest
//! text — with decoders, encoders, and proofs that decoding inverts
//! encoding.
//!
//! The decoders define the protocol strictly: a request object must hold
//! exactly the one known member, so bodies with additional members are
//! rejected rather than ignored, as are paired-surrogate `\u` escapes
//! (see the string grammar). Every body this crate's encoders produce is
//! accepted.

use vstd::prelude::*;

use crate::json::{encode_string_array, is_dec_digit, is_ws, lemma_parse_array_round_trip,
    lemma_parse_nat_round_trip, lemma_parse_quote_round_trip, lemma_ws_len_bounds, parse_nat,
    parse_string, parse_string_array, quote_string, skip_ws, spec_enc_array, spec_parse_nat,
    spec_parse_string, spec_parse_string_array, spec_quote, spec_ws_len};
use crate::text::{chars_vec, push_char, spec_dec, u64_to_dec};

verus! {

/// Rejection of a malformed request body; the one protocol-level error.
#[derive(Clone, Copy, PartialEq, Eq, Structural, Debug)]
pub enum ProtocolError {
    MalformedBody,
}

/// Where the member value starts in `{ "key" : value ... }`, after
/// insignificant whitespace; `None` when the input does not open an object
/// with exactly that key.
pub open spec fn spec_field_prefix(s: Seq<char>, key: Seq<char>) -> Option<int> {
    let i0 = spec_ws_len(s);
    if 0 <= i0 < s.len() && s[i0] == '{' {
        let i1 = i0 + 1 + spec_ws_len(s.skip(i0 + 1));
        match spec_parse_string(s.skip(i1)) {
            Some((k, n)) => {
                if k == key {
                    let i2 = i1 + n;
                    let i3 = i2 + spec_ws_len(s.skip(i2));
                    if 0 <= i3 < s.len() && s[i3] == ':' {
                        Some(i3 + 1 + spec_ws_len(s.skip(i3 + 1)))
                    } else {
                        None
                    }
                } else {
                    None
                }
            },
            None => None,
        }
    } else {
        None
    }
}

/// Whether position `i` closes the object and ends the input, up to
/// whitespace.
pub open spec fn spec_field_suffix_ok(s: Seq<char>, i: int) -> bool {
    let i0 = i + spec_ws_len(s.skip(i));
    &&& 0 <= i0 < s.len()
    &&& s[i0] == '}'
    &&& i0 + 1 + spec_ws_len(s.skip(i0 + 1)) == s.len()
}

/// The decoded value of `{ "key": "..." }`.
pub open spec fn spec_decode_string_field(s: Seq<char>, key: Seq<char>) -> Option<Seq<char>> {
    match spec_field_prefix(s, key) {
        Some(i) => match spec_parse_string(s.skip(i)) {
            Some((t, n)) => {
                if spec_field_suffix_ok(s, i + n) {
                    Some(t)
                } else {
                    None
                }
            },
            None => None,
        },
        None => None,
    }
}

/// The decoded value of `{ "key": 123 }`; values over `usize::MAX` are
/// rejected.
pub open spec fn spec_decode_nat_field(s: Seq<char>, key: Seq<char>) -> Option<int> {
    match spec_field_prefix(s, key) {
        Some(i) => match spec_parse_nat(s.skip(i)) {
            Some((v, n)) => {
                if spec_field_suffix_ok(s, i + n) && v <= usize::MAX {
                    Some(v)
                } else {
                    None
                }
            },
            None => None,
        },
        None => None,
    }
}

/// The decoded value of `{ "key": ["...", ...] }`.
pub open spec fn spec_decode_array_field(s: Seq<char>, key: Seq<char>) -> Option<Seq<Seq<char>>> {
    match spec_field_prefix(s, key) {
        Some(i) => match spec_parse_string_array(s.skip(i)) {
            Some((ts, n)) => {
                if spec_field_suffix_ok(s, i + n) {
                    Some(ts)
                } else {
                    None
                }
            },
            None => None,
        },
        None => None,
    }
}

/// The compact encoding `{"key":<value>}`, for an already encoded value.
pub open spec fn spec_enc_field(key: Seq<char>, value: Seq<char>) -> Seq<char> {
    seq!['{'] + spec_quote(key) + seq![':'] + value + seq!['}']
}

/// The `set text` request body: `{"text":"..."}`.
pub open spec fn spec_enc_set_text(t: Seq<char>) -> Seq<char> {
    spec_enc_field("text"@, spec_quote(t))
}

/// The decoded `set text` request.
pub open spec fn spec_decode_set_text(s: Seq<char>) -> Option<Seq<char>> {
    spec_decode_string_field(s, "text"@)
}

/// The `promote` request body: `{"idx":123}`.
pub open spec fn spec_enc_set_by_idx(n: int) -> Seq<char> {
    spec_enc_field("idx"@, spec_dec(n))
}

/// The decoded `promote` request.
pub open spec fn spec_decode_set_by_idx(s: Seq<char>) -> Option<int> {
    spec_decode_nat_field(s, "idx"@)
}

/// The `latest text` response body: `{"result":"..."}`.
pub open spec fn spec_enc_text_result(t: Seq<char>) -> Seq<char> {
    spec_enc_field("result"@, spec_quote(t))
}

/// The decoded `latest text` response.
pub open spec fn spec_decode_text_result(s: Seq<char>) -> Option<Seq<char>> {
    spec_decode_string_field(s, "result"@)
}

/// The `list` response body: `{"result":["...", ...]}`.
pub open spec fn spec_enc_list_result(items: Seq<Seq<char>>) -> Seq<char> {
    spec_enc_field("result"@, spec_enc_array(items))
}

/// The decoded `list` response.
pub open spec fn spec_decode_list_result(s: Seq<char>) -> Option<Seq<Seq<char>>> {
    spec_decode_array_field(s, "result"@)
}

fn parse_field_prefix(v: &Vec<char>, key: &str) -> (r: Option<usize>)
    ensures
        (match (spec_field_prefix(v@, key@), r) {
            (Some(i), Some(ri)) => ri == i && ri <= v@.len(),
            (None, None) => true,
            _ => false,
        }),
{
    proof {
        lemma_ws_len_bounds(v@);
        assert(v@.skip(0) =~= v@);
    }
    let i0 = skip_ws(v, 0);
    assert(i0 == spec_ws_len(v@));
    if i0 >= v.len() {
        return None;
    }
    if v[i0] != '{' {
        return None;
    }
    let i1 = skip_ws(v, i0 + 1);
    proof {
        assert(v@.skip(i0 as int + 1) =~= v@.skip(i0 + 1));
    }
    let ghost spec_i1 = i0 + 1 + spec_ws_len(v@.skip(i0 as int + 1));
    assert(i1 == spec_i1);
    let parsed = match parse_string(v, i1) {
        Some(p) => p,
        None => {
            return None;
        },
    };
    let key_chars = chars_vec(key);
    let parsed_chars = chars_vec(parsed.0.as_str());
    let keys_match = {
        if key_chars.len() != parsed_chars.len() {
            false
        } else {
            let mut eq = true;
            let kn: usize = key_chars.len();
            assert(parsed_chars@.take(0) =~= key_chars@.take(0));
            for t in 0..kn
                invariant
                    kn == key_chars@.len(),
                    kn == parsed_chars@.len(),
                    eq == (parsed_chars@.take(t as int) == key_chars@.take(t as int)),
                decreases kn - t,
            {
                proof {
                    assert(parsed_chars@.take(t + 1).drop_last() =~= parsed_chars@.take(t as int));
                    assert(key_chars@.take(t + 1).drop_last() =~= key_chars@.take(t as int));
                    if parsed_chars@.take(t as int) == key_chars@.take(t as int)
                        && parsed_chars@[t as int] == key_chars@[t as int] {
                        assert(parsed_chars@.take(t + 1) =~= key_chars@.take(t + 1));
                    }
                }
                if parsed_chars[t] != key_chars[t] {
                    eq = false;
                }
                proof {
                    if parsed_chars@.take(t + 1) == key_chars@.take(t + 1) {
                        assert(parsed_chars@.take(t + 1).last() == key_chars@.take(t + 1).last());
                        assert(parsed_chars@.take(t + 1).drop_last() == key_chars@.take(
                            t + 1,
                        ).drop_last());
                    }
                }
            }
            proof {
                assert(parsed_chars@.take(kn as int) =~= parsed_chars@);
                assert(key_chars@.take(kn as int) =~= key_chars@);
            }
            eq
        }
    };
    if !keys_match {
        return None;
    }
    assert(parsed.0@ == key@);
    let i2 = parsed.1;
    let i3 = skip_ws(v, i2);
    proof {
        assert(v@.skip(i2 as int) =~= v@.skip(i2 as int));
    }
    if i3 >= v.len() {
        return None;
    }
    if v[i3] != ':' {
        return None;
    }
    let i4 = skip_ws(v, i3 + 1);
    Some(i4)
}

fn check_field_suffix(v: &Vec<char>, i: usize) -> (r: bool)
    requires
        i <= v@.len(),
    ensures
        r == spec_field_suffix_ok(v@, i as int),
{
    let i0 = skip_ws(v, i);
    if i0 >= v.len() {
        return false;
    }
    if v[i0] != '}' {
        return false;
    }
    let i1 = skip_ws(v, i0 + 1);
    i1 == v.len()
}

/// Decodes a `set text` request body.
pub fn decode_set_text(body: &str) -> (r: Option<String>)
    ensures
        (match (spec_decode_set_text(body@), r) {
            (Some(t), Some(rs)) => rs@ == t,
            (None, None) => true,
            _ => false,
        }),
{
    let v = chars_vec(body);
    let i = match parse_field_prefix(&v, "text") {
        Some(i) => i,
        None => {
            return None;
        },
    };
    match parse_string(&v, i) {
        Some((t, n)) => {
            if check_field_suffix(&v, n) {
                Some(t)
            } else {
                None
            }
        },
        None => None,
    }
}

/// Decodes a `promote` request body.
pub fn decode_set_by_idx(body: &str) -> (r: Option<usize>)
    ensures
        (match (spec_decode_set_by_idx(body@), r) {
            (Some(n), Some(rn)) => rn == n,
            (None, None) => true,
            _ => false,
        }),
{
    let v = chars_vec(body);
    let i = match parse_field_prefix(&v, "idx") {
        Some(i) => i,
        None => {
            return None;
        },
    };
    match parse_nat(&v, i) {
        Some((n, end)) => {
            if check_field_suffix(&v, end) {
                Some(n)
            } else {
                None
            }
        },
        None => None,
    }
}

/// Decodes a `latest text` response body.
pub fn decode_text_result(body: &str) -> (r: Option<String>)
    ensures
        (match (spec_decode_text_result(body@), r) {
            (Some(t), Some(rs)) => rs@ == t,
            (None, None) => true,
            _ => false,
        }),
{
    let v = chars_vec(body);
    let i = match parse_field_prefix(&v, "result") {
        Some(i) => i,
        None => {
            return None;
        },
    };
    match parse_string(&v, i) {
        Some((t, n)) => {
            if check_field_suffix(&v, n) {
                Some(t)
            } else {
                None
            }
        },
        None => None,
    }
}

/// Decodes a `list` response body.
pub fn decode_list_result(body: &str) -> (r: Option<Vec<String>>)
    ensures
        (match (spec_decode_list_result(body@), r) {
            (Some(ts), Some(rs)) => rs.deep_view() == ts,
            (None, None) => true,
            _ => false,
        }),
{
    let v = chars_vec(body);
    let i = match parse_field_prefix(&v, "result") {
        Some(i) => i,
        None => {
            return None;
        },
    };
    match parse_string_array(&v, i) {
        Some((ts, n)) => {
            if check_field_suffix(&v, n) {
                Some(ts)
            } else {
                None
            }
        },
        None => None,
    }
}

fn encode_field(key: &str, value: String) -> (r: String)
    ensures
        r@ == spec_enc_field(key@, value@),
{
    let mut r = String::new();
    push_char(&mut r, '{');
    r.append(quote_string(key).as_str());
    push_char(&mut r, ':');
    r.append(value.as_str());
    push_char(&mut r, '}');
    assert(r@ =~= spec_enc_field(key@, value@));
    r
}

/// Writes a `set text` request body.
pub fn encode_set_text(t: &str) -> (r: String)
    ensures
        r@ == spec_enc_set_text(t@),
{
    encode_field("text", quote_string(t))
}

/// Writes a `promote` request body.
pub fn encode_set_by_idx(idx: usize) -> (r: String)
    ensures
        r@ == spec_enc_set_by_idx(idx as int),
{
    encode_field("idx", u64_to_dec(idx as u64))
}

/// Writes a `latest text` response body.
pub fn encode_text_result(t: &str) -> (r: String)
    ensures
        r@ == spec_enc_text_result(t@),
{
    encode_field("result", quote_string(t))
}

/// Writes a `list` response body.
pub fn encode_list_result(items: &Vec<String>) -> (r: String)
    ensures
        r@ == spec_enc_list_result(items.deep_view()),
{
    encode_field("result", encode_string_array(items))
}

/// The empty-object response of the two write operations.
pub fn encode_empty_response() -> (r: String)
    ensures
        r@ == "{}"@,
{
    String::from_str("{}")
}

/// A freshly encoded single-member object always opens with its key: the
/// member prefix parses back and the value follows at the stated index.
proof fn lemma_prefix_round_trip(key: Seq<char>, value: Seq<char>)
    requires
        value.len() > 0,
        !is_ws(value[0]),
    ensures
        spec_field_prefix(spec_enc_field(key, value), key) == Some(
            2 + spec_quote(key).len() as int,
        ),
        spec_enc_field(key, value).len() == spec_quote(key).len() + value.len() + 3,
        spec_enc_field(key, value).skip(2 + spec_quote(key).len() as int) =~= value + seq!['}'],
{
    let s = spec_enc_field(key, value);
    let q = spec_quote(key);
    assert(s.first() == '{');
    assert(!is_ws('{'));
    assert(spec_ws_len(s) == 0);
    assert(s.skip(1) =~= q + (seq![':'] + value + seq!['}']));
    assert(s.skip(1).first() == '"');
    assert(!is_ws('"'));
    assert(spec_ws_len(s.skip(1)) == 0);
    lemma_parse_quote_round_trip(key, seq![':'] + value + seq!['}']);
    assert(spec_parse_string(s.skip(1)) == Some((key, q.len() as int)));
    let i2 = 1 + q.len() as int;
    assert(s.skip(i2) =~= seq![':'] + value + seq!['}']);
    assert(s.skip(i2).first() == ':');
    assert(!is_ws(':'));
    assert(spec_ws_len(s.skip(i2)) == 0);
    assert(s[i2] == ':');
    assert(s.skip(i2 + 1) =~= value + seq!['}']);
    assert(s.skip(i2 + 1).first() == value[0]);
    assert(spec_ws_len(s.skip(i2 + 1)) == 0);
}

/// After the value, a freshly encoded object closes and ends.
proof fn lemma_suffix_round_trip(key: Seq<char>, value: Seq<char>)
    ensures
        spec_field_suffix_ok(
            spec_enc_field(key, value),
            spec_enc_field(key, value).len() - 1,
        ),
{
    let s = spec_enc_field(key, value);
    let i = s.len() - 1;
    assert(s[i] == '}');
    assert(s.skip(i) =~= seq!['}']);
    assert(s.skip(i).first() == '}');
    assert(!is_ws('}'));
    assert(spec_ws_len(s.skip(i)) == 0);
    assert(s.skip(i + 1) =~= Seq::<char>::empty());
    assert(spec_ws_len(s.skip(i + 1)) == 0);
}

/// Decoding inverts encoding for the `set text` request.
pub proof fn lemma_set_text_round_trip(t: Seq<char>)
    ensures
        spec_decode_set_text(spec_enc_set_text(t)) == Some(t),
{
    lemma_string_field_round_trip("text"@, t);
}

/// Decoding inverts encoding for the `latest text` response.
pub proof fn lemma_text_result_round_trip(t: Seq<char>)
    ensures
        spec_decode_text_result(spec_enc_text_result(t)) == Some(t),
{
    lemma_string_field_round_trip("result"@, t);
}

proof fn lemma_string_field_round_trip(key: Seq<char>, t: Seq<char>)
    ensures
        spec_decode_string_field(spec_enc_field(key, spec_quote(t)), key) == Some(t),
{
    let value = spec_quote(t);
    assert(value[0] == '"');
    assert(!is_ws('"'));
    lemma_prefix_round_trip(key, value);
    let s = spec_enc_field(key, value);
    let i = 2 + spec_quote(key).len() as int;
    lemma_parse_quote_round_trip(t, seq!['}']);
    assert(s.skip(i) =~= value + seq!['}']);
    assert(spec_parse_string(s.skip(i)) == Some((t, value.len() as int)));
    lemma_suffix_round_trip(key, value);
    assert(i + value.len() == s.len() - 1);
}

/// Decoding inverts encoding for the `promote` request, for every index
/// that fits in `usize`.
pub proof fn lemma_set_by_idx_round_trip(n: int)
    requires
        0 <= n <= usize::MAX,
    ensures
        spec_decode_set_by_idx(spec_enc_set_by_idx(n)) == Some(n),
{
    let key = "idx"@;
    let value = spec_dec(n);
    crate::json::lemma_dec_shape(n);
    assert(is_dec_digit(value[0]));
    assert((value[0] as u32) >= ('0' as u32));
    assert(('"' as u32) < ('0' as u32));
    assert((' ' as u32) < ('0' as u32) && ('\t' as u32) < ('0' as u32) && ('\n' as u32) < (
    '0' as u32) && ('\r' as u32) < ('0' as u32));
    assert((value[0] as u32) <= ('9' as u32));
    assert(!is_ws(value[0]));
    assert(value[0] != '"');
    lemma_prefix_round_trip(key, value);
    let s = spec_enc_field(key, value);
    let i = 2 + spec_quote(key).len() as int;
    lemma_parse_nat_round_trip(n, seq!['}']);
    assert(!is_dec_digit('}'));
    assert(s.skip(i) =~= value + seq!['}']);
    assert(spec_parse_nat(s.skip(i)) == Some((n, value.len() as int)));
    lemma_suffix_round_trip(key, value);
    assert(i + value.len() == s.len() - 1);
}

/// Decoding inverts encoding for the `list` response.
pub proof fn lemma_list_result_round_trip(items: Seq<Seq<char>>)
    ensures
        spec_decode_list_result(spec_enc_list_result(items)) == Some(items),
{
    let key = "result"@;
    let value = spec_enc_array(items);
    assert(value[0] == '[');
    assert(!is_ws('['));
    assert(value[0] != '"');
    lemma_prefix_round_trip(key, value);
    let s = spec_enc_field(key, value);
    let i = 2 + spec_quote(key).len() as int;
    lemma_parse_array_round_trip(items, seq!['}']);
    assert(s.skip(i) =~= value + seq!['}']);
    assert(spec_parse_string_array(s.skip(i)) == Some((items, value.len() as int)));
    lemma_suffix_round_trip(key, value);
    assert(i + value.len() == s.len() - 1);
}

} // verus!
