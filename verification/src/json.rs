//! The JSON subset in which the IPC protocol's request and response bodies
//! are written: objects with one known member whose value is a string, a
//! non-negative integer, or an array of strings.
//!
//! Strings accept the standard escapes and `\uXXXX` for scalar values;
//! surrogate escapes are rejected. Numbers are non-negative integers with
//! no leading zeros. Encoding escapes `"`, `\` and control characters, the
//! five named controls by their short forms.

use vstd::prelude::*;

use crate::text::push_char;

verus! {

/// Relies on `char::from_u32` (std): `Some` exactly for Unicode scalar
/// values, that is everything up to `0x10FFFF` except the surrogate range,
/// and the returned character has the given scalar value.
pub assume_specification[ char::from_u32 ](i: u32) -> (r: Option<char>)
    ensures
        r is Some <==> (i < 0xD800 || (0xE000 <= i && i <= 0x10FFFF)),
        r matches Some(c) ==> c == i as char,
;

/// JSON insignificant whitespace.
pub open spec fn is_ws(c: char) -> bool {
    c == ' ' || c == '\t' || c == '\n' || c == '\r'
}

/// The number of whitespace characters at the front of `s`.
pub open spec fn spec_ws_len(s: Seq<char>) -> int
    decreases s.len(),
{
    if s.len() > 0 && is_ws(s.first()) {
        1 + spec_ws_len(s.drop_first())
    } else {
        0
    }
}

pub proof fn lemma_ws_len_bounds(s: Seq<char>)
    ensures
        0 <= spec_ws_len(s) <= s.len(),
    decreases s.len(),
{
    if s.len() > 0 && is_ws(s.first()) {
        lemma_ws_len_bounds(s.drop_first());
    }
}

proof fn lemma_ws_len_step(s: Seq<char>)
    requires
        s.len() > 0,
        is_ws(s.first()),
    ensures
        spec_ws_len(s) == 1 + spec_ws_len(s.skip(1)),
{
    assert(s.drop_first() =~= s.skip(1));
}

/// Advances past whitespace.
pub fn skip_ws(v: &Vec<char>, start: usize) -> (j: usize)
    requires
        start <= v@.len(),
    ensures
        j == start + spec_ws_len(v@.skip(start as int)),
        start <= j <= v@.len(),
{
    let mut i = start;
    loop
        invariant
            start <= i <= v@.len(),
            spec_ws_len(v@.skip(start as int)) == (i - start) + spec_ws_len(v@.skip(i as int)),
        decreases v@.len() - i,
    {
        proof {
            lemma_ws_len_bounds(v@.skip(i as int));
        }
        if i >= v.len() {
            return i;
        }
        let c = v[i];
        assert(v@.skip(i as int).first() == c);
        if !(c == ' ' || c == '\t' || c == '\n' || c == '\r') {
            return i;
        }
        proof {
            lemma_ws_len_step(v@.skip(i as int));
            assert(v@.skip(i as int).skip(1) =~= v@.skip(i + 1));
        }
        i = i + 1;
    }
}

/// Decimal digit test.
pub open spec fn is_dec_digit(c: char) -> bool {
    '0' <= c && c <= '9'
}

/// The value of a decimal digit.
pub open spec fn spec_dec_val(c: char) -> int {
    c as u32 - '0' as u32
}

/// Hex digit test (both cases).
pub open spec fn is_hex_digit(c: char) -> bool {
    ('0' <= c && c <= '9') || ('a' <= c && c <= 'f') || ('A' <= c && c <= 'F')
}

/// The value of a hex digit.
pub open spec fn spec_hex_val(c: char) -> int {
    if '0' <= c && c <= '9' {
        c as u32 - '0' as u32
    } else if 'a' <= c && c <= 'f' {
        c as u32 - 'a' as u32 + 10
    } else {
        c as u32 - 'A' as u32 + 10
    }
}

fn hex_val(c: char) -> (r: u32)
    requires
        is_hex_digit(c),
    ensures
        r == spec_hex_val(c),
        r < 16,
{
    let u = c as u32;
    if u >= 97 {
        u - 97 + 10
    } else if u >= 65 {
        u - 65 + 10
    } else {
        u - 48
    }
}

/// The single character a short escape stands for.
pub open spec fn spec_unescape(e: char) -> Option<char> {
    if e == '"' {
        Some('"')
    } else if e == '\\' {
        Some('\\')
    } else if e == '/' {
        Some('/')
    } else if e == 'b' {
        Some('\u{8}')
    } else if e == 'f' {
        Some('\u{c}')
    } else if e == 'n' {
        Some('\n')
    } else if e == 'r' {
        Some('\r')
    } else if e == 't' {
        Some('\t')
    } else {
        None
    }
}

fn unescape(e: char) -> (r: Option<char>)
    ensures
        r == spec_unescape(e),
{
    match e {
        '"' => Some('"'),
        '\\' => Some('\\'),
        '/' => Some('/'),
        'b' => Some('\u{8}'),
        'f' => Some('\u{c}'),
        'n' => Some('\n'),
        'r' => Some('\r'),
        't' => Some('\t'),
        _ => None,
    }
}

/// The remainder of a JSON string after its opening quote: the decoded
/// characters and the count of input characters consumed, closing quote
/// included; `None` on malformed input.
pub open spec fn spec_parse_string_body(s: Seq<char>) -> Option<(Seq<char>, int)>
    decreases s.len(),
{
    if s.len() == 0 {
        None
    } else if s.first() == '"' {
        Some((Seq::empty(), 1))
    } else if s.first() == '\\' {
        if s.len() < 2 {
            None
        } else if s[1] == 'u' {
            if s.len() < 6 {
                None
            } else if is_hex_digit(s[2]) && is_hex_digit(s[3]) && is_hex_digit(s[4])
                && is_hex_digit(s[5]) {
                let v = spec_hex_val(s[2]) * 4096 + spec_hex_val(s[3]) * 256 + spec_hex_val(s[4])
                    * 16 + spec_hex_val(s[5]);
                if 0xD800 <= v && v < 0xE000 {
                    None
                } else {
                    match spec_parse_string_body(s.skip(6)) {
                        Some((r, n)) => Some((seq![(v as u32) as char] + r, 6 + n)),
                        None => None,
                    }
                }
            } else {
                None
            }
        } else {
            match spec_unescape(s[1]) {
                Some(c) => match spec_parse_string_body(s.skip(2)) {
                    Some((r, n)) => Some((seq![c] + r, 2 + n)),
                    None => None,
                },
                None => None,
            }
        }
    } else if (s.first() as u32) < 0x20 {
        None
    } else {
        match spec_parse_string_body(s.skip(1)) {
            Some((r, n)) => Some((seq![s.first()] + r, 1 + n)),
            None => None,
        }
    }
}

/// A whole JSON string, opening quote included.
pub open spec fn spec_parse_string(s: Seq<char>) -> Option<(Seq<char>, int)> {
    if s.len() > 0 && s.first() == '"' {
        match spec_parse_string_body(s.skip(1)) {
            Some((r, n)) => Some((r, 1 + n)),
            None => None,
        }
    } else {
        None
    }
}

/// A successful parse consumes at least one and at most all characters.
pub proof fn lemma_parse_string_body_consumed(s: Seq<char>)
    ensures
        spec_parse_string_body(s) matches Some((t, n)) ==> 1 <= n <= s.len(),
    decreases s.len(),
{
    if s.len() >= 1 {
        lemma_parse_string_body_consumed(s.skip(1));
    }
    if s.len() >= 2 {
        lemma_parse_string_body_consumed(s.skip(2));
    }
    if s.len() >= 6 {
        lemma_parse_string_body_consumed(s.skip(6));
    }
}

spec fn prepend_parse(pre: Seq<char>, k: int, o: Option<(Seq<char>, int)>) -> Option<
    (Seq<char>, int),
> {
    match o {
        Some((r, n)) => Some((pre + r, k + n)),
        None => None,
    }
}

proof fn lemma_prepend_compose(pre: Seq<char>, k: int, c: char, e: int, o: Option<(Seq<char>, int)>)
    ensures
        prepend_parse(pre, k, prepend_parse(seq![c], e, o)) == prepend_parse(
            pre.push(c),
            k + e,
            o,
        ),
{
    match o {
        Some((r, n)) => {
            assert(pre + (seq![c] + r) =~= pre.push(c) + r);
        },
        None => {},
    }
}

/// Parses a JSON string body beginning at `start` (just past the opening
/// quote); returns the decoded string and the index just past the closing
/// quote.
pub fn parse_string_body(v: &Vec<char>, start: usize) -> (r: Option<(String, usize)>)
    requires
        start <= v@.len(),
    ensures
        (match (spec_parse_string_body(v@.skip(start as int)), r) {
            (Some((t, n)), Some(p)) => p.0@ == t && p.1 == start + n && p.1 <= v@.len(),
            (None, None) => true,
            _ => false,
        }),
{
    let ghost s0 = v@.skip(start as int);
    proof {
        lemma_parse_string_body_consumed(s0);
    }
    let mut i = start;
    let mut acc = String::new();
    loop
        invariant
            start <= i <= v@.len(),
            s0 == v@.skip(start as int),
            spec_parse_string_body(s0) == prepend_parse(
                acc@,
                i - start,
                spec_parse_string_body(v@.skip(i as int)),
            ),
        decreases v@.len() - i,
    {
        let ghost cur = v@.skip(i as int);
        proof {
            lemma_parse_string_body_consumed(cur);
        }
        if i >= v.len() {
            assert(cur.len() == 0);
            return None;
        }
        let c = v[i];
        assert(cur.first() == c);
        if c == '"' {
            assert(spec_parse_string_body(cur) == Some((Seq::<char>::empty(), 1int)));
            proof {
                assert(acc@ + Seq::<char>::empty() =~= acc@);
            }
            return Some((acc, i + 1));
        }
        if c == '\\' {
            if i + 1 >= v.len() {
                assert(cur.len() < 2);
                return None;
            }
            let e = v[i + 1];
            assert(cur[1] == e);
            if e == 'u' {
                if v.len() - i < 6 {
                    assert(cur.len() < 6);
                    return None;
                }
                assert(cur.len() >= 6);
                let h2 = v[i + 2];
                let h3 = v[i + 3];
                let h4 = v[i + 4];
                let h5 = v[i + 5];
                assert(cur[2] == h2 && cur[3] == h3 && cur[4] == h4 && cur[5] == h5);
                let hex_ok = {
                    let a = matches!(h2, '0'..='9' | 'a'..='f' | 'A'..='F');
                    let b = matches!(h3, '0'..='9' | 'a'..='f' | 'A'..='F');
                    let c2 = matches!(h4, '0'..='9' | 'a'..='f' | 'A'..='F');
                    let d = matches!(h5, '0'..='9' | 'a'..='f' | 'A'..='F');
                    a && b && c2 && d
                };
                if !hex_ok {
                    return None;
                }
                let val: u32 = hex_val(h2) * 4096 + hex_val(h3) * 256 + hex_val(h4) * 16 + hex_val(
                    h5,
                );
                if 0xD800 <= val && val < 0xE000 {
                    return None;
                }
                let decoded_opt = char::from_u32(val);
                let decoded = decoded_opt.unwrap();
                proof {
                    let ghost spec_c = ((val as int) as u32) as char;
                    assert(decoded == spec_c);
                    lemma_prepend_compose(
                        acc@,
                        i - start,
                        decoded,
                        6,
                        spec_parse_string_body(cur.skip(6)),
                    );
                    assert(cur.skip(6) =~= v@.skip(i + 6));
                }
                push_char(&mut acc, decoded);
                i = i + 6;
            } else {
                match unescape(e) {
                    Some(decoded) => {
                        proof {
                            lemma_prepend_compose(
                                acc@,
                                i - start,
                                decoded,
                                2,
                                spec_parse_string_body(cur.skip(2)),
                            );
                            assert(cur.skip(2) =~= v@.skip(i + 2));
                        }
                        push_char(&mut acc, decoded);
                        i = i + 2;
                    },
                    None => {
                        return None;
                    },
                }
            }
        } else if (c as u32) < 0x20 {
            return None;
        } else {
            proof {
                lemma_prepend_compose(
                    acc@,
                    i - start,
                    c,
                    1,
                    spec_parse_string_body(cur.skip(1)),
                );
                assert(cur.skip(1) =~= v@.skip(i + 1));
            }
            push_char(&mut acc, c);
            i = i + 1;
        }
    }
}

/// Folds decimal digits onto an accumulator; returns the value and the
/// count of digits consumed.
pub open spec fn spec_digits_from(s: Seq<char>, acc: int) -> (int, int)
    decreases s.len(),
{
    if s.len() > 0 && is_dec_digit(s.first()) {
        let r = spec_digits_from(s.skip(1), acc * 10 + spec_dec_val(s.first()));
        (r.0, 1 + r.1)
    } else {
        (acc, 0)
    }
}

/// A JSON non-negative integer: digits without a leading zero; a lone zero
/// stands for itself.
pub open spec fn spec_parse_nat(s: Seq<char>) -> Option<(int, int)> {
    if s.len() > 0 && is_dec_digit(s.first()) {
        if s.first() == '0' {
            Some((0, 1))
        } else {
            Some(spec_digits_from(s, 0))
        }
    } else {
        None
    }
}

/// Folding digits never shrinks a non-negative accumulator, and consumes at
/// most the whole input.
pub proof fn lemma_digits_from_bounds(s: Seq<char>, acc: int)
    requires
        acc >= 0,
    ensures
        spec_digits_from(s, acc).0 >= acc,
        0 <= spec_digits_from(s, acc).1 <= s.len(),
    decreases s.len(),
{
    if s.len() > 0 && is_dec_digit(s.first()) {
        assert(spec_dec_val(s.first()) >= 0);
        lemma_digits_from_bounds(s.skip(1), acc * 10 + spec_dec_val(s.first()));
    }
}

/// Parses a non-negative integer beginning at `start`; rejects values that
/// do not fit in `usize`.
pub fn parse_nat(v: &Vec<char>, start: usize) -> (r: Option<(usize, usize)>)
    requires
        start <= v@.len(),
    ensures
        (match (spec_parse_nat(v@.skip(start as int)), r) {
            (Some((val, n)), Some(p)) => val <= usize::MAX && p.0 == val && p.1 == start + n
                && p.1 <= v@.len(),
            (Some((val, n)), None) => val > usize::MAX,
            (None, None) => true,
            _ => false,
        }),
{
    let ghost s0 = v@.skip(start as int);
    if start >= v.len() {
        assert(s0.len() == 0);
        return None;
    }
    let c0 = v[start];
    assert(s0.first() == c0);
    if !('0' <= c0 && c0 <= '9') {
        return None;
    }
    if c0 == '0' {
        return Some((0, start + 1));
    }
    let mut i = start;
    let mut acc: usize = 0;
    loop
        invariant
            start <= i <= v@.len(),
            s0 == v@.skip(start as int),
            spec_digits_from(s0, 0).0 == spec_digits_from(v@.skip(i as int), acc as int).0,
            spec_digits_from(s0, 0).1 == (i - start) + spec_digits_from(
                v@.skip(i as int),
                acc as int,
            ).1,
            spec_parse_nat(s0) == Some(spec_digits_from(s0, 0)),
        decreases v@.len() - i,
    {
        let ghost cur = v@.skip(i as int);
        proof {
            lemma_digits_from_bounds(cur, acc as int);
        }
        if i >= v.len() {
            assert(cur.len() == 0);
            return Some((acc, i));
        }
        let c = v[i];
        assert(cur.first() == c);
        if !('0' <= c && c <= '9') {
            return Some((acc, i));
        }
        let d: u32 = c as u32 - 48;
        assert(d == spec_dec_val(c) && d <= 9);
        if acc > (usize::MAX - d as usize) / 10 {
            proof {
                assert(acc as int * 10 + d as int > usize::MAX) by (nonlinear_arith)
                    requires
                        acc as int > (usize::MAX as int - d as int) / 10,
                        0 <= d as int <= 9,
                ;
                lemma_digits_from_bounds(cur.skip(1), acc as int * 10 + d as int);
                assert(cur.skip(1) =~= v@.skip(i + 1));
            }
            return None;
        }
        proof {
            assert(cur.skip(1) =~= v@.skip(i + 1));
        }
        acc = acc * 10 + d as usize;
        i = i + 1;
    }
}

/// Powers of ten.
pub open spec fn spec_pow10(k: int) -> int
    decreases k,
{
    if k <= 0 {
        1
    } else {
        10 * spec_pow10(k - 1)
    }
}

/// Every character of a decimal rendering is a digit; the first is zero
/// only for the value zero.
pub proof fn lemma_dec_shape(n: int)
    requires
        n >= 0,
    ensures
        crate::text::spec_dec(n).len() >= 1,
        forall|i: int| 0 <= i < crate::text::spec_dec(n).len() ==> is_dec_digit(
            #[trigger] crate::text::spec_dec(n)[i],
        ),
        n > 0 ==> crate::text::spec_dec(n)[0] != '0',
        n == 0 ==> crate::text::spec_dec(n) == seq!['0'],
    decreases n,
{
    lemma_digit_chars();
    if n < 10 {
        assert(crate::text::spec_dec(n) == seq![crate::text::spec_digit(n)]);
    } else {
        lemma_dec_shape(n / 10);
        assert(crate::text::spec_dec(n) == crate::text::spec_dec(n / 10).push(
            crate::text::spec_digit(n % 10),
        ));
    }
}

/// The decimal digit characters have their values.
pub proof fn lemma_digit_chars()
    ensures
        forall|d: int| 0 <= d < 10 ==> is_dec_digit(#[trigger] crate::text::spec_digit(d)),
        forall|d: int| 0 <= d < 10 ==> spec_dec_val(#[trigger] crate::text::spec_digit(d)) == d,
        forall|d: int| 1 <= d < 10 ==> crate::text::spec_digit(d) != '0',
{
    assert forall|d: int| 0 <= d < 10 implies is_dec_digit(#[trigger] crate::text::spec_digit(d))
        && spec_dec_val(crate::text::spec_digit(d)) == d && (d >= 1 ==> crate::text::spec_digit(d)
        != '0') by {
        if d == 0 {
            assert(crate::text::spec_digit(0) == '0');
        } else if d == 1 {
            assert(crate::text::spec_digit(1) == '1');
        } else if d == 2 {
            assert(crate::text::spec_digit(2) == '2');
        } else if d == 3 {
            assert(crate::text::spec_digit(3) == '3');
        } else if d == 4 {
            assert(crate::text::spec_digit(4) == '4');
        } else if d == 5 {
            assert(crate::text::spec_digit(5) == '5');
        } else if d == 6 {
            assert(crate::text::spec_digit(6) == '6');
        } else if d == 7 {
            assert(crate::text::spec_digit(7) == '7');
        } else if d == 8 {
            assert(crate::text::spec_digit(8) == '8');
        } else {
            assert(crate::text::spec_digit(9) == '9');
        }
    }
}

/// Folding the decimal rendering of `n` into an accumulator multiplies the
/// accumulator past it and continues into the rest of the input.
pub proof fn lemma_digits_fold_dec(n: int, rest: Seq<char>, acc: int)
    requires
        n >= 0,
        acc >= 0,
    ensures
        spec_digits_from(crate::text::spec_dec(n) + rest, acc) == {
            let r = spec_digits_from(
                rest,
                acc * spec_pow10(crate::text::spec_dec(n).len() as int) + n,
            );
            (r.0, crate::text::spec_dec(n).len() + r.1)
        },
    decreases n,
{
    lemma_digit_chars();
    lemma_dec_shape(n);
    let dn = crate::text::spec_dec(n);
    if n < 10 {
        let s = dn + rest;
        assert(s.first() == crate::text::spec_digit(n));
        assert(is_dec_digit(s.first()));
        assert(s.skip(1) =~= rest);
        assert(spec_pow10(0) == 1);
        assert(spec_pow10(1) == 10);
        assert(acc * 10 + n == acc * spec_pow10(1) + n);
    } else {
        let a = crate::text::spec_dec(n / 10);
        let d = crate::text::spec_digit(n % 10);
        assert(dn == a.push(d));
        assert(dn + rest =~= a + (seq![d] + rest));
        lemma_digits_fold_dec(n / 10, seq![d] + rest, acc);
        let acc2 = acc * spec_pow10(a.len() as int) + n / 10;
        let s2 = seq![d] + rest;
        assert(s2.first() == d);
        assert(is_dec_digit(d));
        assert(s2.skip(1) =~= rest);
        assert(spec_digits_from(s2, acc2) == {
            let r = spec_digits_from(rest, acc2 * 10 + spec_dec_val(d));
            (r.0, 1 + r.1)
        });
        assert(acc2 * 10 + n % 10 == acc * spec_pow10(a.len() as int + 1) + n) by (nonlinear_arith)
            requires
                acc2 == acc * spec_pow10(a.len() as int) + n / 10,
                spec_pow10(a.len() as int + 1) == 10 * spec_pow10(a.len() as int),
                n >= 10,
                n % 10 == n - 10 * (n / 10),
        ;
        assert(spec_pow10(a.len() as int + 1) == 10 * spec_pow10(a.len() as int));
        assert(n % 10 == n - 10 * (n / 10));
        assert(dn.len() == a.len() + 1);
    }
}

/// Parsing the decimal rendering of `n`, followed by anything that does not
/// begin with a digit, yields `n` back.
pub proof fn lemma_parse_nat_round_trip(n: int, rest: Seq<char>)
    requires
        n >= 0,
        rest.len() == 0 || !is_dec_digit(rest.first()),
    ensures
        spec_parse_nat(crate::text::spec_dec(n) + rest) == Some(
            (n, crate::text::spec_dec(n).len() as int),
        ),
{
    lemma_dec_shape(n);
    let dn = crate::text::spec_dec(n);
    let s = dn + rest;
    assert(s.first() == dn[0]);
    assert(is_dec_digit(s.first()));
    if n == 0 {
        assert(s.first() == '0');
    } else {
        assert(s.first() != '0');
        lemma_digits_fold_dec(n, rest, 0);
        if rest.len() == 0 {
            assert(spec_digits_from(rest, 0 * spec_pow10(dn.len() as int) + n) == (
                0 * spec_pow10(dn.len() as int) + n,
                0int,
            ));
        } else {
            assert(!is_dec_digit(rest.first()));
        }
        assert(0 * spec_pow10(dn.len() as int) == 0) by (nonlinear_arith);
    }
}

/// Parses a whole JSON string beginning at `start` (at the opening quote).
pub fn parse_string(v: &Vec<char>, start: usize) -> (r: Option<(String, usize)>)
    requires
        start <= v@.len(),
    ensures
        (match (spec_parse_string(v@.skip(start as int)), r) {
            (Some((t, n)), Some(p)) => p.0@ == t && p.1 == start + n && p.1 <= v@.len(),
            (None, None) => true,
            _ => false,
        }),
{
    let ghost s = v@.skip(start as int);
    if start >= v.len() {
        assert(s.len() == 0);
        return None;
    }
    let c = v[start];
    assert(s.first() == c);
    if c != '"' {
        return None;
    }
    proof {
        assert(s.skip(1) =~= v@.skip(start + 1));
    }
    match parse_string_body(v, start + 1) {
        Some((t, j)) => Some((t, j)),
        None => None,
    }
}

/// A successful string parse consumes at least the two quotes.
pub proof fn lemma_parse_string_consumed(s: Seq<char>)
    ensures
        spec_parse_string(s) matches Some((t, n)) ==> 2 <= n <= s.len(),
{
    if s.len() > 0 && s.first() == '"' {
        lemma_parse_string_body_consumed(s.skip(1));
    }
}

/// The elements of a JSON string array, after its opening bracket and
/// first element: repeated `, "..."` groups closed by `]`.
pub open spec fn spec_parse_array_rest(s: Seq<char>) -> Option<(Seq<Seq<char>>, int)>
    decreases s.len(),
{
    let w = spec_ws_len(s);
    if 0 <= w < s.len() && s[w] == ']' {
        Some((Seq::empty(), w + 1))
    } else if 0 <= w < s.len() && s[w] == ',' {
        let j = w + 1 + spec_ws_len(s.skip(w + 1));
        match spec_parse_string(s.skip(j)) {
            Some((t, n)) => {
                if 1 <= j + n <= s.len() {
                    match spec_parse_array_rest(s.skip(j + n)) {
                        Some((ts, m)) => Some((seq![t] + ts, j + n + m)),
                        None => None,
                    }
                } else {
                    None
                }
            },
            None => None,
        }
    } else {
        None
    }
}

/// A JSON array of strings.
pub open spec fn spec_parse_string_array(s: Seq<char>) -> Option<(Seq<Seq<char>>, int)> {
    if s.len() > 0 && s.first() == '[' {
        let i = 1 + spec_ws_len(s.skip(1));
        if 0 <= i < s.len() && s[i] == ']' {
            Some((Seq::empty(), i + 1))
        } else {
            match spec_parse_string(s.skip(i)) {
                Some((t, n)) => {
                    if 1 <= i + n <= s.len() {
                        match spec_parse_array_rest(s.skip(i + n)) {
                            Some((ts, m)) => Some((seq![t] + ts, i + n + m)),
                            None => None,
                        }
                    } else {
                        None
                    }
                },
                None => None,
            }
        }
    } else {
        None
    }
}

spec fn prepend_items(pre: Seq<Seq<char>>, k: int, o: Option<(Seq<Seq<char>>, int)>) -> Option<
    (Seq<Seq<char>>, int),
> {
    match o {
        Some((r, n)) => Some((pre + r, k + n)),
        None => None,
    }
}

/// Parses a JSON array of strings beginning at `start`.
pub fn parse_string_array(v: &Vec<char>, start: usize) -> (r: Option<(Vec<String>, usize)>)
    requires
        start <= v@.len(),
    ensures
        (match (spec_parse_string_array(v@.skip(start as int)), r) {
            (Some((ts, n)), Some(p)) => p.0.deep_view() == ts && p.1 == start + n && p.1
                <= v@.len(),
            (None, None) => true,
            _ => false,
        }),
{
    let ghost s0 = v@.skip(start as int);
    if start >= v.len() {
        assert(s0.len() == 0);
        return None;
    }
    let c0 = v[start];
    assert(s0.first() == c0);
    if c0 != '[' {
        return None;
    }
    proof {
        assert(s0.skip(1) =~= v@.skip(start + 1));
    }
    let i0 = skip_ws(v, start + 1);
    let ghost spec_i = 1 + spec_ws_len(s0.skip(1));
    assert(i0 == start + spec_i);
    if i0 >= v.len() {
        assert(!(0 <= spec_i < s0.len()));
        assert(spec_parse_string(s0.skip(spec_i)) is None) by {
            assert(s0.skip(spec_i).len() <= 0);
        }
        return None;
    }
    if v[i0] == ']' {
        assert(s0[spec_i] == ']');
        let mut out: Vec<String> = Vec::new();
        assert(out.deep_view() =~= Seq::<Seq<char>>::empty());
        return Some((out, i0 + 1));
    }
    assert(s0[spec_i] != ']');
    proof {
        assert(s0.skip(spec_i) =~= v@.skip(i0 as int));
    }
    let first = match parse_string(v, i0) {
        Some(p) => p,
        None => {
            return None;
        },
    };
    proof {
        lemma_parse_string_consumed(s0.skip(spec_i));
    }
    let mut out: Vec<String> = Vec::new();
    let ghost first_t = first.0@;
    out.push(first.0);
    let mut i = first.1;
    let ghost rest_base = spec_parse_string_array(s0);
    proof {
        assert(out.deep_view() =~= seq![first_t]);
        assert(s0.skip(i - start) =~= v@.skip(i as int));
    }
    loop
        invariant
            start <= i <= v@.len(),
            s0 == v@.skip(start as int),
            out.deep_view().len() >= 1,
            spec_parse_string_array(s0) == prepend_items(
                out.deep_view(),
                i - start,
                spec_parse_array_rest(v@.skip(i as int)),
            ),
        decreases v@.len() - i,
    {
        let ghost cur = v@.skip(i as int);
        let w = skip_ws(v, i);
        let ghost sw = spec_ws_len(cur);
        assert(w == i + sw);
        proof {
            assert(cur.skip(sw) =~= v@.skip(w as int));
        }
        if w >= v.len() {
            assert(!(0 <= sw < cur.len()));
            assert(spec_parse_array_rest(cur) is None);
            return None;
        }
        let c = v[w];
        assert(cur[sw] == c);
        if c == ']' {
            return Some((out, w + 1));
        }
        if c != ',' {
            return None;
        }
        proof {
            assert(cur.skip(sw + 1) =~= v@.skip(w + 1));
        }
        let j = skip_ws(v, w + 1);
        let ghost sj = sw + 1 + spec_ws_len(cur.skip(sw + 1));
        assert(j == i + sj);
        proof {
            assert(cur.skip(sj) =~= v@.skip(j as int));
        }
        match parse_string(v, j) {
            Some((t, jn)) => {
                proof {
                    lemma_parse_string_consumed(cur.skip(sj));
                    let o = spec_parse_array_rest(v@.skip(jn as int));
                    let spec_n = jn - j;
                    assert(cur.skip(sj + spec_n) =~= v@.skip(jn as int));
                    assert(spec_parse_array_rest(cur) == prepend_items(
                        seq![t@],
                        sj + spec_n,
                        o,
                    ));
                    assert(prepend_items(
                        out.deep_view(),
                        i - start,
                        prepend_items(seq![t@], sj + spec_n, o),
                    ) == prepend_items(out.deep_view().push(t@), (i - start) + sj + spec_n, o))
                        by {
                        match o {
                            Some((rr, nn)) => {
                                assert(out.deep_view() + (seq![t@] + rr) =~= out.deep_view().push(
                                    t@,
                                ) + rr);
                            },
                            None => {},
                        }
                    }
                }
                let ghost prev = out.deep_view();
                out.push(t);
                proof {
                    assert(out.deep_view() =~= prev.push(t@));
                }
                i = jn;
            },
            None => {
                return None;
            },
        }
    }
}

/// The encoding of the elements of a string array after the first: comma
/// groups closed by the bracket.
pub open spec fn spec_enc_array_rest(items: Seq<Seq<char>>) -> Seq<char>
    decreases items.len(),
{
    if items.len() == 0 {
        seq![']']
    } else {
        seq![','] + spec_quote(items.first()) + spec_enc_array_rest(items.drop_first())
    }
}

/// The encoding of a JSON string array, compact as the protocol writes it.
pub open spec fn spec_enc_array(items: Seq<Seq<char>>) -> Seq<char> {
    if items.len() == 0 {
        seq!['[', ']']
    } else {
        seq!['['] + spec_quote(items.first()) + spec_enc_array_rest(items.drop_first())
    }
}

/// Writes a string array in JSON.
pub fn encode_string_array(items: &Vec<String>) -> (r: String)
    ensures
        r@ == spec_enc_array(items.deep_view()),
{
    let ghost deep = items.deep_view();
    let n: usize = items.len();
    assert(deep.len() == n);
    let mut r = String::new();
    push_char(&mut r, '[');
    if n == 0 {
        push_char(&mut r, ']');
        assert(r@ =~= spec_enc_array(deep));
        return r;
    }
    r.append(quote_string(items[0].as_str()).as_str());
    assert(deep[0] == items@[0]@);
    let mut i: usize = 1;
    while i < n
        invariant
            1 <= i <= n,
            n == items@.len(),
            deep == items.deep_view(),
            deep.len() == n,
            spec_enc_array(deep) =~= r@ + spec_enc_array_rest(deep.skip(i as int)),
        decreases n - i,
    {
        push_char(&mut r, ',');
        r.append(quote_string(items[i].as_str()).as_str());
        proof {
            let rest = deep.skip(i as int);
            assert(rest.first() == deep[i as int]);
            assert(deep[i as int] == items@[i as int]@);
            assert(rest.drop_first() =~= deep.skip(i + 1));
        }
        i = i + 1;
    }
    proof {
        assert(deep.skip(n as int) =~= Seq::<Seq<char>>::empty());
    }
    push_char(&mut r, ']');
    assert(r@ =~= spec_enc_array(deep));
    r
}

/// Parsing an encoded string array followed by any rest yields the
/// original items.
pub proof fn lemma_parse_array_round_trip(items: Seq<Seq<char>>, rest: Seq<char>)
    ensures
        spec_parse_string_array(spec_enc_array(items) + rest) == Some(
            (items, spec_enc_array(items).len() as int),
        ),
{
    let s = spec_enc_array(items) + rest;
    assert(s.first() == '[');
    if items.len() == 0 {
        assert(s[1] == ']');
        assert(!is_ws(s[1]));
        assert(s.skip(1).first() == ']');
        assert(spec_ws_len(s.skip(1)) == 0);
        assert(items =~= Seq::<Seq<char>>::empty());
    } else {
        let q = spec_quote(items.first());
        let tail = spec_enc_array_rest(items.drop_first()) + rest;
        assert(s.skip(1) =~= q + tail);
        assert(q.first() == '"');
        assert(s[1] == '"');
        assert(!is_ws(s[1]));
        assert(spec_ws_len(s.skip(1)) == 0);
        assert(s[1] != ']');
        lemma_parse_quote_round_trip(items.first(), tail);
        assert(spec_parse_string(s.skip(1)) == Some((items.first(), q.len() as int)));
        lemma_enc_array_rest_round_trip(items.drop_first(), rest);
        assert(s.skip(1 + q.len() as int) =~= tail);
        assert(seq![items.first()] + items.drop_first() =~= items);
    }
}

proof fn lemma_enc_array_rest_round_trip(items: Seq<Seq<char>>, rest: Seq<char>)
    ensures
        spec_parse_array_rest(spec_enc_array_rest(items) + rest) == Some(
            (items, spec_enc_array_rest(items).len() as int),
        ),
    decreases items.len(),
{
    let s = spec_enc_array_rest(items) + rest;
    if items.len() == 0 {
        assert(s.first() == ']');
        assert(spec_ws_len(s) == 0);
        assert(items =~= Seq::<Seq<char>>::empty());
    } else {
        let q = spec_quote(items.first());
        let tail = spec_enc_array_rest(items.drop_first()) + rest;
        assert(s.first() == ',');
        assert(spec_ws_len(s) == 0);
        assert(s.skip(1) =~= q + tail);
        assert(s[1] == '"');
        assert(!is_ws(s[1]));
        assert(spec_ws_len(s.skip(1)) == 0);
        lemma_parse_quote_round_trip(items.first(), tail);
        assert(spec_parse_string(s.skip(1)) == Some((items.first(), q.len() as int)));
        lemma_enc_array_rest_round_trip(items.drop_first(), rest);
        assert(s.skip(1 + q.len() as int) =~= tail);
        assert(seq![items.first()] + items.drop_first() =~= items);
    }
}

/// The escape sequence a character is written as inside a JSON string:
/// quote, backslash and the five named control characters take their short
/// forms, other control characters take `\u00XX`, everything else stands
/// for itself.
pub open spec fn spec_escape_char(c: char) -> Seq<char> {
    if c == '"' {
        seq!['\\', '"']
    } else if c == '\\' {
        seq!['\\', '\\']
    } else if c == '\u{8}' {
        seq!['\\', 'b']
    } else if c == '\t' {
        seq!['\\', 't']
    } else if c == '\n' {
        seq!['\\', 'n']
    } else if c == '\u{c}' {
        seq!['\\', 'f']
    } else if c == '\r' {
        seq!['\\', 'r']
    } else if (c as u32) < 0x20 {
        seq!['\\', 'u', '0', '0'] + seq![
            crate::hashing::spec_hex_digit(c as u32 as int / 16),
            crate::hashing::spec_hex_digit(c as u32 as int % 16),
        ]
    } else {
        seq![c]
    }
}

/// A string's characters, escaped.
pub open spec fn spec_escape(s: Seq<char>) -> Seq<char>
    decreases s.len(),
{
    if s.len() == 0 {
        Seq::empty()
    } else {
        spec_escape_char(s.first()) + spec_escape(s.drop_first())
    }
}

/// A JSON string: the escaped characters between quotes.
pub open spec fn spec_quote(s: Seq<char>) -> Seq<char> {
    seq!['"'] + spec_escape(s) + seq!['"']
}

fn hex_digit_char(d: u32) -> (c: char)
    requires
        d < 16,
    ensures
        c == crate::hashing::spec_hex_digit(d as int),
{
    let digits: [char; 16] = ['0', '1', '2', '3', '4', '5', '6', '7', '8', '9', 'a', 'b', 'c',
        'd', 'e', 'f'];
    digits[d as usize]
}

/// Writes a string as a quoted, escaped JSON string.
pub fn quote_string(t: &str) -> (r: String)
    ensures
        r@ == spec_quote(t@),
{
    let chars = crate::text::chars_vec(t);
    let mut r = String::new();
    push_char(&mut r, '"');
    let n: usize = chars.len();
    for i in 0..n
        invariant
            n == chars@.len(),
            chars@ == t@,
            r@ == seq!['"'] + spec_escape(t@.take(i as int)),
        decreases n - i,
    {
        let c = chars[i];
        if c == '"' {
            push_char(&mut r, '\\');
            push_char(&mut r, '"');
        } else if c == '\\' {
            push_char(&mut r, '\\');
            push_char(&mut r, '\\');
        } else if c == '\u{8}' {
            push_char(&mut r, '\\');
            push_char(&mut r, 'b');
        } else if c == '\t' {
            push_char(&mut r, '\\');
            push_char(&mut r, 't');
        } else if c == '\n' {
            push_char(&mut r, '\\');
            push_char(&mut r, 'n');
        } else if c == '\u{c}' {
            push_char(&mut r, '\\');
            push_char(&mut r, 'f');
        } else if c == '\r' {
            push_char(&mut r, '\\');
            push_char(&mut r, 'r');
        } else if (c as u32) < 0x20 {
            let u = c as u32;
            push_char(&mut r, '\\');
            push_char(&mut r, 'u');
            push_char(&mut r, '0');
            push_char(&mut r, '0');
            push_char(&mut r, hex_digit_char(u / 16));
            push_char(&mut r, hex_digit_char(u % 16));
        } else {
            push_char(&mut r, c);
        }
        proof {
            lemma_escape_take_step(t@, i as int);
        }
    }
    push_char(&mut r, '"');
    assert(t@.take(n as int) =~= t@);
    assert(r@ =~= spec_quote(t@));
    r
}

/// Escaping one more character appends its escape sequence.
proof fn lemma_escape_take_step(s: Seq<char>, i: int)
    requires
        0 <= i < s.len(),
    ensures
        spec_escape(s.take(i + 1)) == spec_escape(s.take(i)) + spec_escape_char(s[i]),
    decreases i,
{
    if i == 0 {
        assert(s.take(1).first() == s[0]);
        assert(s.take(1).drop_first() =~= s.take(0));
        assert(spec_escape(s.take(0)) == Seq::<char>::empty());
        assert(spec_escape(s.take(1)) =~= spec_escape_char(s[0]) + Seq::<char>::empty());
        assert(spec_escape(s.take(0)) + spec_escape_char(s[0]) =~= spec_escape_char(s[0])
            + Seq::<char>::empty());
    } else {
        let t = s.drop_first();
        assert(s.take(i + 1).first() == s[0]);
        assert(s.take(i + 1).drop_first() =~= t.take(i));
        assert(s.take(i).first() == s[0]);
        assert(s.take(i).drop_first() =~= t.take(i - 1));
        lemma_escape_take_step(t, i - 1);
        assert(t[i - 1] == s[i]);
        assert(spec_escape(s.take(i + 1)) == spec_escape_char(s[0]) + spec_escape(t.take(i)));
        assert(spec_escape(s.take(i)) == spec_escape_char(s[0]) + spec_escape(t.take(i - 1)));
        assert((spec_escape_char(s[0]) + spec_escape(t.take(i - 1))) + spec_escape_char(s[i])
            =~= spec_escape_char(s[0]) + (spec_escape(t.take(i - 1)) + spec_escape_char(s[i])));
    }
}

/// The hex digit characters have their values.
proof fn lemma_hex_digit_chars()
    ensures
        forall|d: int| 0 <= d < 16 ==> is_hex_digit(#[trigger] crate::hashing::spec_hex_digit(d)),
        forall|d: int| 0 <= d < 16 ==> spec_hex_val(
            #[trigger] crate::hashing::spec_hex_digit(d),
        ) == d,
{
    assert forall|d: int| 0 <= d < 16 implies is_hex_digit(
        #[trigger] crate::hashing::spec_hex_digit(d),
    ) && spec_hex_val(crate::hashing::spec_hex_digit(d)) == d by {
        if d < 10 {
            assert(crate::hashing::spec_hex_digit(d) == seq![
                '0', '1', '2', '3', '4', '5', '6', '7', '8', '9', 'a', 'b', 'c', 'd', 'e',
                'f',
            ][d]);
            if d == 0 {
                assert(crate::hashing::spec_hex_digit(0) == '0');
            } else if d == 1 {
                assert(crate::hashing::spec_hex_digit(1) == '1');
            } else if d == 2 {
                assert(crate::hashing::spec_hex_digit(2) == '2');
            } else if d == 3 {
                assert(crate::hashing::spec_hex_digit(3) == '3');
            } else if d == 4 {
                assert(crate::hashing::spec_hex_digit(4) == '4');
            } else if d == 5 {
                assert(crate::hashing::spec_hex_digit(5) == '5');
            } else if d == 6 {
                assert(crate::hashing::spec_hex_digit(6) == '6');
            } else if d == 7 {
                assert(crate::hashing::spec_hex_digit(7) == '7');
            } else if d == 8 {
                assert(crate::hashing::spec_hex_digit(8) == '8');
            } else {
                assert(crate::hashing::spec_hex_digit(9) == '9');
            }
        } else if d == 10 {
            assert(crate::hashing::spec_hex_digit(10) == 'a');
        } else if d == 11 {
            assert(crate::hashing::spec_hex_digit(11) == 'b');
        } else if d == 12 {
            assert(crate::hashing::spec_hex_digit(12) == 'c');
        } else if d == 13 {
            assert(crate::hashing::spec_hex_digit(13) == 'd');
        } else if d == 14 {
            assert(crate::hashing::spec_hex_digit(14) == 'e');
        } else {
            assert(crate::hashing::spec_hex_digit(15) == 'f');
        }
    }
}

/// Parsing an escaped string body followed by its closing quote and any
/// rest yields the original string, consuming through the quote.
pub proof fn lemma_parse_escape_round_trip(t: Seq<char>, rest: Seq<char>)
    ensures
        spec_parse_string_body(spec_escape(t) + seq!['"'] + rest) == Some(
            (t, spec_escape(t).len() as int + 1),
        ),
    decreases t.len(),
{
    broadcast use vstd::utf8::char_u32_cast;

    lemma_hex_digit_chars();
    let s = spec_escape(t) + seq!['"'] + rest;
    if t.len() == 0 {
        assert(spec_escape(t) == Seq::<char>::empty());
        assert(s =~= seq!['"'] + rest);
        assert(s.first() == '"');
        assert(t =~= Seq::<char>::empty());
    } else {
        let c = t.first();
        let e = spec_escape_char(c);
        let t2 = t.drop_first();
        lemma_parse_escape_round_trip(t2, rest);
        let tail = spec_escape(t2) + seq!['"'] + rest;
        assert(spec_escape(t) == e + spec_escape(t2));
        assert(s =~= e + tail);
        assert(forall|k: int| 0 <= k < e.len() ==> s[k] == e[k]);
        assert(s.skip(e.len() as int) =~= tail);
        assert(seq![c] + t2 =~= t);
        if c == '"' || c == '\\' || c == '\u{8}' || c == '\t' || c == '\n' || c == '\u{c}' || c
            == '\r' {
            assert(e.len() == 2);
            assert(s.first() == '\\');
            assert(s[1] != 'u');
            assert(spec_unescape(s[1]) == Some(c));
            assert(s.skip(2) =~= tail);
        } else if (c as u32) < 0x20 {
            assert(e.len() == 6);
            assert(s.first() == '\\' && s[1] == 'u');
            assert(s[2] == '0' && s[3] == '0');
            let hi = c as u32 as int / 16;
            let lo = c as u32 as int % 16;
            assert(s[4] == crate::hashing::spec_hex_digit(hi));
            assert(s[5] == crate::hashing::spec_hex_digit(lo));
            assert(is_hex_digit(s[2]) && is_hex_digit(s[3]) && is_hex_digit(s[4]) && is_hex_digit(
                s[5],
            ));
            let v = spec_hex_val(s[2]) * 4096 + spec_hex_val(s[3]) * 256 + spec_hex_val(s[4]) * 16
                + spec_hex_val(s[5]);
            assert(spec_hex_val(s[2]) == 0 && spec_hex_val(s[3]) == 0);
            assert(spec_hex_val(s[4]) == hi && spec_hex_val(s[5]) == lo);
            assert(v == c as u32);
            assert(!(0xD800 <= v && v < 0xE000));
            assert(s.skip(6) =~= tail);
            vstd::utf8::char_u32_cast(c, v as u32);
            assert((v as u32) as char == c);
            assert(seq![(v as u32) as char] + t2 =~= t);
        } else {
            assert(e.len() == 1);
            assert(s.first() == c);
            assert(s.first() != '"' && s.first() != '\\');
            assert(!((s.first() as u32) < 0x20));
            assert(s.skip(1) =~= tail);
        }
    }
}

/// Parsing a quoted string followed by any rest yields the original string.
pub proof fn lemma_parse_quote_round_trip(t: Seq<char>, rest: Seq<char>)
    ensures
        spec_parse_string(spec_quote(t) + rest) == Some((t, spec_quote(t).len() as int)),
        spec_quote(t).len() == spec_escape(t).len() + 2,
{
    let s = spec_quote(t) + rest;
    assert(s.first() == '"');
    lemma_parse_escape_round_trip(t, rest);
    assert(s.skip(1) =~= spec_escape(t) + seq!['"'] + rest);
}

} // verus!
