//! Character-level string utilities shared by the history display code and
//! the IPC protocol codec.

use vstd::prelude::*;

verus! {

/// Relies on `alloc::string::String::push`: appends exactly the given
/// character at the end of the string.
#[verifier::external_body]
pub(crate) fn push_char(s: &mut String, c: char)
    ensures
        final(s)@ == old(s)@.push(c),
{
    s.push(c);
}

/// Collects the characters of a string slice into a vector.
pub fn chars_vec(s: &str) -> (r: Vec<char>)
    ensures
        r@ == s@,
{
    let n: usize = s.unicode_len();
    let mut r: Vec<char> = Vec::new();
    for i in 0..n
        invariant
            n == s@.len(),
            r@ == s@.take(i as int),
    {
        r.push(s.get_char(i));
        assert(r@ =~= s@.take(i + 1));
    }
    assert(r@ =~= s@);
    r
}

/// The first `limit` characters of `s`, or all of `s` when it is shorter.
pub open spec fn take_limit(s: Seq<char>, limit: int) -> Seq<char> {
    if s.len() <= limit {
        s
    } else {
        s.take(limit)
    }
}

/// Truncates a string to at most `limit` characters.
pub fn truncate_chars(s: &str, limit: usize) -> (r: String)
    ensures
        r@ == take_limit(s@, limit as int),
{
    let n: usize = s.unicode_len();
    if n <= limit {
        let r = s.to_owned();
        assert(r@ =~= take_limit(s@, limit as int));
        r
    } else {
        let r = s.substring_char(0, limit).to_owned();
        assert(r@ =~= take_limit(s@, limit as int));
        r
    }
}

/// A run of `n` space characters.
pub open spec fn spec_spaces(n: int) -> Seq<char> {
    Seq::new(n as nat, |i: int| ' ')
}

/// Builds a string of `n` spaces.
pub fn spaces(n: usize) -> (r: String)
    ensures
        r@ == spec_spaces(n as int),
{
    let mut r = String::new();
    for i in 0..n
        invariant
            r@ =~= spec_spaces(i as int),
    {
        push_char(&mut r, ' ');
        assert(r@ =~= spec_spaces(i + 1));
    }
    r
}

/// The decimal digits, indexed by value.
pub open spec fn spec_digit(d: int) -> char {
    seq!['0', '1', '2', '3', '4', '5', '6', '7', '8', '9'][d]
}

/// The usual decimal rendering of `n`, with no leading zeros.
pub open spec fn spec_dec(n: int) -> Seq<char>
    decreases n,
{
    if n < 10 {
        seq![spec_digit(n)]
    } else {
        spec_dec(n / 10).push(spec_digit(n % 10))
    }
}

fn digit_char(d: u64) -> (c: char)
    requires
        d < 10,
    ensures
        c == spec_digit(d as int),
{
    let digits: [char; 10] = ['0', '1', '2', '3', '4', '5', '6', '7', '8', '9'];
    digits[d as usize]
}

/// Renders an integer in decimal.
pub fn u64_to_dec(n: u64) -> (r: String)
    ensures
        r@ == spec_dec(n as int),
    decreases n,
{
    if n < 10 {
        let mut r = String::new();
        push_char(&mut r, digit_char(n));
        assert(r@ =~= spec_dec(n as int));
        r
    } else {
        let mut r = u64_to_dec(n / 10);
        push_char(&mut r, digit_char(n % 10));
        assert(r@ =~= spec_dec(n as int));
        r
    }
}

/// A two-digit, zero-padded decimal rendering, as used in timestamps.
pub open spec fn spec_two_digits(n: int) -> Seq<char> {
    seq![spec_digit(n / 10), spec_digit(n % 10)]
}

/// Renders a value below 100 as exactly two digits.
pub fn two_digits(n: u8) -> (r: String)
    requires
        n < 100,
    ensures
        r@ == spec_two_digits(n as int),
{
    let mut r = String::new();
    push_char(&mut r, digit_char((n / 10) as u64));
    push_char(&mut r, digit_char((n % 10) as u64));
    assert(r@ =~= spec_two_digits(n as int));
    r
}

/// The given strings joined by a newline between neighbours.
pub open spec fn spec_join_nl(parts: Seq<Seq<char>>) -> Seq<char>
    decreases parts.len(),
{
    if parts.len() == 0 {
        Seq::empty()
    } else if parts.len() == 1 {
        parts[0]
    } else {
        parts[0].push('\n') + spec_join_nl(parts.drop_first())
    }
}

/// Joins strings with a newline between neighbours.
pub fn join_nl(parts: &Vec<String>) -> (r: String)
    ensures
        r@ == spec_join_nl(parts.deep_view()),
{
    let mut r = String::new();
    let n: usize = parts.len();
    assert(parts.deep_view().skip(0) =~= parts.deep_view());
    for i in 0..n
        invariant
            n == parts@.len(),
            parts.deep_view().len() == n,
            spec_join_nl(parts.deep_view()) =~= r@ + spec_join_nl(
                parts.deep_view().skip(i as int),
            ),
    {
        r.append(parts[i].as_str());
        if i + 1 < n {
            push_char(&mut r, '\n');
        }
        proof {
            let rest = parts.deep_view().skip(i as int);
            assert(rest[0] == parts.deep_view()[i as int]);
            assert(rest.drop_first() =~= parts.deep_view().skip(i + 1));
            if i + 1 == n {
                assert(rest.len() == 1);
            }
        }
    }
    assert(parts.deep_view().skip(n as int) =~= Seq::<Seq<char>>::empty());
    r
}

/// The display width of one character in a fixed-width table: characters
/// in U+0080..=U+9FFF (the CJK range and everything before it past ASCII)
/// take two cells, all others one.
pub open spec fn spec_char_width(c: char) -> int {
    if 0x80 <= c as u32 <= 0x9FFF {
        2
    } else {
        1
    }
}

/// The display width of a string: the sum of its characters' widths.
pub open spec fn spec_col_width(s: Seq<char>) -> int
    decreases s.len(),
{
    if s.len() == 0 {
        0
    } else {
        spec_char_width(s.first()) + spec_col_width(s.drop_first())
    }
}

/// The display width of a prefix plus that of the rest is the whole.
pub proof fn lemma_col_width_split(s: Seq<char>, i: int)
    requires
        0 <= i <= s.len(),
    ensures
        spec_col_width(s) == spec_col_width(s.take(i)) + spec_col_width(s.skip(i)),
    decreases i,
{
    if i == 0 {
        assert(s.take(0) =~= Seq::<char>::empty());
        assert(s.skip(0) =~= s);
    } else {
        lemma_col_width_split(s.drop_first(), i - 1);
        assert(s.take(i).first() == s.first());
        assert(s.take(i).drop_first() =~= s.drop_first().take(i - 1));
        assert(s.skip(i) =~= s.drop_first().skip(i - 1));
    }
}

/// A string's display width never exceeds its UTF-8 byte length: every
/// two-cell character is past ASCII and so encodes in at least two bytes.
pub proof fn lemma_col_width_le_bytes(s: Seq<char>)
    ensures
        s.len() <= spec_col_width(s) <= vstd::utf8::encode_utf8(s).len(),
    decreases s.len(),
{
    if s.len() > 0 {
        lemma_col_width_le_bytes(s.drop_first());
        let c = s.first();
        if spec_char_width(c) == 2 {
            assert(!vstd::utf8::has_width_1_encoding(c as u32));
            assert(vstd::utf8::encode_scalar(c as u32).len() >= 2);
        } else {
            assert(vstd::utf8::encode_scalar(c as u32).len() >= 1);
        }
    }
}

/// A table column of `width` display cells: text whose display width
/// overflows the column is cut to its first `width - 1` characters and
/// marked with an ellipsis; shorter text is padded with spaces up to the
/// width.
pub open spec fn spec_table_column(s: Seq<char>, width: int) -> Seq<char> {
    if spec_col_width(s) > width {
        take_limit(s, width - 1).push('\u{2026}')
    } else {
        s + spec_spaces(width - spec_col_width(s))
    }
}

/// Measures a string's display width.
pub fn col_width(s: &str) -> (r: usize)
    ensures
        r == spec_col_width(s@),
{
    let chars = chars_vec(s);
    let byte_len: usize = s.as_bytes().len();
    proof {
        lemma_col_width_le_bytes(s@);
        assert(spec_col_width(s@) <= byte_len);
    }
    let n: usize = chars.len();
    let mut w: usize = 0;
    for i in 0..n
        invariant
            n == s@.len(),
            chars@ == s@,
            byte_len == vstd::utf8::encode_utf8(s@).len(),
            spec_col_width(s@) <= byte_len,
            w == spec_col_width(s@.take(i as int)),
    {
        proof {
            lemma_col_width_split(s@, i + 1);
            lemma_col_width_le_bytes(s@.skip(i + 1));
            lemma_col_width_last(s@.take(i + 1));
            assert(s@.take(i + 1).drop_last() =~= s@.take(i as int));
            assert(s@.take(i + 1).last() == s@[i as int]);
        }
        let cu = chars[i] as u32;
        if 0x80 <= cu && cu <= 0x9FFF {
            w = w + 2;
        } else {
            w = w + 1;
        }
        assert(w == spec_col_width(s@.take(i + 1)));
    }
    assert(s@.take(n as int) =~= s@);
    w
}

/// Splitting off the last character splits off its width.
proof fn lemma_col_width_last(s: Seq<char>)
    requires
        s.len() > 0,
    ensures
        spec_col_width(s) == spec_col_width(s.drop_last()) + spec_char_width(s.last()),
    decreases s.len(),
{
    if s.len() == 1 {
        assert(s.drop_last() =~= Seq::<char>::empty());
        assert(s.drop_first() =~= Seq::<char>::empty());
    } else {
        lemma_col_width_last(s.drop_first());
        assert(s.drop_last().first() == s.first());
        assert(s.drop_last().drop_first() =~= s.drop_first().drop_last());
        assert(s.drop_first().last() == s.last());
    }
}

/// Formats one column of a fixed-width table.
pub fn make_table_column(col_text: String, max_length: usize) -> (r: String)
    requires
        max_length >= 1,
    ensures
        r@ == spec_table_column(col_text@, max_length as int),
{
    let w: usize = col_width(col_text.as_str());
    if w > max_length {
        let mut r = truncate_chars(col_text.as_str(), max_length - 1);
        push_char(&mut r, '\u{2026}');
        r
    } else {
        let ghost orig = col_text@;
        let pad = spaces(max_length - w);
        let mut r = col_text;
        r.append(pad.as_str());
        assert(r@ =~= spec_table_column(orig, max_length as int));
        r
    }
}

} // verus!
