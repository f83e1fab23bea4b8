//! Parsers for the numeric attribute values of presentational markup.
use vstd::prelude::*;

use crate::format::Color;

verus! {

pub open spec fn is_digit(c: char) -> bool {
    '0' <= c && c <= '9'
}

/// The ASCII whitespace characters that trimming removes.
pub open spec fn is_space(c: char) -> bool {
    c == ' ' || c == '\t' || c == '\n' || c == '\r' || c == '\x0C'
}

pub open spec fn all_digits(s: Seq<char>) -> bool {
    forall|i: int| 0 <= i < s.len() ==> is_digit(#[trigger] s[i])
}

/// The value of a sequence of decimal digits.
pub open spec fn digits_value(s: Seq<char>) -> nat
    decreases s.len(),
{
    if s.len() == 0 {
        0
    } else {
        digits_value(s.drop_last()) * 10 + ((s.last() as int - '0' as int) as nat)
    }
}

/// The integer that `s` spells: decimal digits with an optional leading
/// sign, of magnitude at most `i64::MAX`.
pub open spec fn int_value(s: Seq<char>) -> Option<i64> {
    let signed = s.len() > 0 && (s[0] == '-' || s[0] == '+');
    let body = if signed {
        s.skip(1)
    } else {
        s
    };
    if body.len() > 0 && all_digits(body) && digits_value(body) <= i64::MAX {
        if signed && s[0] == '-' {
            Some((-digits_value(body)) as i64)
        } else {
            Some(digits_value(body) as i64)
        }
    } else {
        None
    }
}

/// The value of a hexadecimal digit.
pub open spec fn hex_value(c: char) -> Option<u8> {
    if '0' <= c && c <= '9' {
        Some((c as int - '0' as int) as u8)
    } else if 'a' <= c && c <= 'f' {
        Some((c as int - 'a' as int + 10) as u8)
    } else if 'A' <= c && c <= 'F' {
        Some((c as int - 'A' as int + 10) as u8)
    } else {
        None
    }
}

/// The byte that the two hexadecimal digits at `i` and `i + 1` spell.
pub open spec fn hex_byte(s: Seq<char>, i: int) -> Option<u8> {
    match (hex_value(s[i]), hex_value(s[i + 1])) {
        (Some(h), Some(l)) => Some((h * 16 + l) as u8),
        _ => None,
    }
}

/// The opaque colour that `#RRGGBB` spells; characters after the seventh
/// are ignored.
pub open spec fn color_value(s: Seq<char>) -> Option<Color> {
    if s.len() >= 7 && s[0] == '#' {
        match (hex_byte(s, 1), hex_byte(s, 3), hex_byte(s, 5)) {
            (Some(r), Some(g), Some(b)) => Some(Color { r, g, b, a: 255 }),
            _ => None,
        }
    } else {
        None
    }
}

/// `s` without leading whitespace.
pub open spec fn trim_start(s: Seq<char>) -> Seq<char>
    decreases s.len(),
{
    if s.len() > 0 && is_space(s[0]) {
        trim_start(s.skip(1))
    } else {
        s
    }
}

/// `s` without trailing whitespace.
pub open spec fn trim_end(s: Seq<char>) -> Seq<char>
    decreases s.len(),
{
    if s.len() > 0 && is_space(s.last()) {
        trim_end(s.drop_last())
    } else {
        s
    }
}

/// `s` without leading or trailing whitespace.
pub open spec fn trim(s: Seq<char>) -> Seq<char> {
    trim_end(trim_start(s))
}

/// The pieces of `s` between commas.
pub open spec fn comma_pieces(s: Seq<char>) -> Seq<Seq<char>>
    decreases s.len(),
{
    if s.len() == 0 {
        seq![Seq::empty()]
    } else {
        let p = comma_pieces(s.drop_last());
        if s.last() == ',' {
            p.push(Seq::empty())
        } else {
            p.update(p.len() - 1, p.last().push(s.last()))
        }
    }
}

/// The numbers among the trimmed pieces, in order; other pieces are dropped.
pub open spec fn numbers_of(pieces: Seq<Seq<char>>) -> Seq<i64>
    decreases pieces.len(),
{
    if pieces.len() == 0 {
        Seq::empty()
    } else {
        let rest = numbers_of(pieces.drop_last());
        match int_value(trim(pieces.last())) {
            Some(v) => rest.push(v),
            None => rest,
        }
    }
}

/// The tab stops that a comma-separated list spells.
pub open spec fn tab_stops_value(s: Seq<char>) -> Seq<i64> {
    numbers_of(comma_pieces(s))
}

proof fn lemma_comma_pieces_nonempty(s: Seq<char>)
    ensures
        comma_pieces(s).len() > 0,
    decreases s.len(),
{
    if s.len() > 0 {
        lemma_comma_pieces_nonempty(s.drop_last());
    }
}

proof fn lemma_digits_grow(s: Seq<char>, i: int)
    requires
        0 <= i <= s.len(),
    ensures
        digits_value(s.take(i)) <= digits_value(s),
    decreases s.len() - i,
{
    if i < s.len() {
        lemma_digits_grow(s, i + 1);
        assert(s.take(i + 1).drop_last() =~= s.take(i));
    } else {
        assert(s.take(i) =~= s);
    }
}

/// The characters of `s`.
pub fn chars_of(s: &str) -> (r: Vec<char>)
    ensures
        r@ == s@,
{
    let n = s.unicode_len();
    let mut r: Vec<char> = Vec::new();
    let mut i: usize = 0;
    while i < n
        invariant
            n == s@.len(),
            i <= n,
            r@ == s@.take(i as int),
        decreases n - i,
    {
        r.push(s.get_char(i));
        i = i + 1;
        assert(r@ =~= s@.take(i as int));
    }
    assert(r@ =~= s@);
    r
}

/// Whether two character sequences are equal.
pub fn same_chars(a: &[char], b: &[char]) -> (r: bool)
    ensures
        r == (a@ == b@),
{
    if a.len() != b.len() {
        return false;
    }
    let mut i: usize = 0;
    while i < a.len()
        invariant
            a@.len() == b@.len(),
            i <= a@.len(),
            forall|j: int| 0 <= j < i ==> a@[j] == b@[j],
        decreases a@.len() - i,
    {
        if a[i] != b[i] {
            return false;
        }
        i = i + 1;
    }
    assert(a@ =~= b@);
    true
}

/// Parses a decimal integer with an optional sign.
pub fn parse_int(s: &[char]) -> (r: Option<i64>)
    ensures
        r == int_value(s@),
{
    let n = s.len();
    let signed = n > 0 && (s[0] == '-' || s[0] == '+');
    let first: usize = if signed {
        1
    } else {
        0
    };
    let ghost body = if signed {
        s@.skip(1)
    } else {
        s@
    };
    assert(body =~= s@.subrange(first as int, n as int));
    assert(signed == (s@.len() > 0 && (s@[0] == '-' || s@[0] == '+')));
    if first == n {
        return None;
    }
    let mut acc: u64 = 0;
    let mut i: usize = first;
    while i < n
        invariant
            first <= i <= n,
            n == s@.len(),
            body == s@.subrange(first as int, n as int),
            body == (if s@.len() > 0 && (s@[0] == '-' || s@[0] == '+') {
                s@.skip(1)
            } else {
                s@
            }),
            all_digits(body.take(i - first)),
            acc as nat == digits_value(body.take(i - first)),
            acc <= i64::MAX,
        decreases n - i,
    {
        let c = s[i];
        let ghost k = i - first;
        proof {
            assert(body.take(k + 1).drop_last() =~= body.take(k));
        }
        if !('0' <= c && c <= '9') {
            proof {
                assert(body[k] == c);
                assert(!is_digit(body[k]));
                assert(!all_digits(body));
                assert(int_value(s@) is None);
            }
            return None;
        }
        let d: u64 = (c as u32 - '0' as u32) as u64;
        if acc > (9223372036854775807u64 - d) / 10 {
            proof {
                assert(body[k] == c);
                assert(body.take(k + 1).last() == c);
                assert(digits_value(body.take(k + 1)) == acc * 10 + d);
                assert(acc * 10 + d > 9223372036854775807u64) by (nonlinear_arith)
                    requires
                        acc > (9223372036854775807u64 - d) / 10,
                        d <= 9,
                ;
                lemma_digits_grow(body, k + 1);
                assert(int_value(s@) is None);
            }
            return None;
        }
        proof {
            assert(body[k] == c);
            assert(body.take(k + 1).last() == c);
            assert(acc * 10 + d <= 9223372036854775807u64) by (nonlinear_arith)
                requires
                    acc <= (9223372036854775807u64 - d) / 10,
                    d <= 9,
            ;
        }
        acc = acc * 10 + d;
        i = i + 1;
        proof {
            assert forall|j: int| 0 <= j < i - first implies is_digit(
                #[trigger] body.take(i - first)[j],
            ) by {
                if j < k {
                    assert(body.take(i - first)[j] == body.take(k)[j]);
                }
            }
        }
    }
    proof {
        assert(body.take(n - first) =~= body);
    }
    if signed && s[0] == '-' {
        Some(-(acc as i64))
    } else {
        Some(acc as i64)
    }
}

fn hex_digit(c: char) -> (r: Option<u8>)
    ensures
        r == hex_value(c),
{
    if '0' <= c && c <= '9' {
        Some((c as u32 - '0' as u32) as u8)
    } else if 'a' <= c && c <= 'f' {
        Some((c as u32 - 'a' as u32 + 10) as u8)
    } else if 'A' <= c && c <= 'F' {
        Some((c as u32 - 'A' as u32 + 10) as u8)
    } else {
        None
    }
}

fn parse_hex_byte(s: &[char], i: usize) -> (r: Option<u8>)
    requires
        i + 1 < s@.len(),
    ensures
        r == hex_byte(s@, i as int),
{
    match (hex_digit(s[i]), hex_digit(s[i + 1])) {
        (Some(h), Some(l)) => Some(h * 16 + l),
        _ => None,
    }
}

/// Parses an opaque colour written `#RRGGBB`.
pub fn parse_color(s: &[char]) -> (r: Option<Color>)
    ensures
        r == color_value(s@),
{
    if s.len() >= 7 && s[0] == '#' {
        match (parse_hex_byte(s, 1), parse_hex_byte(s, 3), parse_hex_byte(s, 5)) {
            (Some(r), Some(g), Some(b)) => Some(Color { r, g, b, a: 255 }),
            _ => None,
        }
    } else {
        None
    }
}

fn is_space_char(c: char) -> (r: bool)
    ensures
        r == is_space(c),
{
    c == ' ' || c == '\t' || c == '\n' || c == '\r' || c == '\x0C'
}

/// `s` without leading or trailing whitespace.
pub fn trim_chars(s: &[char]) -> (r: Vec<char>)
    ensures
        r@ == trim(s@),
{
    let n = s.len();
    let mut lo: usize = 0;
    assert(s@.skip(0) =~= s@);
    while lo < n && is_space_char(s[lo])
        invariant
            lo <= n,
            n == s@.len(),
            trim_start(s@) == trim_start(s@.skip(lo as int)),
        decreases n - lo,
    {
        assert(s@.skip(lo as int).skip(1) =~= s@.skip(lo + 1));
        lo = lo + 1;
    }
    let ghost t = s@.skip(lo as int);
    assert(trim_start(s@) == t);
    let mut hi: usize = n;
    assert(t.take((hi - lo) as int) =~= t);
    while hi > lo && is_space_char(s[hi - 1])
        invariant
            lo <= hi <= n,
            n == s@.len(),
            t == s@.skip(lo as int),
            trim_end(t) == trim_end(t.take(hi - lo)),
        decreases hi,
    {
        assert(t.take(hi - lo).drop_last() =~= t.take(hi - 1 - lo));
        assert(t.take(hi - lo).last() == s@[hi - 1]);
        hi = hi - 1;
    }
    assert(trim_end(t.take(hi - lo)) == t.take(hi - lo));
    let mut r: Vec<char> = Vec::new();
    let mut i: usize = lo;
    while i < hi
        invariant
            lo <= i <= hi,
            hi <= n,
            n == s@.len(),
            r@ == s@.subrange(lo as int, i as int),
        decreases hi - i,
    {
        r.push(s[i]);
        i = i + 1;
        assert(r@ =~= s@.subrange(lo as int, i as int));
    }
    assert(r@ =~= t.take(hi - lo));
    r
}

/// Parses a comma-separated list of numbers; pieces that are not numbers
/// once trimmed are dropped.
pub fn parse_tab_stops(s: &[char]) -> (r: Vec<i64>)
    ensures
        r@ == tab_stops_value(s@),
{
    let n = s.len();
    let mut stops: Vec<i64> = Vec::new();
    let mut current: Vec<char> = Vec::new();
    let ghost mut done: Seq<Seq<char>> = Seq::empty();
    let mut i: usize = 0;
    assert(s@.take(0) =~= Seq::<char>::empty());
    while i < n
        invariant
            i <= n,
            n == s@.len(),
            comma_pieces(s@.take(i as int)) == done.push(current@),
            numbers_of(done) == stops@,
        decreases n - i,
    {
        let c = s[i];
        assert(s@.take(i + 1).drop_last() =~= s@.take(i as int));
        assert(s@.take(i + 1).last() == c);
        if c == ',' {
            let piece = trim_chars(current.as_slice());
            let value = parse_int(piece.as_slice());
            proof {
                assert(done.push(current@).drop_last() =~= done);
            }
            if let Some(v) = value {
                stops.push(v);
            }
            proof {
                done = done.push(current@);
            }
            current = Vec::new();
            assert(comma_pieces(s@.take(i + 1)) =~= done.push(current@));
        } else {
            current.push(c);
            assert(comma_pieces(s@.take(i + 1)) =~= done.push(current@));
        }
        i = i + 1;
    }
    assert(s@.take(n as int) =~= s@);
    let piece = trim_chars(current.as_slice());
    let value = parse_int(piece.as_slice());
    proof {
        assert(done.push(current@).drop_last() =~= done);
    }
    if let Some(v) = value {
        stops.push(v);
    }
    stops
}

} // verus!
