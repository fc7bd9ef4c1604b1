use vstd::prelude::*;

verus! {

/// ASCII whitespace: space, tab, line feed, vertical tab, form feed, carriage return.
pub open spec fn is_space(b: u8) -> bool {
    b == 32 || (9 <= b && b <= 13)
}

/// The length of the whitespace character that `s` starts with, or 0. Besides
/// ASCII whitespace these are the UTF-8 forms of U+0085, U+00A0, U+1680,
/// U+2000 to U+200A, U+2028, U+2029, U+202F, U+205F and U+3000.
pub open spec fn space_len(s: Seq<u8>) -> int {
    if s.len() >= 1 && is_space(s[0]) {
        1
    } else if s.len() >= 2 && s[0] == 0xC2 && (s[1] == 0x85 || s[1] == 0xA0) {
        2
    } else if s.len() >= 3 && s[0] == 0xE1 && s[1] == 0x9A && s[2] == 0x80 {
        3
    } else if s.len() >= 3 && s[0] == 0xE2 && s[1] == 0x80 && ((0x80 <= s[2] && s[2] <= 0x8A)
        || s[2] == 0xA8 || s[2] == 0xA9 || s[2] == 0xAF) {
        3
    } else if s.len() >= 3 && s[0] == 0xE2 && s[1] == 0x81 && s[2] == 0x9F {
        3
    } else if s.len() >= 3 && s[0] == 0xE3 && s[1] == 0x80 && s[2] == 0x80 {
        3
    } else {
        0
    }
}

/// A UTF-8 line with each whitespace character replaced by one ASCII space.
pub open spec fn unify_spaces(s: Seq<u8>) -> Seq<u8>
    decreases s.len(),
{
    if s.len() == 0 {
        Seq::empty()
    } else if space_len(s) > 0 {
        seq![32u8] + unify_spaces(s.subrange(space_len(s), s.len() as int))
    } else {
        seq![s[0]] + unify_spaces(s.drop_first())
    }
}

/// The words of a UTF-8 line, split at Unicode whitespace, in order.
pub open spec fn line_words(s: Seq<u8>) -> Seq<Seq<u8>> {
    words(unify_spaces(s))
}

pub open spec fn is_digit(b: u8) -> bool {
    48 <= b && b <= 57
}

pub open spec fn all_digits(s: Seq<u8>) -> bool {
    forall|i: int| 0 <= i < s.len() ==> is_digit(#[trigger] s[i])
}

/// The number written by a string of decimal digits.
pub open spec fn digits_value(s: Seq<u8>) -> int
    decreases s.len(),
{
    if s.len() == 0 {
        0
    } else {
        digits_value(s.drop_last()) * 10 + (s.last() - 48)
    }
}

/// The whitespace-separated words of a line, in order.
pub open spec fn words(s: Seq<u8>) -> Seq<Seq<u8>>
    decreases s.len(),
{
    if s.len() == 0 {
        Seq::empty()
    } else {
        let w = words(s.drop_last());
        let c = s.last();
        if is_space(c) {
            w
        } else if s.len() >= 2 && !is_space(s[s.len() - 2]) {
            w.update(w.len() - 1, w.last().push(c))
        } else {
            w.push(seq![c])
        }
    }
}

/// The digits of an unsigned number, after an optional leading `+`.
pub open spec fn unsigned_digits(s: Seq<u8>) -> Seq<u8> {
    if s.len() > 0 && s[0] == 43 {
        s.drop_first()
    } else {
        s
    }
}

/// The value of `s` read as an unsigned machine word, or 0 where `s` is not one:
/// empty, holding a character other than a digit, or too large.
pub open spec fn unsigned_or_zero(s: Seq<u8>) -> int {
    let d = unsigned_digits(s);
    if d.len() > 0 && all_digits(d) && digits_value(d) <= usize::MAX {
        digits_value(d)
    } else {
        0
    }
}

/// The value of `s` read as a signed 32-bit number (an optional `+` or `-`, then
/// digits), or 0 where `s` is not one.
pub open spec fn score_or_zero(s: Seq<u8>) -> int {
    if s.len() > 0 && s[0] == 45 {
        let d = s.drop_first();
        if d.len() > 0 && all_digits(d) && digits_value(d) <= 0x8000_0000 {
            -digits_value(d)
        } else {
            0
        }
    } else {
        let d = unsigned_digits(s);
        if d.len() > 0 && all_digits(d) && digits_value(d) <= i32::MAX {
            digits_value(d)
        } else {
            0
        }
    }
}

proof fn lemma_digits_value_nonneg(s: Seq<u8>)
    requires
        all_digits(s),
    ensures
        digits_value(s) >= 0,
    decreases s.len(),
{
    if s.len() > 0 {
        lemma_digits_value_nonneg(s.drop_last());
    }
}

/// Reads `s[start..]` as decimal digits: `Some` of their value where all of
/// them are digits, there is at least one, and the value is at most `limit`.
fn digits_to_value(s: &[u8], start: usize, limit: u128) -> (r: Option<u128>)
    requires
        start <= s@.len(),
        limit <= u64::MAX,
    ensures
        ({
            let d = s@.subrange(start as int, s@.len() as int);
            &&& (r is Some) == (d.len() > 0 && all_digits(d) && digits_value(d) <= limit)
            &&& r matches Some(v) ==> v == digits_value(d)
        }),
{
    if start == s.len() {
        return None;
    }
    let ghost all = s@;
    let mut v: u128 = 0;
    let mut over = false;
    let mut i = start;
    while i < s.len()
        invariant
            all == s@,
            start <= i <= s@.len(),
            limit <= u64::MAX,
            all_digits(all.subrange(start as int, i as int)),
            over ==> digits_value(all.subrange(start as int, i as int)) > limit,
            !over ==> v == digits_value(all.subrange(start as int, i as int)) && v <= limit,
        decreases s@.len() - i,
    {
        let b = s[i];
        let ghost prev = all.subrange(start as int, i as int);
        let ghost next = all.subrange(start as int, i + 1);
        assert(next.drop_last() =~= prev);
        if b < 48 || b > 57 {
            assert(!is_digit(all.subrange(start as int, s@.len() as int)[i - start]));
            return None;
        }
        proof {
            lemma_digits_value_nonneg(prev);
        }
        if !over {
            let w = v * 10 + (b - 48) as u128;
            if w > limit {
                over = true;
            } else {
                v = w;
            }
        }
        i += 1;
    }
    assert(all.subrange(start as int, s@.len() as int) =~= all.subrange(start as int, i as int));
    if over {
        None
    } else {
        Some(v)
    }
}

/// Reads a word as an unsigned machine word; 0 where it is not one.
pub fn parse_unsigned_or_zero(s: &[u8]) -> (n: usize)
    ensures
        n == unsigned_or_zero(s@),
{
    let start: usize = if s.len() > 0 && s[0] == 43 { 1 } else { 0 };
    assert(unsigned_digits(s@) =~= s@.subrange(start as int, s@.len() as int));
    match digits_to_value(s, start, usize::MAX as u128) {
        Some(v) => v as usize,
        None => 0,
    }
}

/// Reads a line as a signed 32-bit number; 0 where it is not one.
pub fn parse_score(s: &[u8]) -> (n: i32)
    ensures
        n == score_or_zero(s@),
{
    if s.len() > 0 && s[0] == 45 {
        assert(s@.drop_first() =~= s@.subrange(1, s@.len() as int));
        match digits_to_value(s, 1, 0x8000_0000) {
            Some(v) => (0 - (v as i64)) as i32,
            None => 0,
        }
    } else {
        let start: usize = if s.len() > 0 && s[0] == 43 { 1 } else { 0 };
        assert(unsigned_digits(s@) =~= s@.subrange(start as int, s@.len() as int));
        match digits_to_value(s, start, i32::MAX as u128) {
            Some(v) => v as i32,
            None => 0,
        }
    }
}

/// The number of words of a line, and its first two words.
fn first_two_words(s: &[u8]) -> (r: (usize, Vec<u8>, Vec<u8>))
    ensures
        r.0 == words(s@).len(),
        r.0 >= 1 ==> r.1@ == words(s@)[0],
        r.0 >= 2 ==> r.2@ == words(s@)[1],
{
    let ghost all = s@;
    let mut n: usize = 0;
    let mut first: Vec<u8> = Vec::new();
    let mut second: Vec<u8> = Vec::new();
    let mut i: usize = 0;
    while i < s.len()
        invariant
            all == s@,
            i <= s@.len(),
            n == words(all.subrange(0, i as int)).len(),
            n <= i,
            i > 0 && !is_space(all[i - 1]) ==> n > 0,
            n == 0 ==> first@.len() == 0,
            n <= 1 ==> second@.len() == 0,
            n >= 1 ==> first@ == words(all.subrange(0, i as int))[0],
            n >= 2 ==> second@ == words(all.subrange(0, i as int))[1],
        decreases s@.len() - i,
    {
        let b = s[i];
        let ghost prev = all.subrange(0, i as int);
        let ghost next = all.subrange(0, i + 1);
        assert(next.drop_last() =~= prev);
        assert(next.last() == b);
        let space = b == 32 || (9 <= b && b <= 13);
        if space {
        } else if i > 0 && !(s[i - 1] == 32 || (9 <= s[i - 1] && s[i - 1] <= 13)) {
            assert(next[next.len() - 2] == all[i - 1]);
            if n == 1 {
                first.push(b);
            } else if n == 2 {
                second.push(b);
            }
        } else {
            if n == 0 {
                first.push(b);
                assert(first@ =~= seq![b]);
            } else if n == 1 {
                second.push(b);
                assert(second@ =~= seq![b]);
            }
            n += 1;
        }
        i += 1;
    }
    assert(all.subrange(0, s@.len() as int) =~= all);
    (n, first, second)
}

/// The length of the whitespace character at `s[i..]`, or 0.
fn space_len_at(s: &[u8], i: usize) -> (n: usize)
    requires
        i < s@.len(),
    ensures
        n == space_len(s@.subrange(i as int, s@.len() as int)),
        n <= s@.len() - i,
{
    let ghost t = s@.subrange(i as int, s@.len() as int);
    let b = s[i];
    if b == 32 || (9 <= b && b <= 13) {
        return 1;
    }
    let rest = s.len() - i;
    if rest >= 2 && b == 0xC2 && (s[i + 1] == 0x85 || s[i + 1] == 0xA0) {
        return 2;
    }
    if rest >= 3 {
        let (c, d) = (s[i + 1], s[i + 2]);
        assert(t[1] == c && t[2] == d);
        if b == 0xE1 && c == 0x9A && d == 0x80 {
            return 3;
        }
        if b == 0xE2 && c == 0x80 && ((0x80 <= d && d <= 0x8A) || d == 0xA8 || d == 0xA9 || d
            == 0xAF) {
            return 3;
        }
        if b == 0xE2 && c == 0x81 && d == 0x9F {
            return 3;
        }
        if b == 0xE3 && c == 0x80 && d == 0x80 {
            return 3;
        }
    }
    0
}

/// The line with each whitespace character replaced by one ASCII space.
fn unify_line_spaces(s: &[u8]) -> (r: Vec<u8>)
    ensures
        r@ == unify_spaces(s@),
{
    let ghost all = s@;
    let mut out: Vec<u8> = Vec::new();
    let mut i: usize = 0;
    assert(all.subrange(0, all.len() as int) =~= all);
    while i < s.len()
        invariant
            all == s@,
            i <= all.len(),
            unify_spaces(all) == out@ + unify_spaces(all.subrange(i as int, all.len() as int)),
        decreases all.len() - i,
    {
        let ghost t = all.subrange(i as int, all.len() as int);
        let k = space_len_at(s, i);
        if k > 0 {
            assert(t.subrange(k as int, t.len() as int) =~= all.subrange(i + k, all.len() as int));
            out.push(32u8);
            assert(out@ + unify_spaces(all.subrange(i + k, all.len() as int)) =~= out@.drop_last()
                + (seq![32u8] + unify_spaces(t.subrange(k as int, t.len() as int))));
            i += k;
        } else {
            assert(t.drop_first() =~= all.subrange(i + 1, all.len() as int));
            out.push(s[i]);
            assert(out@ + unify_spaces(all.subrange(i + 1, all.len() as int)) =~= out@.drop_last()
                + (seq![t[0]] + unify_spaces(t.drop_first())));
            i += 1;
        }
    }
    assert(unify_spaces(all.subrange(i as int, all.len() as int)) =~= Seq::<u8>::empty());
    assert(out@ + Seq::<u8>::empty() =~= out@);
    out
}

/// Reads a move line, two words giving a rotation in degrees and a column: the
/// rotation state (degrees divided by 90) and the column, each word that is not
/// an unsigned number counting as 0. `None` when the line has fewer than two words.
/// Words are separated by any Unicode whitespace.
pub fn parse_move(line: &[u8]) -> (r: Option<(usize, usize)>)
    ensures
        (r is None) == (line_words(line@).len() < 2),
        r matches Some((rotation, column)) ==> rotation == unsigned_or_zero(line_words(line@)[0])
            / 90 && column == unsigned_or_zero(line_words(line@)[1]),
{
    let unified = unify_line_spaces(line);
    let (n, first, second) = first_two_words(unified.as_slice());
    if n < 2 {
        return None;
    }
    let degrees = parse_unsigned_or_zero(first.as_slice());
    let column = parse_unsigned_or_zero(second.as_slice());
    Some((degrees / 90, column))
}

} // verus!
