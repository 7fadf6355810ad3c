//! Trimming, splitting and integer parsing over character sequences, stated
//! as std documents `str::trim`, `str::trim_start_matches`,
//! `str::trim_end_matches`, `str::split` and `from_str_radix` for unsigned types.
use vstd::prelude::*;

verus! {

/// Unicode `White_Space`, as `char::is_whitespace` documents it.
pub open spec fn is_unicode_whitespace(c: char) -> bool {
    let u = c as u32;
    (0x9 <= u <= 0xd) || u == 0x20 || u == 0x85 || u == 0xa0 || u == 0x1680 || (0x2000 <= u <= 0x200a)
        || u == 0x2028 || u == 0x2029 || u == 0x202f || u == 0x205f || u == 0x3000
}

/// `s` without its leading characters equal to `c`.
pub open spec fn trim_start_char(s: Seq<char>, c: char) -> Seq<char>
    decreases s.len(),
{
    if s.len() > 0 && s[0] == c { trim_start_char(s.drop_first(), c) } else { s }
}

/// `s` without its trailing characters equal to `c`.
pub open spec fn trim_end_char(s: Seq<char>, c: char) -> Seq<char>
    decreases s.len(),
{
    if s.len() > 0 && s.last() == c { trim_end_char(s.drop_last(), c) } else { s }
}

/// `s` without its leading repetitions of the non-empty pattern `pat`.
pub open spec fn trim_start_pattern(s: Seq<char>, pat: Seq<char>) -> Seq<char>
    decreases s.len(),
{
    if pat.len() > 0 && pat.len() <= s.len() && s.take(pat.len() as int) == pat {
        trim_start_pattern(s.skip(pat.len() as int), pat)
    } else {
        s
    }
}

/// `s` without leading white space.
pub open spec fn trim_start_ws(s: Seq<char>) -> Seq<char>
    decreases s.len(),
{
    if s.len() > 0 && is_unicode_whitespace(s[0]) { trim_start_ws(s.drop_first()) } else { s }
}

/// `s` without trailing white space.
pub open spec fn trim_end_ws(s: Seq<char>) -> Seq<char>
    decreases s.len(),
{
    if s.len() > 0 && is_unicode_whitespace(s.last()) { trim_end_ws(s.drop_last()) } else { s }
}

/// `s` without leading and trailing white space (`str::trim`).
pub open spec fn trim_ws(s: Seq<char>) -> Seq<char> {
    trim_end_ws(trim_start_ws(s))
}

/// The pieces of `s` between occurrences of `sep` (`str::split` with a char
/// pattern): `n` separators give `n + 1` pieces, empty ones included.
pub open spec fn split_on(s: Seq<char>, sep: char) -> Seq<Seq<char>>
    decreases s.len(),
{
    if s.len() == 0 {
        seq![Seq::<char>::empty()]
    } else {
        let rest = split_on(s.drop_last(), sep);
        if s.last() == sep {
            rest.push(Seq::<char>::empty())
        } else {
            rest.update(rest.len() - 1, rest.last().push(s.last()))
        }
    }
}

/// Value of an ASCII digit in the given base (10 or 16), if it is one.
pub open spec fn digit_value(c: char, base: nat) -> Option<nat> {
    if '0' <= c <= '9' && (c as nat) - ('0' as nat) < base {
        Some(((c as nat) - ('0' as nat)) as nat)
    } else if base == 16 && 'a' <= c <= 'f' {
        Some(((c as nat) - ('a' as nat) + 10) as nat)
    } else if base == 16 && 'A' <= c <= 'F' {
        Some(((c as nat) - ('A' as nat) + 10) as nat)
    } else {
        None
    }
}

/// All characters of `s` are digits in `base`.
pub open spec fn all_digits(s: Seq<char>, base: nat) -> bool {
    forall|i: int| 0 <= i < s.len() ==> #[trigger] digit_value(s[i], base) is Some
}

/// Numeric value of a string of digits, most significant first.
pub open spec fn digits_value(s: Seq<char>, base: nat) -> nat
    decreases s.len(),
{
    if s.len() == 0 {
        0
    } else {
        digits_value(s.drop_last(), base) * base + match digit_value(s.last(), base) { Some(d) => d, None => 0nat }
    }
}

/// What `from_str_radix` returns for an unsigned type whose largest value is
/// `max`: an optional `+`, then at least one digit and nothing else, and a value
/// that fits.
pub open spec fn parse_unsigned(s: Seq<char>, base: nat, max: nat) -> Option<nat> {
    let digits = if s.len() > 0 && s[0] == '+' { s.drop_first() } else { s };
    if digits.len() > 0 && all_digits(digits, base) && digits_value(digits, base) <= max {
        Some(digits_value(digits, base))
    } else {
        None
    }
}

/// `s.parse::<u32>()`
pub open spec fn parse_u32(s: Seq<char>) -> Option<u32> {
    match parse_unsigned(s, 10, u32::MAX as nat) { Some(v) => Some(v as u32), None => None }
}

/// `s.parse::<u8>()`
pub open spec fn parse_u8(s: Seq<char>) -> Option<u8> {
    match parse_unsigned(s, 10, u8::MAX as nat) { Some(v) => Some(v as u8), None => None }
}

/// `u8::from_str_radix(s, 16)`
pub open spec fn parse_hex_u8(s: Seq<char>) -> Option<u8> {
    match parse_unsigned(s, 16, u8::MAX as nat) { Some(v) => Some(v as u8), None => None }
}

/// `u32::from_str_radix(s, 16)`
pub open spec fn parse_hex_u32(s: Seq<char>) -> Option<u32> {
    match parse_unsigned(s, 16, u32::MAX as nat) { Some(v) => Some(v as u32), None => None }
}

/// Whether `c` is an ASCII letter.
pub open spec fn is_ascii_alpha(c: char) -> bool {
    ('a' <= c <= 'z') || ('A' <= c <= 'Z')
}

/// Whether `c` is an ASCII decimal digit.
pub open spec fn is_ascii_digit(c: char) -> bool {
    '0' <= c <= '9'
}

pub fn char_is_whitespace(c: char) -> (b: bool)
    ensures
        b == is_unicode_whitespace(c),
{
    let u = c as u32;
    (0x9 <= u && u <= 0xd) || u == 0x20 || u == 0x85 || u == 0xa0 || u == 0x1680 || (0x2000 <= u && u <= 0x200a)
        || u == 0x2028 || u == 0x2029 || u == 0x202f || u == 0x205f || u == 0x3000
}

fn digit_of(c: char, base: u32) -> (r: Option<u32>)
    requires
        base == 10 || base == 16,
    ensures
        match digit_value(c, base as nat) {
            Some(d) => r == Some(d as u32) && d < base,
            None => r is None,
        },
{
    if '0' <= c && c <= '9' && (c as u32) - ('0' as u32) < base {
        Some((c as u32) - ('0' as u32))
    } else if base == 16 && 'a' <= c && c <= 'f' {
        Some((c as u32) - ('a' as u32) + 10)
    } else if base == 16 && 'A' <= c && c <= 'F' {
        Some((c as u32) - ('A' as u32) + 10)
    } else {
        None
    }
}

proof fn lemma_digits_value_monotone(s: Seq<char>, base: nat, k: int)
    requires
        0 <= k <= s.len(),
        base >= 1,
    ensures
        digits_value(s.take(k), base) <= digits_value(s, base),
    decreases s.len() - k,
{
    if k < s.len() {
        lemma_digits_value_monotone(s, base, k + 1);
        assert(s.take(k + 1).drop_last() =~= s.take(k));
        let v = digits_value(s.take(k), base);
        assert(v <= v * base) by (nonlinear_arith) requires base >= 1, v >= 0;
    } else {
        assert(s.take(k) =~= s);
    }
}

/// Parse `v[lo..hi]` as `from_str_radix` does for an unsigned type bounded by `max`.
pub fn parse_unsigned_range(v: &Vec<char>, lo: usize, hi: usize, base: u32, max: u32) -> (r: Option<u32>)
    requires
        lo <= hi <= v@.len(),
        base == 10 || base == 16,
    ensures
        r == match parse_unsigned(v@.subrange(lo as int, hi as int), base as nat, max as nat) {
            Some(n) => Some(n as u32),
            None => None::<u32>,
        },
{
    let ghost s = v@.subrange(lo as int, hi as int);
    let mut start = lo;
    if lo < hi && v[lo] == '+' {
        start = lo + 1;
    }
    let ghost digits = v@.subrange(start as int, hi as int);
    assert(digits == if s.len() > 0 && s[0] == '+' { s.drop_first() } else { s });
    if start == hi {
        return None;
    }
    let mut acc: u32 = 0;
    let mut i = start;
    while i < hi
        invariant
            start <= i <= hi <= v@.len(),
            start < hi,
            base == 10 || base == 16,
            digits == v@.subrange(start as int, hi as int),
            s == v@.subrange(lo as int, hi as int),
            digits == if s.len() > 0 && s[0] == '+' { s.drop_first() } else { s },
            all_digits(v@.subrange(start as int, i as int), base as nat),
            acc == digits_value(v@.subrange(start as int, i as int), base as nat),
            acc <= max,
        decreases hi - i,
    {
        let ghost pre = v@.subrange(start as int, i as int);
        let ghost next = v@.subrange(start as int, i + 1);
        assert(next.drop_last() =~= pre);
        assert(next.last() == v@[i as int]);
        match digit_of(v[i], base) {
            None => {
                assert(digits[i - start] == v@[i as int]);
                assert(digit_value(digits[i - start], base as nat) is None);
                return None;
            },
            Some(d) => {
                if d > max || acc > (max - d) / base {
                    proof {
                        let (a, b, dd, m) = (acc as int, base as int, d as int, max as int);
                        if dd <= m {
                            let q = (m - dd) / b;
                            assert(a * b + dd > m) by (nonlinear_arith)
                                requires a > q, q == (m - dd) / b, b >= 1, dd <= m;
                        }
                        assert(digits.take(i - start + 1) =~= next);
                        assert(digits_value(next, base as nat) == acc * base + d);
                        lemma_digits_value_monotone(digits, base as nat, i - start + 1);
                    }
                    return None;
                }
                proof {
                    let (a, b, dd, m) = (acc as int, base as int, d as int, max as int);
                    let q = (m - dd) / b;
                    assert(a * b + dd <= m) by (nonlinear_arith)
                        requires a <= q, q == (m - dd) / b, b >= 1, dd <= m;
                    assert forall|k: int| 0 <= k < next.len() implies #[trigger] digit_value(next[k], base as nat) is Some by {
                        if k < pre.len() {
                            assert(next[k] == pre[k]);
                        }
                    }
                }
                acc = acc * base + d;
                i = i + 1;
            },
        }
    }
    assert(v@.subrange(start as int, hi as int) =~= digits);
    Some(acc)
}

} // verus!

verus! {

/// Index where `v[lo..hi]` starts once leading `c` characters are removed.
pub fn trim_start_char_range(v: &Vec<char>, lo: usize, hi: usize, c: char) -> (r: usize)
    requires
        lo <= hi <= v@.len(),
    ensures
        lo <= r <= hi,
        v@.subrange(r as int, hi as int) == trim_start_char(v@.subrange(lo as int, hi as int), c),
{
    let mut i = lo;
    while i < hi && v[i] == c
        invariant
            lo <= i <= hi <= v@.len(),
            trim_start_char(v@.subrange(i as int, hi as int), c) == trim_start_char(v@.subrange(lo as int, hi as int), c),
        decreases hi - i,
    {
        assert(v@.subrange(i as int, hi as int).drop_first() =~= v@.subrange(i + 1, hi as int));
        i = i + 1;
    }
    i
}

/// Index where `v[lo..hi]` ends once trailing `c` characters are removed.
pub fn trim_end_char_range(v: &Vec<char>, lo: usize, hi: usize, c: char) -> (r: usize)
    requires
        lo <= hi <= v@.len(),
    ensures
        lo <= r <= hi,
        v@.subrange(lo as int, r as int) == trim_end_char(v@.subrange(lo as int, hi as int), c),
{
    let mut j = hi;
    while j > lo && v[j - 1] == c
        invariant
            lo <= j <= hi <= v@.len(),
            trim_end_char(v@.subrange(lo as int, j as int), c) == trim_end_char(v@.subrange(lo as int, hi as int), c),
        decreases j - lo,
    {
        assert(v@.subrange(lo as int, j as int).drop_last() =~= v@.subrange(lo as int, j - 1));
        j = j - 1;
    }
    j
}

/// Index where `v[lo..hi]` starts once leading white space is removed.
pub fn trim_start_ws_range(v: &Vec<char>, lo: usize, hi: usize) -> (r: usize)
    requires
        lo <= hi <= v@.len(),
    ensures
        lo <= r <= hi,
        v@.subrange(r as int, hi as int) == trim_start_ws(v@.subrange(lo as int, hi as int)),
{
    let mut i = lo;
    while i < hi && char_is_whitespace(v[i])
        invariant
            lo <= i <= hi <= v@.len(),
            trim_start_ws(v@.subrange(i as int, hi as int)) == trim_start_ws(v@.subrange(lo as int, hi as int)),
        decreases hi - i,
    {
        assert(v@.subrange(i as int, hi as int).drop_first() =~= v@.subrange(i + 1, hi as int));
        i = i + 1;
    }
    i
}

/// Index where `v[lo..hi]` ends once trailing white space is removed.
pub fn trim_end_ws_range(v: &Vec<char>, lo: usize, hi: usize) -> (r: usize)
    requires
        lo <= hi <= v@.len(),
    ensures
        lo <= r <= hi,
        v@.subrange(lo as int, r as int) == trim_end_ws(v@.subrange(lo as int, hi as int)),
{
    let mut j = hi;
    while j > lo && char_is_whitespace(v[j - 1])
        invariant
            lo <= j <= hi <= v@.len(),
            trim_end_ws(v@.subrange(lo as int, j as int)) == trim_end_ws(v@.subrange(lo as int, hi as int)),
        decreases j - lo,
    {
        assert(v@.subrange(lo as int, j as int).drop_last() =~= v@.subrange(lo as int, j - 1));
        j = j - 1;
    }
    j
}

/// Bounds of `v[lo..hi]` with leading and trailing white space removed.
pub fn trim_ws_range(v: &Vec<char>, lo: usize, hi: usize) -> (r: (usize, usize))
    requires
        lo <= hi <= v@.len(),
    ensures
        lo <= r.0 <= r.1 <= hi,
        v@.subrange(r.0 as int, r.1 as int) == trim_ws(v@.subrange(lo as int, hi as int)),
{
    let a = trim_start_ws_range(v, lo, hi);
    let b = trim_end_ws_range(v, a, hi);
    (a, b)
}

/// Index where `v[lo..hi]` starts once leading repetitions of `pat` are removed.
pub fn trim_start_pattern_range(v: &Vec<char>, lo: usize, hi: usize, pat: &Vec<char>) -> (r: usize)
    requires
        lo <= hi <= v@.len(),
    ensures
        lo <= r <= hi,
        v@.subrange(r as int, hi as int) == trim_start_pattern(v@.subrange(lo as int, hi as int), pat@),
{
    if pat.len() == 0 {
        return lo;
    }
    let m = pat.len();
    let mut i = lo;
    loop
        invariant
            lo <= i <= hi <= v@.len(),
            m == pat@.len(),
            m > 0,
            trim_start_pattern(v@.subrange(i as int, hi as int), pat@) == trim_start_pattern(v@.subrange(lo as int, hi as int), pat@),
        decreases hi - i,
    {
        if hi - i < m {
            return i;
        }
        let mut k: usize = 0;
        let mut same = true;
        while k < m
            invariant
                lo <= i <= hi <= v@.len(),
                i + m <= hi,
                m == pat@.len(),
                k <= m,
                same == (forall|t: int| 0 <= t < k ==> v@[i + t] == pat@[t]),
            decreases m - k,
        {
            if v[i + k] != pat[k] {
                same = false;
            }
            k = k + 1;
        }
        let ghost s = v@.subrange(i as int, hi as int);
        if !same {
            assert(s.take(m as int) != pat@) by {
                let t = choose|t: int| 0 <= t < m && v@[i + t] != pat@[t];
                assert(s.take(m as int)[t] == v@[i + t]);
            }
            return i;
        }
        assert(s.take(m as int) =~= pat@);
        assert(s.skip(m as int) =~= v@.subrange(i + m, hi as int));
        i = i + m;
    }
}

/// Bounds of the pieces of `v[lo..hi]` between occurrences of `sep`.
pub fn split_ranges(v: &Vec<char>, lo: usize, hi: usize, sep: char) -> (r: Vec<(usize, usize)>)
    requires
        lo <= hi <= v@.len(),
    ensures
        r@.len() == split_on(v@.subrange(lo as int, hi as int), sep).len(),
        forall|k: int| 0 <= k < r@.len() ==> {
            &&& lo <= (#[trigger] r@[k]).0 <= r@[k].1 <= hi
            &&& v@.subrange(r@[k].0 as int, r@[k].1 as int) == split_on(v@.subrange(lo as int, hi as int), sep)[k]
        },
{
    let mut ranges: Vec<(usize, usize)> = Vec::new();
    let mut cur = lo;
    let mut i = lo;
    assert(split_on(v@.subrange(lo as int, lo as int), sep) =~= seq![Seq::<char>::empty()]);
    while i < hi
        invariant
            lo <= cur <= i <= hi <= v@.len(),
            split_on(v@.subrange(lo as int, i as int), sep).len() == ranges@.len() + 1,
            forall|k: int| 0 <= k < ranges@.len() ==> {
                &&& lo <= (#[trigger] ranges@[k]).0 <= ranges@[k].1 <= hi
                &&& v@.subrange(ranges@[k].0 as int, ranges@[k].1 as int) == split_on(v@.subrange(lo as int, i as int), sep)[k]
            },
            v@.subrange(cur as int, i as int) == split_on(v@.subrange(lo as int, i as int), sep).last(),
        decreases hi - i,
    {
        let ghost pre = v@.subrange(lo as int, i as int);
        let ghost next = v@.subrange(lo as int, i + 1);
        let ghost sp = split_on(pre, sep);
        assert(next.drop_last() =~= pre);
        assert(next.last() == v@[i as int]);
        if v[i] == sep {
            assert(split_on(next, sep) == sp.push(Seq::<char>::empty()));
            ranges.push((cur, i));
            cur = i + 1;
            assert(v@.subrange(cur as int, (i + 1) as int) =~= Seq::<char>::empty());
        } else {
            assert(split_on(next, sep) == sp.update(sp.len() - 1, sp.last().push(v@[i as int])));
            assert(v@.subrange(cur as int, i + 1) =~= v@.subrange(cur as int, i as int).push(v@[i as int]));
        }
        i = i + 1;
    }
    ranges.push((cur, hi));
    ranges
}

} // verus!
