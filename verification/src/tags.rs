//! Override-tag value types and the parsers for their integer arguments.
use vstd::prelude::*;
use vstd::string::StrSliceExecFns;
use crate::strings::{
    parse_hex_u8, parse_u32, parse_u8, parse_unsigned, parse_unsigned_range, split_on, split_ranges, trim_end_char,
    trim_end_char_range, trim_start_char, trim_start_char_range, trim_start_pattern, trim_start_pattern_range, trim_ws,
    trim_ws_range,
};
use crate::text::chars_of;

verus! {

/// Color override settings for rendering
#[derive(Debug, Clone, Default)]
pub struct ColorOverrides {
    /// Primary color override
    pub primary: Option<[u8; 4]>,
    /// Secondary color override
    pub secondary: Option<[u8; 4]>,
    /// Outline color override
    pub outline: Option<[u8; 4]>,
    /// Shadow color override
    pub shadow: Option<[u8; 4]>,
    /// General alpha override
    pub alpha: Option<u8>,
    /// Primary color alpha override (\1a)
    pub alpha1: Option<u8>,
    /// Secondary color alpha override (\2a)
    pub alpha2: Option<u8>,
    /// Outline color alpha override (\3a)
    pub alpha3: Option<u8>,
    /// Shadow color alpha override (\4a)
    pub alpha4: Option<u8>,
}

/// Fade parameters of a `\fad` or `\fade` tag (times in centiseconds).
#[derive(Debug, Clone)]
pub struct FadeData {
    /// Alpha before the fade-in (complex form)
    pub alpha_start: u8,
    /// Alpha after the fade-out (complex form)
    pub alpha_end: u8,
    /// Fade-in duration (simple form) or fade-in start (complex form)
    pub time_start: u32,
    /// Fade-out duration (simple form) or fade-out end (complex form)
    pub time_end: u32,
    /// Alpha while fully shown (complex form)
    pub alpha_middle: Option<u8>,
    /// Length of the fade-in (complex form)
    pub time_fade_in: Option<u32>,
    /// Length of the fade-out (complex form)
    pub time_fade_out: Option<u32>,
}

/// Karaoke timing and style data
#[derive(Debug, Clone)]
pub struct KaraokeData {
    /// Duration of karaoke effect in centiseconds
    pub duration: u32,
    /// Style of karaoke effect
    pub style: KaraokeStyle,
    /// Karaoke syllable start time in centiseconds (for \kt)
    pub start_time: Option<u32>,
}

/// Karaoke effect styles
#[derive(Debug, Clone)]
pub enum KaraokeStyle {
    /// Basic karaoke effect
    Basic,
    /// Fill-based karaoke effect
    Fill,
    /// Outline-based karaoke effect
    Outline,
    /// Sweep karaoke effect (\K capital K)
    Sweep,
}

/// Line break types in ASS text
#[derive(Debug, Clone)]
pub enum LineBreakType {
    /// Hard line break (\N) at position in text
    Hard(usize),
    /// Soft line break (\n) at position in text
    Soft(usize),
}

/// A `&H` or `&h` introducer starts at index `i`.
pub open spec fn amp_h_at(s: Seq<char>, i: int) -> bool {
    0 <= i && i + 1 < s.len() && s[i] == '&' && (s[i + 1] == 'h' || s[i + 1] == 'H')
}

/// Index of the first `&H`/`&h` introducer at or after `i`.
pub open spec fn first_amp_h_from(s: Seq<char>, i: nat) -> Option<int>
    decreases s.len() - i,
{
    if i + 1 >= s.len() {
        None
    } else if amp_h_at(s, i as int) {
        Some(i as int)
    } else {
        first_amp_h_from(s, i + 1)
    }
}

/// `s` from its first `&H`/`&h` introducer on, or all of `s` when it has none.
pub open spec fn strip_to_amp_h(s: Seq<char>) -> Seq<char> {
    match first_amp_h_from(s, 0) {
        Some(i) => s.skip(i),
        None => s,
    }
}

/// Invert an ASS alpha (0 = opaque) into an RGBA alpha (255 = opaque).
pub open spec fn invert_alpha(a: Option<u8>) -> Option<u8> {
    match a {
        Some(v) => Some((255 - v) as u8),
        None => None,
    }
}

/// What `parse_alpha` returns: the hex value after the introducer, without
/// repeated `&H`/`&h` prefixes and trailing `&`, inverted.
pub open spec fn spec_parse_alpha(args: Seq<char>) -> Option<u8> {
    let t = trim_start_pattern(trim_start_pattern(strip_to_amp_h(args), "&H"@), "&h"@);
    invert_alpha(parse_hex_u8(trim_end_char(t, '&')))
}

/// What `parse_alpha_arg` (alpha inside `\t`) returns: the hex value without
/// repeated `&H`/`&h` prefixes, inverted.
pub open spec fn spec_parse_alpha_arg(args: Seq<char>) -> Option<u8> {
    invert_alpha(parse_hex_u8(trim_start_pattern(trim_start_pattern(args, "&H"@), "&h"@)))
}

/// Index of the first `&H`/`&h` introducer in `v`.
fn find_amp_h(v: &Vec<char>) -> (r: Option<usize>)
    ensures
        match r {
            Some(i) => first_amp_h_from(v@, 0) == Some(i as int) && i < v@.len(),
            None => first_amp_h_from(v@, 0) is None,
        },
{
    let n = v.len();
    let mut i: usize = 0;
    while n > 0 && i < n - 1
        invariant
            n == v@.len(),
            i <= n,
            first_amp_h_from(v@, i as nat) == first_amp_h_from(v@, 0),
        decreases n - i,
    {
        if v[i] == '&' && (v[i + 1] == 'h' || v[i + 1] == 'H') {
            return Some(i);
        }
        i = i + 1;
    }
    None
}

/// Strip any stray prefix before the `&H` colour/alpha introducer.
///
/// Real-world scripts often emit a malformed `\1cH&H2A4F5D&`; the value parsers
/// start at the `&H`/`&h` introducer. Input without one is returned unchanged.
pub fn strip_to_ampersand_hex(args: &str) -> (r: &str)
    ensures
        r@ == strip_to_amp_h(args@),
{
    let v = chars_of(args);
    match find_amp_h(&v) {
        Some(i) => {
            let r = args.substring_char(i, v.len());
            assert(r@ =~= args@.skip(i as int));
            r
        },
        None => args,
    }
}

/// Parse alpha arguments from ASS alpha tags
///
/// ASS alpha is inverted (0 = opaque, 255 = transparent); the result is an
/// RGBA alpha (255 = opaque).
pub fn parse_alpha(args: &str) -> (r: Option<u8>)
    ensures
        r == spec_parse_alpha(args@),
{
    let v = chars_of(args);
    let start = match find_amp_h(&v) {
        Some(i) => i,
        None => 0,
    };
    assert(v@.subrange(start as int, v@.len() as int) =~= strip_to_amp_h(v@));
    let upper = chars_of("&H");
    let lower = chars_of("&h");
    let a = trim_start_pattern_range(&v, start, v.len(), &upper);
    let b = trim_start_pattern_range(&v, a, v.len(), &lower);
    let e = trim_end_char_range(&v, b, v.len(), '&');
    match parse_unsigned_range(&v, b, e, 16, 255) {
        Some(x) => Some((255 - x) as u8),
        None => None,
    }
}

/// Parse an alpha argument inside a `\t` transform (no stray-prefix or trailing
/// `&` handling); the result is inverted like `parse_alpha`.
pub fn parse_alpha_arg(args: &str) -> (r: Option<u8>)
    ensures
        r == spec_parse_alpha_arg(args@),
{
    let v = chars_of(args);
    assert(v@.subrange(0, v@.len() as int) =~= v@);
    let upper = chars_of("&H");
    let lower = chars_of("&h");
    let a = trim_start_pattern_range(&v, 0, v.len(), &upper);
    let b = trim_start_pattern_range(&v, a, v.len(), &lower);
    match parse_unsigned_range(&v, b, v.len(), 16, 255) {
        Some(x) => Some((255 - x) as u8),
        None => None,
    }
}

/// The comma-separated pieces of a parenthesised tag argument, after removing
/// leading `(` and trailing `)` characters.
pub open spec fn paren_parts(args: Seq<char>) -> Seq<Seq<char>> {
    split_on(trim_end_char(trim_start_char(args, '('), ')'), ',')
}

/// Piece `k`, trimmed, parsed as `u32`.
pub open spec fn part_u32(parts: Seq<Seq<char>>, k: int) -> Option<u32> {
    parse_u32(trim_ws(parts[k]))
}

/// Piece `k`, trimmed, parsed as `u8`.
pub open spec fn part_u8(parts: Seq<Seq<char>>, k: int) -> Option<u8> {
    parse_u8(trim_ws(parts[k]))
}

/// All seven pieces of the complex `\fade` form parse.
pub open spec fn complex_fade_parses(parts: Seq<Seq<char>>) -> bool {
    &&& part_u8(parts, 0) is Some
    &&& part_u8(parts, 1) is Some
    &&& part_u8(parts, 2) is Some
    &&& part_u32(parts, 3) is Some
    &&& part_u32(parts, 4) is Some
    &&& part_u32(parts, 5) is Some
    &&& part_u32(parts, 6) is Some
}

/// What `parse_fade_args` returns. Two pieces give the simple `\fad(in, out)`
/// form with durations; seven or more give the complex
/// `\fade(a1, a2, a3, t1, t2, t3, t4)` form. Times are converted from
/// milliseconds to centiseconds (rounding down).
pub open spec fn spec_parse_fade_args(args: Seq<char>) -> Option<FadeData> {
    let parts = paren_parts(args);
    if parts.len() == 2 {
        if part_u32(parts, 0) is Some && part_u32(parts, 1) is Some {
            Some(FadeData {
                alpha_start: 0,
                alpha_end: 0,
                time_start: (part_u32(parts, 0)->0 / 10) as u32,
                time_end: (part_u32(parts, 1)->0 / 10) as u32,
                alpha_middle: None,
                time_fade_in: None,
                time_fade_out: None,
            })
        } else {
            None
        }
    } else if parts.len() >= 7 && complex_fade_parses(parts) {
        let t1 = part_u32(parts, 3)->0 / 10;
        let t2 = part_u32(parts, 4)->0 / 10;
        let t3 = part_u32(parts, 5)->0 / 10;
        let t4 = part_u32(parts, 6)->0 / 10;
        Some(FadeData {
            alpha_start: part_u8(parts, 0)->0,
            alpha_end: part_u8(parts, 2)->0,
            time_start: t1 as u32,
            time_end: t4 as u32,
            alpha_middle: Some(part_u8(parts, 1)->0),
            time_fade_in: Some((t2 - t1) as u32),
            time_fade_out: Some((t4 - t3) as u32),
        })
    } else {
        None
    }
}

/// The complex form's fade lengths `t2 - t1` and `t4 - t3` (in centiseconds)
/// are not negative, so their `u32` subtractions do not underflow.
pub open spec fn fade_args_in_range(args: Seq<char>) -> bool {
    let parts = paren_parts(args);
    parts.len() >= 7 && complex_fade_parses(parts) ==> {
        &&& part_u32(parts, 3)->0 / 10 <= part_u32(parts, 4)->0 / 10
        &&& part_u32(parts, 5)->0 / 10 <= part_u32(parts, 6)->0 / 10
    }
}

/// A complex `\fade(a1, a2, a3, t1, t2, t3, t4)` whose seven pieces parse
/// keeps `a1` (the alpha before the fade-in) as `alpha_start`, `a2` as
/// `alpha_middle` and `a3` (the alpha after the fade-out) as `alpha_end`; its
/// times, from milliseconds to centiseconds, give `time_start = t1`,
/// `time_end = t4`, a fade-in of `t2 - t1` and a fade-out of `t4 - t3`. The
/// simple `\fad(in, out)` keeps the two durations in order.
pub proof fn lemma_complex_fade_fields(args: Seq<char>)
    ensures
        ({
            let parts = paren_parts(args);
            parts.len() >= 7 && complex_fade_parses(parts) ==> (spec_parse_fade_args(args) matches Some(f) && {
                &&& f.alpha_start == parse_u8(trim_ws(parts[0]))->0
                &&& f.alpha_middle == parse_u8(trim_ws(parts[1]))
                &&& f.alpha_end == parse_u8(trim_ws(parts[2]))->0
                &&& f.time_start == parse_u32(trim_ws(parts[3]))->0 / 10
                &&& f.time_end == parse_u32(trim_ws(parts[6]))->0 / 10
                &&& fade_args_in_range(args) ==> (f.time_fade_in matches Some(d)
                    && d == (parse_u32(trim_ws(parts[4]))->0 / 10 - parse_u32(trim_ws(parts[3]))->0 / 10))
                &&& fade_args_in_range(args) ==> (f.time_fade_out matches Some(d)
                    && d == (parse_u32(trim_ws(parts[6]))->0 / 10 - parse_u32(trim_ws(parts[5]))->0 / 10))
            })
        }),
        ({
            let parts = paren_parts(args);
            parts.len() == 2 && parse_u32(trim_ws(parts[0])) is Some && parse_u32(trim_ws(parts[1])) is Some
                ==> (spec_parse_fade_args(args) matches Some(f) && {
                &&& f.time_start == parse_u32(trim_ws(parts[0]))->0 / 10
                &&& f.time_end == parse_u32(trim_ws(parts[1]))->0 / 10
                &&& f.alpha_middle is None
            })
        }),
{
}

/// Parse piece `k` of `ranges` (trimmed) as an unsigned decimal bounded by `max`.
fn parse_piece(v: &Vec<char>, ranges: &Vec<(usize, usize)>, k: usize, max: u32) -> (r: Option<u32>)
    requires
        k < ranges@.len(),
        ranges@[k as int].0 <= ranges@[k as int].1 <= v@.len(),
    ensures
        r == match parse_unsigned(trim_ws(v@.subrange(ranges@[k as int].0 as int, ranges@[k as int].1 as int)), 10, max as nat) {
            Some(n) => Some(n as u32),
            None => None::<u32>,
        },
{
    let (lo, hi) = ranges[k];
    let (a, b) = trim_ws_range(v, lo, hi);
    parse_unsigned_range(v, a, b, 10, max)
}

/// Parse fade arguments from ASS \fade tag
pub fn parse_fade_args(args: &str) -> (r: Option<FadeData>)
    requires
        fade_args_in_range(args@),
    ensures
        r == spec_parse_fade_args(args@),
        ({
            let parts = paren_parts(args@);
            parts.len() >= 7 && complex_fade_parses(parts) ==> (r matches Some(f) && {
                &&& f.alpha_start == parse_u8(trim_ws(parts[0]))->0
                &&& f.alpha_middle == parse_u8(trim_ws(parts[1]))
                &&& f.alpha_end == parse_u8(trim_ws(parts[2]))->0
                &&& f.time_start == parse_u32(trim_ws(parts[3]))->0 / 10
                &&& f.time_end == parse_u32(trim_ws(parts[6]))->0 / 10
            })
        }),
{
    proof {
        lemma_complex_fade_fields(args@);
    }
    let v = chars_of(args);
    let ghost s = args@;
    assert(v@.subrange(0, v@.len() as int) =~= s);
    let a = trim_start_char_range(&v, 0, v.len(), '(');
    let b = trim_end_char_range(&v, a, v.len(), ')');
    let ranges = split_ranges(&v, a, b, ',');
    let ghost parts = paren_parts(s);
    assert(parts == split_on(v@.subrange(a as int, b as int), ','));
    let n = ranges.len();

    if n >= 2 {
        if n == 2 {
            let fade_in_ms = match parse_piece(&v, &ranges, 0, u32::MAX) { Some(x) => x, None => return None };
            let fade_out_ms = match parse_piece(&v, &ranges, 1, u32::MAX) { Some(x) => x, None => return None };
            let time_start = fade_in_ms / 10;
            let time_end = fade_out_ms / 10;
            return Some(FadeData {
                alpha_start: 0,
                alpha_end: 0,
                time_start,
                time_end,
                alpha_middle: None,
                time_fade_in: None,
                time_fade_out: None,
            });
        }
        if n >= 7 {
            let alpha1 = match parse_piece(&v, &ranges, 0, 255) { Some(x) => x as u8, None => return None };
            let alpha2 = match parse_piece(&v, &ranges, 1, 255) { Some(x) => x as u8, None => return None };
            let alpha3 = match parse_piece(&v, &ranges, 2, 255) { Some(x) => x as u8, None => return None };
            let t1_ms = match parse_piece(&v, &ranges, 3, u32::MAX) { Some(x) => x, None => return None };
            let t2_ms = match parse_piece(&v, &ranges, 4, u32::MAX) { Some(x) => x, None => return None };
            let t3_ms = match parse_piece(&v, &ranges, 5, u32::MAX) { Some(x) => x, None => return None };
            let t4_ms = match parse_piece(&v, &ranges, 6, u32::MAX) { Some(x) => x, None => return None };
            let t1 = t1_ms / 10;
            let t2 = t2_ms / 10;
            let t3 = t3_ms / 10;
            let t4 = t4_ms / 10;
            return Some(FadeData {
                alpha_start: alpha1,
                alpha_end: alpha3,
                time_start: t1,
                time_end: t4,
                alpha_middle: Some(alpha2),
                time_fade_in: Some(t2 - t1),
                time_fade_out: Some(t4 - t3),
            });
        }
    }
    None
}

/// Whether `parse_fade_args` can read `args`: the complex form's fade-in
/// and fade-out do not end before they start (their lengths would underflow).
pub fn fade_args_fit(args: &str) -> (b: bool)
    ensures
        b == fade_args_in_range(args@),
{
    let v = chars_of(args);
    let ghost s = args@;
    assert(v@.subrange(0, v@.len() as int) =~= s);
    let a = trim_start_char_range(&v, 0, v.len(), '(');
    let b = trim_end_char_range(&v, a, v.len(), ')');
    let ranges = split_ranges(&v, a, b, ',');
    let ghost parts = paren_parts(s);
    assert(parts == split_on(v@.subrange(a as int, b as int), ','));
    if ranges.len() < 7 {
        return true;
    }
    let a1 = parse_piece(&v, &ranges, 0, 255);
    let a2 = parse_piece(&v, &ranges, 1, 255);
    let a3 = parse_piece(&v, &ranges, 2, 255);
    let t1 = parse_piece(&v, &ranges, 3, u32::MAX);
    let t2 = parse_piece(&v, &ranges, 4, u32::MAX);
    let t3 = parse_piece(&v, &ranges, 5, u32::MAX);
    let t4 = parse_piece(&v, &ranges, 6, u32::MAX);
    match (a1, a2, a3, t1, t2, t3, t4) {
        (Some(_), Some(_), Some(_), Some(t1), Some(t2), Some(t3), Some(t4)) => t1 / 10 <= t2 / 10 && t3 / 10 <= t4 / 10,
        _ => true,
    }
}

} // verus!
