//! Reading colours, alphas and alignment from style and event fields.
use vstd::prelude::*;
use vstd::string::StrSliceExecFns;
use crate::strings::{parse_hex_u32, parse_hex_u8, parse_u8, parse_unsigned_range, trim_end_char, trim_end_char_range};
use crate::text::{chars_of, contains_str, find_chars, first_occurrence, lemma_first_occurrence_unique, seq_contains};

verus! {

/// The `&H` prefix was removed once from `s`.
pub open spec fn strip_amp_h_prefix(s: Seq<char>) -> Option<Seq<char>> {
    if s.len() >= 2 && s[0] == '&' && s[1] == 'H' { Some(s.skip(2)) } else { None }
}

/// Colour of a style field `&HAABBGGRR` (or `&HBBGGRR`) as RGBA; the ASS
/// alpha (0 = opaque) is inverted and a six-digit value counts as opaque.
/// Anything else reads as opaque white.
pub open spec fn spec_parse_ass_color(color: Seq<char>) -> [u8; 4] {
    match strip_amp_h_prefix(trim_end_char(color, '&')) {
        Some(hex) => match parse_hex_u32(hex) {
            Some(value) => {
                let (alpha, bgr) = if hex.len() >= 8 {
                    ((255 - (value / 0x100_0000) % 256) as u8, (value % 0x100_0000) as int)
                } else {
                    (255u8, value as int)
                };
                [(bgr % 256) as u8, ((bgr / 256) % 256) as u8, ((bgr / 0x1_0000) % 256) as u8, alpha]
            },
            None => [255u8, 255u8, 255u8, 255u8],
        },
        None => [255u8, 255u8, 255u8, 255u8],
    }
}

/// Alpha of a style field `&HAA`, inverted; anything else reads as opaque.
pub open spec fn spec_parse_ass_alpha(alpha: Seq<char>) -> u8 {
    match strip_amp_h_prefix(alpha) {
        Some(hex) => match parse_hex_u8(hex) {
            Some(v) => (255 - v) as u8,
            None => 255,
        },
        None => 255,
    }
}

/// Parse an ASS colour field (`&HAABBGGRR` or `&HBBGGRR`) into RGBA.
pub fn parse_ass_color(color: &str) -> (c: [u8; 4])
    ensures
        c == spec_parse_ass_color(color@),
{
    let v = chars_of(color);
    assert(v@.subrange(0, v@.len() as int) =~= v@);
    let end = trim_end_char_range(&v, 0, v.len(), '&');
    let ghost t = v@.subrange(0, end as int);
    if end >= 2 && v[0] == '&' && v[1] == 'H' {
        assert(t.skip(2) =~= v@.subrange(2, end as int));
        if let Some(value) = parse_unsigned_range(&v, 2, end, 16, u32::MAX) {
            let hex_len = end - 2;
            let (alpha, bgr) = if hex_len >= 8 {
                let a = ((value >> 24) & 0xFF) as u8;
                assert((value >> 24u32) & 0xFFu32 == (value / 0x100_0000) % 256) by (bit_vector);
                assert(value & 0xFF_FFFFu32 == value % 0x100_0000) by (bit_vector);
                (255 - a, value & 0xFF_FFFF)
            } else {
                (255u8, value)
            };
            let r = (bgr & 0xFF) as u8;
            let g = ((bgr >> 8) & 0xFF) as u8;
            let b = ((bgr >> 16) & 0xFF) as u8;
            assert(bgr & 0xFFu32 == bgr % 256) by (bit_vector);
            assert((bgr >> 8u32) & 0xFFu32 == (bgr / 256) % 256) by (bit_vector);
            assert((bgr >> 16u32) & 0xFFu32 == (bgr / 0x1_0000) % 256) by (bit_vector);
            let c = [r, g, b, alpha];
            assert(c =~= spec_parse_ass_color(color@));
            return c;
        }
    }
    [255, 255, 255, 255]
}

/// Parse an ASS alpha field (`&HAA`), inverted to RGBA alpha.
pub fn parse_ass_alpha(alpha: &str) -> (a: u8)
    ensures
        a == spec_parse_ass_alpha(alpha@),
{
    let v = chars_of(alpha);
    if v.len() >= 2 && v[0] == '&' && v[1] == 'H' {
        assert(alpha@.skip(2) =~= v@.subrange(2, v@.len() as int));
        if let Some(x) = parse_unsigned_range(&v, 2, v.len(), 16, 255) {
            return (255 - x) as u8;
        }
    }
    255
}

/// Value of `c` as a decimal digit.
pub open spec fn decimal_digit(c: char) -> Option<u8> {
    if '0' <= c <= '9' { Some(((c as u32) - ('0' as u32)) as u8) } else { None }
}

/// Alignment from the first inline `\an` tag, when the character after it is a
/// digit from 1 to 9.
pub open spec fn inline_alignment(text: Seq<char>) -> Option<u8> {
    match first_occurrence(text, "\\an"@) {
        Some(i) => if i + 3 < text.len() {
            match decimal_digit(text[i + 3]) {
                Some(d) => if 1 <= d <= 9 { Some(d) } else { None },
                None => None,
            }
        } else {
            None
        },
        None => None,
    }
}

/// Effective numpad alignment of an event: an inline `\an` override wins,
/// then a valid (1-9) style alignment, then bottom-centre (2).
pub open spec fn spec_effective_alignment(text: Seq<char>, style_alignment: Option<Seq<char>>) -> u8 {
    match inline_alignment(text) {
        Some(d) => d,
        None => match style_alignment {
            Some(a) => match parse_u8(a) {
                Some(v) => if 1 <= v <= 9 { v } else { 2 },
                None => 2,
            },
            None => 2,
        },
    }
}

/// Effective vertical-alignment row for collision handling: an inline `\an`
/// override wins over the style alignment (default 2 = bottom-centre).
pub fn effective_alignment(text: &str, style_alignment: Option<&str>) -> (a: u8)
    ensures
        a == spec_effective_alignment(text@, match style_alignment { Some(s) => Some(s@), None => None }),
{
    let v = chars_of(text);
    let pat = chars_of("\\an");
    let found = find_chars(&v, &pat);
    if let Some(idx) = found {
        proof {
            lemma_first_occurrence_unique(v@, pat@, idx as int);
        }
        if v.len() > 3 && idx < v.len() - 3 {
            let c = v[idx + 3];
            if '0' <= c && c <= '9' {
                let d = ((c as u32) - ('0' as u32)) as u8;
                if 1 <= d && d <= 9 {
                    return d;
                }
            }
        }
    }
    match style_alignment {
        Some(s) => {
            let a = chars_of(s);
            assert(a@.subrange(0, a@.len() as int) =~= a@);
            match parse_unsigned_range(&a, 0, a.len(), 10, 255) {
                Some(x) => if 1 <= x && x <= 9 { x as u8 } else { 2 },
                None => 2,
            }
        },
        None => 2,
    }
}

/// Whether the event text positions itself with `\pos` or `\move`.
pub fn event_is_positioned(text: &str) -> (b: bool)
    ensures
        b == (seq_contains(text@, "\\pos"@) || seq_contains(text@, "\\move"@)),
{
    let v = chars_of(text);
    contains_str(&v, "\\pos") || contains_str(&v, "\\move")
}

} // verus!
