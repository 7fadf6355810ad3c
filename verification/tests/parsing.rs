use ass_renderer::tag_split::tag_name_fits;
use ass_renderer::tags::fade_args_fit;
use ass_renderer::segment::{segment_text_with_tags, split_into_logical_lines, TextSegment};
use ass_renderer::tag_apply::{apply_override_tag, apply_tag_block, IntTags};
use ass_renderer::tags::KaraokeStyle;
use ass_renderer::style::{effective_alignment, event_is_positioned, parse_ass_alpha, parse_ass_color};
use ass_renderer::font_choice::text_has_cjk_or_hangul;
use ass_renderer::tag_split::{extract_tag_name_and_args, scan_animatable_tags, split_tags_carefully};
use ass_renderer::tags::{parse_alpha, parse_alpha_arg, parse_fade_args, strip_to_ampersand_hex};

#[test]
fn alpha_is_inverted() {
    assert_eq!(parse_alpha("&HFF&"), Some(0));
    assert_eq!(parse_alpha("&H00&"), Some(255));
    assert_eq!(parse_alpha("&H80"), Some(127));
    assert_eq!(parse_alpha("&h80&"), Some(127));
    assert_eq!(parse_alpha("xyz"), None);
    assert_eq!(parse_alpha("&H100&"), None);
}

#[test]
fn alpha_tolerates_stray_prefix() {
    assert_eq!(strip_to_ampersand_hex("H&H2A4F5D&"), "&H2A4F5D&");
    assert_eq!(strip_to_ampersand_hex("123"), "123");
    assert_eq!(parse_alpha("H&H80&"), Some(127));
    assert_eq!(parse_alpha("&H&H10"), Some(239));
}

#[test]
fn alpha_arg_inside_transform() {
    assert_eq!(parse_alpha_arg("&H80"), Some(127));
    assert_eq!(parse_alpha_arg("80"), Some(127));
    assert_eq!(parse_alpha_arg("&H80&"), None);
}

#[test]
fn simple_fade_converts_to_centiseconds() {
    let f = parse_fade_args("(100,205)").unwrap();
    assert_eq!((f.alpha_start, f.alpha_end, f.time_start, f.time_end), (0, 0, 10, 20));
    assert!(f.alpha_middle.is_none() && f.time_fade_in.is_none() && f.time_fade_out.is_none());
    let g = parse_fade_args("( 100 , 200 )").unwrap();
    assert_eq!((g.time_start, g.time_end), (10, 20));
}

#[test]
fn complex_fade_keeps_ass_alphas() {
    let f = parse_fade_args("(255,0,255,0,500,1000,1500)").unwrap();
    assert_eq!((f.alpha_start, f.alpha_end, f.time_start, f.time_end), (255, 255, 0, 150));
    assert_eq!(f.alpha_middle, Some(0));
    assert_eq!(f.time_fade_in, Some(50));
    assert_eq!(f.time_fade_out, Some(50));
}

#[test]
fn fade_with_wrong_arity_is_refused() {
    assert!(parse_fade_args("(1,2,3)").is_none());
    assert!(parse_fade_args("(100)").is_none());
    assert!(parse_fade_args("(a,b)").is_none());
    assert!(parse_fade_args("(256,0,0,0,1,2,3)").is_none());
}

#[test]
fn split_tags_keeps_transform_whole() {
    assert_eq!(split_tags_carefully("\\b1\\t(\\fs20)\\i1"), vec!["b1", "t(\\fs20)", "i1"]);
    assert_eq!(split_tags_carefully("\\pos(1,2)\\fad(10,20)"), vec!["pos(1,2)", "fad(10,20)"]);
    assert!(split_tags_carefully("").is_empty());
}

#[test]
fn extract_name_and_args() {
    assert_eq!(extract_tag_name_and_args("fnArial"), ("fn", "Arial"));
    assert_eq!(extract_tag_name_and_args("1c&HFF&"), ("1c", "&HFF&"));
    assert_eq!(extract_tag_name_and_args("1cH&HFF&"), ("1c", "H&HFF&"));
    assert_eq!(extract_tag_name_and_args("bord2.5"), ("bord", "2.5"));
    assert_eq!(extract_tag_name_and_args("b"), ("b", ""));
    assert_eq!(extract_tag_name_and_args("1"), ("1", ""));
    assert_eq!(extract_tag_name_and_args("fn"), ("fn", ""));
}

#[test]
fn cjk_detection() {
    assert!(!text_has_cjk_or_hangul("hello"));
    assert!(text_has_cjk_or_hangul("日本"));
    assert!(text_has_cjk_or_hangul("한글"));
    assert!(text_has_cjk_or_hangul("abcカ"));
}

#[test]
fn animatable_tag_scan() {
    let tags = scan_animatable_tags("\\fs20\\1c&HFF&\\bord2");
    let pairs: Vec<(&str, &str)> = tags.iter().map(|(a, b)| (a.as_str(), b.as_str())).collect();
    assert_eq!(pairs, vec![("fs", "20"), ("1c", "&HFF&"), ("bord", "2")]);
    assert!(scan_animatable_tags("\\\\(").is_empty());
}

#[test]
fn style_colors() {
    assert_eq!(parse_ass_color("&H00FF0000"), [0, 0, 255, 255]);
    assert_eq!(parse_ass_color("&H0000FF"), [255, 0, 0, 255]);
    assert_eq!(parse_ass_color("&H80112233&"), [0x33, 0x22, 0x11, 127]);
    assert_eq!(parse_ass_color("bad"), [255, 255, 255, 255]);
    assert_eq!(parse_ass_alpha("&H80"), 127);
    assert_eq!(parse_ass_alpha("&HZZ"), 255);
    assert_eq!(parse_ass_alpha("80"), 255);
}

#[test]
fn alignment_resolution() {
    assert_eq!(effective_alignment("{\\an8}Hi", Some("2")), 8);
    assert_eq!(effective_alignment("x", Some("7")), 7);
    assert_eq!(effective_alignment("x", Some("12")), 2);
    assert_eq!(effective_alignment("{\\an0}x", None), 2);
    assert!(event_is_positioned("{\\pos(1,2)}x"));
    assert!(!event_is_positioned("plain"));
}

fn view(s: &TextSegment) -> (&str, usize, usize, usize) {
    (s.text.as_str(), s.start, s.end, s.tags)
}

#[test]
fn plain_text_is_one_segment() {
    let (segs, blocks) = segment_text_with_tags("Hello").unwrap();
    assert_eq!(segs.iter().map(view).collect::<Vec<_>>(), vec![("Hello", 0, 5, 0)]);
    assert!(blocks.is_empty());
}

#[test]
fn tag_blocks_split_segments() {
    let (segs, blocks) = segment_text_with_tags("{\\b1}Bold{\\b0} normal").unwrap();
    assert_eq!(segs.iter().map(view).collect::<Vec<_>>(), vec![("Bold", 5, 9, 1), (" normal", 14, 21, 2)]);
    assert_eq!(blocks, vec!["\\b1", "\\b0"]);
}

#[test]
fn karaoke_blocks_split_segments() {
    let (segs, _) = segment_text_with_tags("{\\k10}ab{\\k20}cd").unwrap();
    assert_eq!(segs.iter().map(view).collect::<Vec<_>>(), vec![("ab", 6, 8, 1), ("cd", 14, 16, 2)]);
}

#[test]
fn escapes_are_translated() {
    let (segs, _) = segment_text_with_tags("a\\Nb\\hc\\xd").unwrap();
    assert_eq!(segs.len(), 1);
    assert_eq!(segs[0].text, "a\nb\u{a0}c\\xd");
    assert_eq!((segs[0].start, segs[0].end), (0, 10));
}

#[test]
fn empty_text_gives_empty_segment() {
    let (segs, _) = segment_text_with_tags("").unwrap();
    assert_eq!(segs.iter().map(view).collect::<Vec<_>>(), vec![("", 0, 0, 0)]);
}

#[test]
fn byte_positions_count_utf8() {
    let (segs, _) = segment_text_with_tags("é{\\i1}ü").unwrap();
    assert_eq!(segs.iter().map(view).collect::<Vec<_>>(), vec![("é", 0, 2, 0), ("ü", 7, 9, 1)]);
}

fn seg(text: &str, start: usize, end: usize, tags: usize) -> TextSegment {
    TextSegment { text: text.to_string(), start, end, tags, formatting: IntTags::new() }
}

#[test]
fn logical_lines_split_on_newlines() {
    let lines = split_into_logical_lines(vec![seg("a\nb", 0, 3, 0), seg("", 3, 3, 0), seg("c", 3, 4, 1), seg("\nd", 4, 6, 2)]);
    let shape: Vec<Vec<(&str, usize, usize, usize)>> = lines.iter().map(|l| l.iter().map(view).collect()).collect();
    assert_eq!(shape, vec![vec![("a", 0, 3, 0)], vec![("b", 0, 3, 0), ("c", 3, 4, 1)], vec![("d", 4, 6, 2)]]);
}

#[test]
fn logical_lines_drop_empty_lines() {
    let lines = split_into_logical_lines(vec![seg("\n\n", 0, 2, 0)]);
    assert!(lines.is_empty());
}

#[test]
fn bold_block_sets_bold_on_following_run() {
    let (v, _) = segment_text_with_tags(r"ab{\b1}cd").unwrap();
    assert_eq!(v.len(), 2);
    assert_eq!((v[0].text.as_str(), v[0].start, v[0].end), ("ab", 0, 2));
    assert_eq!(v[0].formatting.bold, None);
    assert_eq!((v[1].text.as_str(), v[1].start, v[1].end), ("cd", 7, 9));
    assert_eq!(v[1].formatting.bold, Some(true));
    assert_eq!(v[1].formatting.italic, None);
}

#[test]
fn run_formatting_accumulates_and_resets() {
    let (v, _) = segment_text_with_tags(r"{\an8\i1\fnArial}x{\b1\alpha&H80&}y{\r\k25}z").unwrap();
    assert_eq!(v.len(), 3);
    assert_eq!(v[0].formatting.alignment, Some(8));
    assert_eq!(v[0].formatting.italic, Some(true));
    assert_eq!(v[0].formatting.font_name.as_deref(), Some("Arial"));
    assert_eq!(v[1].formatting.bold, Some(true));
    assert_eq!(v[1].formatting.italic, Some(true));
    assert_eq!(v[1].formatting.alpha, Some(255 - 0x80));
    assert_eq!(v[2].formatting.bold, None);
    assert_eq!(v[2].formatting.alignment, None);
    let k = v[2].formatting.karaoke.as_ref().unwrap();
    assert_eq!(k.duration, 25);
    assert!(matches!(k.style, KaraokeStyle::Basic));
}

#[test]
fn override_tags_applied_one_by_one() {
    let mut t = IntTags::new();
    assert!(apply_override_tag("b", "0", &mut t));
    assert_eq!(t.bold, Some(false));
    assert!(apply_override_tag("u", "1", &mut t));
    assert_eq!(t.underline, Some(true));
    assert!(apply_override_tag("q", "2", &mut t));
    assert_eq!(t.wrap_style, Some(2));
    assert!(apply_override_tag("q", "x", &mut t));
    assert_eq!(t.wrap_style, Some(2));
    assert!(apply_override_tag("p", "1", &mut t));
    assert_eq!(t.drawing_mode, Some(1));
    assert!(apply_override_tag("kf", "40", &mut t));
    assert!(matches!(t.karaoke.as_ref().unwrap().style, KaraokeStyle::Fill));
    assert!(apply_override_tag("K", "10", &mut t));
    assert!(matches!(t.karaoke.as_ref().unwrap().style, KaraokeStyle::Sweep));
    assert!(apply_override_tag("fad", "(100,200)", &mut t));
    assert_eq!(t.fade.as_ref().unwrap().time_start, 10);
    assert!(apply_override_tag("fn", "", &mut t));
    assert_eq!(t.font_name, None);
    assert!(!apply_override_tag("fs", "20", &mut t));
    assert!(!apply_override_tag("blur", "2", &mut t));
    assert_eq!(t.bold, Some(false));
}

#[test]
fn tag_block_applies_in_order() {
    let mut t = IntTags::new();
    apply_tag_block(r"\b1\i1\b0\3a&HFF&", &mut t);
    assert_eq!(t.bold, Some(false));
    assert_eq!(t.italic, Some(true));
    assert_eq!(t.alpha3, Some(0));
    apply_tag_block(r"\r", &mut t);
    assert_eq!(t.italic, None);
    assert_eq!(t.alpha3, None);
}

#[test]
fn fade_and_name_checks() {
    assert!(fade_args_fit("(100,200)"));
    assert!(fade_args_fit("(255,0,255,0,500,1000,1500)"));
    assert!(!fade_args_fit("(255,0,255,500,0,1000,1500)"));
    assert!(!fade_args_fit("(255,0,255,0,500,1500,1000)"));
    assert!(fade_args_fit("(255,0,x,500,0,1500,1000)"));
    assert!(tag_name_fits("1c&HFF&"));
    assert!(tag_name_fits("b1"));
    assert!(!tag_name_fits("1é"));
}
