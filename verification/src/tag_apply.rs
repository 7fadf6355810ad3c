//! Applying override tags whose values are integers, flags or text to the
//! running tag state of an event: alpha, font name, bold/italic/underline/
//! strikeout, wrap style, alignment, drawing mode, fades, karaoke and `\r`.
use vstd::prelude::*;
use crate::strings::{parse_u32, parse_u8, parse_unsigned_range};
use crate::tag_split::{extract_tag_name_and_args, spec_extract_tag, spec_split_tags, split_tags_carefully, tag_name_splits_cleanly};
use crate::tags::{
    fade_args_in_range, parse_alpha, parse_fade_args, spec_parse_alpha, spec_parse_fade_args, FadeData, KaraokeData,
    KaraokeStyle,
};
use crate::text::chars_of;

verus! {

/// Override values of integer, flag or text kind in effect for a run.
#[derive(Debug, Clone, Default)]
pub struct IntTags {
    /// General alpha override (`\alpha`), as opacity
    pub alpha: Option<u8>,
    /// Primary alpha (`\1a`)
    pub alpha1: Option<u8>,
    /// Secondary alpha (`\2a`)
    pub alpha2: Option<u8>,
    /// Outline alpha (`\3a`)
    pub alpha3: Option<u8>,
    /// Shadow alpha (`\4a`)
    pub alpha4: Option<u8>,
    /// Font name (`\fn`)
    pub font_name: Option<String>,
    /// Bold (`\b`)
    pub bold: Option<bool>,
    /// Italic (`\i`)
    pub italic: Option<bool>,
    /// Underline (`\u`)
    pub underline: Option<bool>,
    /// Strikeout (`\s`)
    pub strikeout: Option<bool>,
    /// Wrap style (`\q`)
    pub wrap_style: Option<u8>,
    /// Alignment (`\an`, `\a`)
    pub alignment: Option<u8>,
    /// Drawing mode level (`\p`)
    pub drawing_mode: Option<u8>,
    /// Fade (`\fad`, `\fade`)
    pub fade: Option<FadeData>,
    /// Karaoke timing (`\k`, `\kf`, `\ko`, `\K`)
    pub karaoke: Option<KaraokeData>,
}

/// The tag state as plain values.
pub struct TagsModel {
    /// `\alpha`
    pub alpha: Option<u8>,
    /// `\1a`
    pub alpha1: Option<u8>,
    /// `\2a`
    pub alpha2: Option<u8>,
    /// `\3a`
    pub alpha3: Option<u8>,
    /// `\4a`
    pub alpha4: Option<u8>,
    /// `\fn`
    pub font_name: Option<Seq<char>>,
    /// `\b`
    pub bold: Option<bool>,
    /// `\i`
    pub italic: Option<bool>,
    /// `\u`
    pub underline: Option<bool>,
    /// `\s`
    pub strikeout: Option<bool>,
    /// `\q`
    pub wrap_style: Option<u8>,
    /// `\an`, `\a`
    pub alignment: Option<u8>,
    /// `\p`
    pub drawing_mode: Option<u8>,
    /// `\fad`, `\fade`
    pub fade: Option<FadeData>,
    /// `\k` and its kin
    pub karaoke: Option<KaraokeData>,
}

/// No override in effect.
pub open spec fn empty_tags() -> TagsModel {
    TagsModel {
        alpha: None,
        alpha1: None,
        alpha2: None,
        alpha3: None,
        alpha4: None,
        font_name: None,
        bold: None,
        italic: None,
        underline: None,
        strikeout: None,
        wrap_style: None,
        alignment: None,
        drawing_mode: None,
        fade: None,
        karaoke: None,
    }
}

impl View for IntTags {
    type V = TagsModel;

    open spec fn view(&self) -> TagsModel {
        TagsModel {
            alpha: self.alpha,
            alpha1: self.alpha1,
            alpha2: self.alpha2,
            alpha3: self.alpha3,
            alpha4: self.alpha4,
            font_name: match self.font_name {
                Some(s) => Some(s@),
                None => None,
            },
            bold: self.bold,
            italic: self.italic,
            underline: self.underline,
            strikeout: self.strikeout,
            wrap_style: self.wrap_style,
            alignment: self.alignment,
            drawing_mode: self.drawing_mode,
            fade: self.fade,
            karaoke: self.karaoke,
        }
    }
}

/// A karaoke tag of the given style and argument: its duration when the
/// argument is a `u32`.
pub open spec fn karaoke_of(args: Seq<char>, style: KaraokeStyle, t: TagsModel) -> TagsModel {
    match parse_u32(args) {
        Some(d) => TagsModel { karaoke: Some(KaraokeData { duration: d, style, start_time: None }), ..t },
        None => t,
    }
}

/// The tag names that `apply_override_tag` applies.
pub open spec fn spec_known_tag(name: Seq<char>) -> bool {
    ||| name == "alpha"@ ||| name == "1a"@ ||| name == "2a"@ ||| name == "3a"@ ||| name == "4a"@
    ||| name == "fn"@ ||| name == "b"@ ||| name == "i"@ ||| name == "u"@ ||| name == "s"@
    ||| name == "q"@ ||| name == "r"@ ||| name == "a"@ ||| name == "an"@ ||| name == "fad"@ ||| name == "fade"@
    ||| name == "p"@ ||| name == "k"@ ||| name == "kf"@ ||| name == "ko"@ ||| name == "K"@
}

/// The tag state after the tag `name` with argument `args`. A value that does
/// not parse leaves the state as it is; `\b`, `\i`, `\u`, `\s` switch on for any
/// argument but `0`; an empty `\fn` returns to the style's font; `\r` clears
/// every override; tags not listed in `spec_known_tag` change nothing here.
pub open spec fn spec_apply_tag(name: Seq<char>, args: Seq<char>, t: TagsModel) -> TagsModel {
    if name == "alpha"@ {
        match spec_parse_alpha(args) { Some(a) => TagsModel { alpha: Some(a), ..t }, None => t }
    } else if name == "1a"@ {
        match spec_parse_alpha(args) { Some(a) => TagsModel { alpha1: Some(a), ..t }, None => t }
    } else if name == "2a"@ {
        match spec_parse_alpha(args) { Some(a) => TagsModel { alpha2: Some(a), ..t }, None => t }
    } else if name == "3a"@ {
        match spec_parse_alpha(args) { Some(a) => TagsModel { alpha3: Some(a), ..t }, None => t }
    } else if name == "4a"@ {
        match spec_parse_alpha(args) { Some(a) => TagsModel { alpha4: Some(a), ..t }, None => t }
    } else if name == "fn"@ {
        TagsModel { font_name: if args.len() == 0 { None } else { Some(args) }, ..t }
    } else if name == "b"@ {
        TagsModel { bold: Some(args != "0"@), ..t }
    } else if name == "i"@ {
        TagsModel { italic: Some(args != "0"@), ..t }
    } else if name == "u"@ {
        TagsModel { underline: Some(args != "0"@), ..t }
    } else if name == "s"@ {
        TagsModel { strikeout: Some(args != "0"@), ..t }
    } else if name == "q"@ {
        match parse_u8(args) { Some(w) => TagsModel { wrap_style: Some(w), ..t }, None => t }
    } else if name == "r"@ {
        empty_tags()
    } else if name == "a"@ || name == "an"@ {
        match parse_u8(args) { Some(a) => TagsModel { alignment: Some(a), ..t }, None => t }
    } else if name == "fad"@ || name == "fade"@ {
        match spec_parse_fade_args(args) { Some(f) => TagsModel { fade: Some(f), ..t }, None => t }
    } else if name == "p"@ {
        match parse_u8(args) { Some(l) => TagsModel { drawing_mode: Some(l), ..t }, None => t }
    } else if name == "k"@ {
        karaoke_of(args, KaraokeStyle::Basic, t)
    } else if name == "kf"@ {
        karaoke_of(args, KaraokeStyle::Fill, t)
    } else if name == "ko"@ {
        karaoke_of(args, KaraokeStyle::Outline, t)
    } else if name == "K"@ {
        karaoke_of(args, KaraokeStyle::Sweep, t)
    } else {
        t
    }
}

/// `\b`, `\i`, `\u` and `\s` switch their flag on for every argument but
/// `0`, and off for `0`, leaving the other flags as they were; `\r` clears
/// every override whatever its argument.
pub proof fn lemma_flag_tags(args: Seq<char>, t: TagsModel)
    ensures
        spec_apply_tag("b"@, args, t).bold == Some(args != "0"@),
        spec_apply_tag("i"@, args, t).italic == Some(args != "0"@),
        spec_apply_tag("u"@, args, t).underline == Some(args != "0"@),
        spec_apply_tag("s"@, args, t).strikeout == Some(args != "0"@),
        spec_apply_tag("s"@, args, t).bold == t.bold,
        spec_apply_tag("s"@, args, t).italic == t.italic,
        spec_apply_tag("s"@, args, t).underline == t.underline,
        spec_apply_tag("b"@, args, t).strikeout == t.strikeout,
        spec_apply_tag("r"@, args, t) == empty_tags(),
{
    reveal_strlit("alpha");
    reveal_strlit("1a");
    reveal_strlit("2a");
    reveal_strlit("3a");
    reveal_strlit("4a");
    reveal_strlit("fn");
    reveal_strlit("b");
    reveal_strlit("i");
    reveal_strlit("u");
    reveal_strlit("s");
    reveal_strlit("q");
    reveal_strlit("r");
    let names = seq!["alpha"@, "1a"@, "2a"@, "3a"@, "4a"@, "fn"@];
    assert(names[0].len() == 5 && names[1].len() == 2 && names[2].len() == 2 && names[3].len() == 2
        && names[4].len() == 2 && names[5].len() == 2);
    assert("b"@.len() == 1 && "i"@.len() == 1 && "u"@.len() == 1 && "s"@.len() == 1 && "r"@.len() == 1);
    assert("b"@[0] == 'b' && "i"@[0] == 'i' && "u"@[0] == 'u' && "s"@[0] == 's' && "q"@[0] == 'q' && "r"@[0] == 'r');
    assert("b"@ != "i"@ && "b"@ != "u"@ && "b"@ != "s"@ && "i"@ != "u"@ && "i"@ != "s"@ && "u"@ != "s"@);
    assert("r"@ != "b"@ && "r"@ != "i"@ && "r"@ != "u"@ && "r"@ != "s"@ && "r"@ != "q"@);
}

/// Each value tag sets its own field from its argument, and only when the
/// argument reads: `\alpha` and `\1a`..`\4a` the general and per-colour
/// alphas, `\q` the wrap style, `\an` and `\a` the alignment, `\p` the
/// drawing mode, `\fn` the font name (an empty name returns to the style's),
/// `\fad` and `\fade` the fade, and `\k`, `\kf`, `\ko`, `\K` a karaoke
/// syllable of the basic, fill, outline and sweep styles.
pub proof fn lemma_value_tags(args: Seq<char>, t: TagsModel)
    ensures
        spec_apply_tag("alpha"@, args, t).alpha == (match spec_parse_alpha(args) { Some(a) => Some(a), None => t.alpha }),
        spec_apply_tag("1a"@, args, t).alpha1 == (match spec_parse_alpha(args) { Some(a) => Some(a), None => t.alpha1 }),
        spec_apply_tag("2a"@, args, t).alpha2 == (match spec_parse_alpha(args) { Some(a) => Some(a), None => t.alpha2 }),
        spec_apply_tag("3a"@, args, t).alpha3 == (match spec_parse_alpha(args) { Some(a) => Some(a), None => t.alpha3 }),
        spec_apply_tag("4a"@, args, t).alpha4 == (match spec_parse_alpha(args) { Some(a) => Some(a), None => t.alpha4 }),
        spec_apply_tag("1a"@, args, t).alpha == t.alpha,
        spec_apply_tag("3a"@, args, t).alpha1 == t.alpha1,
        spec_apply_tag("q"@, args, t).wrap_style == (match parse_u8(args) { Some(v) => Some(v), None => t.wrap_style }),
        spec_apply_tag("an"@, args, t).alignment == (match parse_u8(args) { Some(v) => Some(v), None => t.alignment }),
        spec_apply_tag("a"@, args, t).alignment == (match parse_u8(args) { Some(v) => Some(v), None => t.alignment }),
        spec_apply_tag("p"@, args, t).drawing_mode == (match parse_u8(args) { Some(v) => Some(v), None => t.drawing_mode }),
        spec_apply_tag("fn"@, args, t).font_name == (if args.len() == 0 { None } else { Some(args) }),
        spec_apply_tag("fad"@, args, t).fade == (match spec_parse_fade_args(args) { Some(f) => Some(f), None => t.fade }),
        spec_apply_tag("fade"@, args, t).fade == (match spec_parse_fade_args(args) { Some(f) => Some(f), None => t.fade }),
        parse_u32(args) matches Some(d) ==> {
            &&& spec_apply_tag("k"@, args, t).karaoke == Some(KaraokeData { duration: d, style: KaraokeStyle::Basic, start_time: None })
            &&& spec_apply_tag("kf"@, args, t).karaoke == Some(KaraokeData { duration: d, style: KaraokeStyle::Fill, start_time: None })
            &&& spec_apply_tag("ko"@, args, t).karaoke == Some(KaraokeData { duration: d, style: KaraokeStyle::Outline, start_time: None })
            &&& spec_apply_tag("K"@, args, t).karaoke == Some(KaraokeData { duration: d, style: KaraokeStyle::Sweep, start_time: None })
        },
        parse_u32(args) is None ==> spec_apply_tag("k"@, args, t).karaoke == t.karaoke,
{
    reveal_strlit("alpha");
    reveal_strlit("1a");
    reveal_strlit("2a");
    reveal_strlit("3a");
    reveal_strlit("4a");
    reveal_strlit("fn");
    reveal_strlit("b");
    reveal_strlit("i");
    reveal_strlit("u");
    reveal_strlit("s");
    reveal_strlit("q");
    reveal_strlit("r");
    reveal_strlit("a");
    reveal_strlit("an");
    reveal_strlit("fad");
    reveal_strlit("fade");
    reveal_strlit("p");
    reveal_strlit("k");
    reveal_strlit("kf");
    reveal_strlit("ko");
    reveal_strlit("K");
    assert("alpha"@.len() == 5 && "1a"@.len() == 2 && "2a"@.len() == 2 && "3a"@.len() == 2 && "4a"@.len() == 2);
    assert("fn"@.len() == 2 && "an"@.len() == 2 && "kf"@.len() == 2 && "ko"@.len() == 2);
    assert("fad"@.len() == 3 && "fade"@.len() == 4);
    assert("b"@.len() == 1 && "i"@.len() == 1 && "u"@.len() == 1 && "s"@.len() == 1 && "q"@.len() == 1);
    assert("r"@.len() == 1 && "a"@.len() == 1 && "p"@.len() == 1 && "k"@.len() == 1 && "K"@.len() == 1);
    assert("1a"@[0] == '1' && "2a"@[0] == '2' && "3a"@[0] == '3' && "4a"@[0] == '4' && "fn"@[0] == 'f');
    assert("an"@[0] == 'a' && "kf"@[0] == 'k' && "ko"@[0] == 'k' && "kf"@[1] == 'f' && "ko"@[1] == 'o');
    assert("b"@[0] == 'b' && "i"@[0] == 'i' && "u"@[0] == 'u' && "s"@[0] == 's' && "q"@[0] == 'q');
    assert("r"@[0] == 'r' && "a"@[0] == 'a' && "p"@[0] == 'p' && "k"@[0] == 'k' && "K"@[0] == 'K');
    assert("fad"@[0] == 'f' && "fad"@[1] == 'a');
}

/// The arguments of a fade tag are in the range its parser needs.
pub open spec fn tag_applies_cleanly(name: Seq<char>, args: Seq<char>) -> bool {
    name == "fad"@ || name == "fade"@ ==> fade_args_in_range(args)
}

/// The state after the tags of a split override block, in order; empty parts
/// are skipped.
pub open spec fn spec_fold_tags(parts: Seq<Seq<char>>, t: TagsModel) -> TagsModel
    decreases parts.len(),
{
    if parts.len() == 0 {
        t
    } else {
        let prev = spec_fold_tags(parts.drop_last(), t);
        let p = parts.last();
        if p.len() == 0 {
            prev
        } else {
            spec_apply_tag(spec_extract_tag(p).0, spec_extract_tag(p).1, prev)
        }
    }
}

/// The state after the override block `content`.
pub open spec fn spec_apply_block(content: Seq<char>, t: TagsModel) -> TagsModel {
    spec_fold_tags(spec_split_tags(content), t)
}

/// The state after the override blocks, in order.
pub open spec fn spec_fold_blocks(blocks: Seq<Seq<char>>, t: TagsModel) -> TagsModel
    decreases blocks.len(),
{
    if blocks.len() == 0 {
        t
    } else {
        spec_apply_block(blocks.last(), spec_fold_blocks(blocks.drop_last(), t))
    }
}

/// Every tag of the block can be read: names end on a character boundary and
/// fade arguments are in range.
pub open spec fn block_applies_cleanly(content: Seq<char>) -> bool {
    &&& content.len() <= i32::MAX
    &&& forall|k: int| 0 <= k < spec_split_tags(content).len() && #[trigger] spec_split_tags(content)[k].len() > 0 ==> {
        &&& tag_name_splits_cleanly(spec_split_tags(content)[k])
        &&& tag_applies_cleanly(spec_extract_tag(spec_split_tags(content)[k]).0,
            spec_extract_tag(spec_split_tags(content)[k]).1)
    }
}

/// Whether the characters of `v` are those of `lit`.
fn chars_are(v: &Vec<char>, lit: &str) -> (b: bool)
    ensures
        b == (v@ == lit@),
{
    let w = chars_of(lit);
    if v.len() != w.len() {
        return false;
    }
    let mut i: usize = 0;
    while i < v.len()
        invariant
            v@.len() == w@.len(),
            w@ == lit@,
            i <= v@.len(),
            forall|k: int| 0 <= k < i ==> v@[k] == w@[k],
        decreases v@.len() - i,
    {
        if v[i] != w[i] {
            return false;
        }
        i = i + 1;
    }
    assert(v@ =~= w@);
    true
}

/// `s.parse::<u8>()`
fn parse_u8_str(s: &Vec<char>) -> (r: Option<u8>)
    ensures
        r == parse_u8(s@),
{
    assert(s@.subrange(0, s@.len() as int) =~= s@);
    match parse_unsigned_range(s, 0, s.len(), 10, 255) {
        Some(v) => Some(v as u8),
        None => None,
    }
}

/// `s.parse::<u32>()`
fn parse_u32_str(s: &Vec<char>) -> (r: Option<u32>)
    ensures
        r == parse_u32(s@),
{
    assert(s@.subrange(0, s@.len() as int) =~= s@);
    parse_unsigned_range(s, 0, s.len(), 10, 0xffff_ffff)
}

impl IntTags {
    /// No override in effect.
    pub fn new() -> (t: Self)
        ensures
            t@ == empty_tags(),
    {
        IntTags {
            alpha: None,
            alpha1: None,
            alpha2: None,
            alpha3: None,
            alpha4: None,
            font_name: None,
            bold: None,
            italic: None,
            underline: None,
            strikeout: None,
            wrap_style: None,
            alignment: None,
            drawing_mode: None,
            fade: None,
            karaoke: None,
        }
    }

    /// A copy with the same values.
    pub fn duplicate(&self) -> (t: Self)
        ensures
            t@ == self@,
    {
        IntTags {
            alpha: self.alpha,
            alpha1: self.alpha1,
            alpha2: self.alpha2,
            alpha3: self.alpha3,
            alpha4: self.alpha4,
            font_name: match &self.font_name {
                Some(s) => Some(s.clone()),
                None => None,
            },
            bold: self.bold,
            italic: self.italic,
            underline: self.underline,
            strikeout: self.strikeout,
            wrap_style: self.wrap_style,
            alignment: self.alignment,
            drawing_mode: self.drawing_mode,
            fade: match &self.fade {
                Some(f) => Some(FadeData {
                    alpha_start: f.alpha_start,
                    alpha_end: f.alpha_end,
                    time_start: f.time_start,
                    time_end: f.time_end,
                    alpha_middle: f.alpha_middle,
                    time_fade_in: f.time_fade_in,
                    time_fade_out: f.time_fade_out,
                }),
                None => None,
            },
            karaoke: match &self.karaoke {
                Some(k) => Some(KaraokeData {
                    duration: k.duration,
                    style: match k.style {
                        KaraokeStyle::Basic => KaraokeStyle::Basic,
                        KaraokeStyle::Fill => KaraokeStyle::Fill,
                        KaraokeStyle::Outline => KaraokeStyle::Outline,
                        KaraokeStyle::Sweep => KaraokeStyle::Sweep,
                    },
                    start_time: k.start_time,
                }),
                None => None,
            },
        }
    }
}

/// Record a karaoke tag of the given style.
fn set_karaoke(args: &Vec<char>, style: KaraokeStyle, tags: &mut IntTags)
    ensures
        final(tags)@ == karaoke_of(args@, style, old(tags)@),
{
    if let Some(d) = parse_u32_str(args) {
        tags.karaoke = Some(KaraokeData { duration: d, style, start_time: None });
    }
}

/// Apply one override tag to the tag state. Returns whether the tag is one of
/// those this function applies (see `spec_known_tag`); other tags leave the
/// state unchanged.
pub fn apply_override_tag(name: &str, args: &str, tags: &mut IntTags) -> (handled: bool)
    requires
        tag_applies_cleanly(name@, args@),
    ensures
        final(tags)@ == spec_apply_tag(name@, args@, old(tags)@),
        handled == spec_known_tag(name@),
        name@ == "b"@ ==> final(tags).bold == Some(args@ != "0"@),
        name@ == "i"@ ==> final(tags).italic == Some(args@ != "0"@),
        name@ == "u"@ ==> final(tags).underline == Some(args@ != "0"@),
        name@ == "s"@ ==> final(tags).strikeout == Some(args@ != "0"@),
{
    proof {
        lemma_flag_tags(args@, old(tags)@);
    }
    let n = chars_of(name);
    let a = chars_of(args);
    if chars_are(&n, "alpha") {
        if let Some(v) = parse_alpha(args) {
            tags.alpha = Some(v);
        }
    } else if chars_are(&n, "1a") {
        if let Some(v) = parse_alpha(args) {
            tags.alpha1 = Some(v);
        }
    } else if chars_are(&n, "2a") {
        if let Some(v) = parse_alpha(args) {
            tags.alpha2 = Some(v);
        }
    } else if chars_are(&n, "3a") {
        if let Some(v) = parse_alpha(args) {
            tags.alpha3 = Some(v);
        }
    } else if chars_are(&n, "4a") {
        if let Some(v) = parse_alpha(args) {
            tags.alpha4 = Some(v);
        }
    } else if chars_are(&n, "fn") {
        if a.len() == 0 {
            tags.font_name = None;
        } else {
            tags.font_name = Some(String::from_str(args));
        }
    } else if chars_are(&n, "b") {
        tags.bold = Some(!chars_are(&a, "0"));
    } else if chars_are(&n, "i") {
        tags.italic = Some(!chars_are(&a, "0"));
    } else if chars_are(&n, "u") {
        tags.underline = Some(!chars_are(&a, "0"));
    } else if chars_are(&n, "s") {
        tags.strikeout = Some(!chars_are(&a, "0"));
    } else if chars_are(&n, "q") {
        if let Some(w) = parse_u8_str(&a) {
            tags.wrap_style = Some(w);
        }
    } else if chars_are(&n, "r") {
        *tags = IntTags::new();
    } else if chars_are(&n, "a") || chars_are(&n, "an") {
        if let Some(v) = parse_u8_str(&a) {
            tags.alignment = Some(v);
        }
    } else if chars_are(&n, "fad") || chars_are(&n, "fade") {
        if let Some(f) = parse_fade_args(args) {
            tags.fade = Some(f);
        }
    } else if chars_are(&n, "p") {
        if let Some(l) = parse_u8_str(&a) {
            tags.drawing_mode = Some(l);
        }
    } else if chars_are(&n, "k") {
        set_karaoke(&a, KaraokeStyle::Basic, tags);
    } else if chars_are(&n, "kf") {
        set_karaoke(&a, KaraokeStyle::Fill, tags);
    } else if chars_are(&n, "ko") {
        set_karaoke(&a, KaraokeStyle::Outline, tags);
    } else if chars_are(&n, "K") {
        set_karaoke(&a, KaraokeStyle::Sweep, tags);
    } else {
        return false;
    }
    true
}

/// Apply the tags of one override block (the text between `{` and `}`), in
/// order, to the tag state.
pub fn apply_tag_block(content: &str, tags: &mut IntTags)
    requires
        block_applies_cleanly(content@),
    ensures
        final(tags)@ == spec_apply_block(content@, old(tags)@),
{
    let parts = split_tags_carefully(content);
    let ghost ps = spec_split_tags(content@);
    proof {
        assert(parts@.map_values(|p: String| p@).len() == ps.len());
    }
    let mut k: usize = 0;
    while k < parts.len()
        invariant
            parts@.map_values(|p: String| p@) == ps,
            ps == spec_split_tags(content@),
            block_applies_cleanly(content@),
            k <= parts@.len(),
            tags@ == spec_fold_tags(ps.take(k as int), old(tags)@),
        decreases parts@.len() - k,
    {
        let part = parts[k].as_str();
        proof {
            assert(ps[k as int] == parts@[k as int]@);
            assert(ps.take(k + 1).drop_last() =~= ps.take(k as int));
            assert(ps.take(k + 1).last() == ps[k as int]);
        }
        if !part.is_empty() {
            proof {
                assert(spec_split_tags(content@)[k as int].len() > 0);
            }
            let (name, args) = extract_tag_name_and_args(part);
            apply_override_tag(name, args, tags);
        }
        k = k + 1;
    }
    assert(ps.take(ps.len() as int) =~= ps);
}

} // verus!
