//! Splitting event text into runs that share the same override tags, and
//! runs into logical lines.
use vstd::prelude::*;
use crate::error::RenderError;
use crate::strings::split_on;
use crate::tag_apply::{apply_tag_block, block_applies_cleanly, empty_tags, spec_fold_blocks, IntTags};
use crate::text::{
    byte_offset, char_len_utf8, chars_of, contains_chars, lemma_byte_offset_monotone, lemma_byte_offset_step,
    lemma_utf8_len_is_byte_len, push_char, seq_contains, string_from_range, utf8_width,
};

verus! {

/// A text run with its own formatting.
///
/// `tags` counts the override blocks of the event that are in effect for the
/// run, and `formatting` holds the integer, flag and text overrides that those
/// blocks set, applied in order.
#[derive(Debug)]
pub struct TextSegment {
    /// The plain text content
    pub text: String,
    /// Starting byte position in the original text
    pub start: usize,
    /// Ending byte position in the original text
    pub end: usize,
    /// Number of override blocks in effect for this run
    pub tags: usize,
    /// Overrides in effect for this run
    pub formatting: IntTags,
}

/// A run as plain values: text, start, end and number of blocks in effect.
pub type SegModel = (Seq<char>, int, int, nat);

/// The plain values of a run.
pub open spec fn seg_view(t: TextSegment) -> SegModel {
    (t.text@, t.start as int, t.end as int, t.tags as nat)
}

/// State while scanning event text.
pub struct ScanState {
    /// Finished runs
    pub segs: Seq<SegModel>,
    /// Contents of the override blocks seen so far
    pub blocks: Seq<Seq<char>>,
    /// Text of the run being built
    pub cur: Seq<char>,
    /// Start byte of the run being built
    pub last_pos: int,
    /// Inside an override block
    pub in_tag: bool,
    /// Byte position of the `{` opening the current block
    pub tag_start: int,
    /// Character index of that `{`
    pub tag_start_idx: int,
    /// Brace nesting depth inside the block
    pub depth: int,
}

/// The initial scanning state.
pub open spec fn scan_init() -> ScanState {
    ScanState {
        segs: Seq::empty(),
        blocks: Seq::empty(),
        cur: Seq::empty(),
        last_pos: 0,
        in_tag: false,
        tag_start: 0,
        tag_start_idx: 0,
        depth: 0,
    }
}

/// The override block content holds a karaoke tag.
pub open spec fn block_has_karaoke(content: Seq<char>) -> bool {
    seq_contains(content, "\\k"@) || seq_contains(content, "\\K"@)
}

/// One scanning step at character `i` (which lies in `s`): the index where
/// scanning continues and the new state. Outside blocks, `\N` and `\n` become a
/// newline, `\h` a no-break space; other escapes are kept.
pub open spec fn scan_step(s: Seq<char>, i: int, st: ScanState) -> (int, ScanState) {
    let ch = s[i];
    let pos = byte_offset(s, i) as int;
    if ch == '{' {
        if !st.in_tag {
            let st1 = if st.cur.len() > 0 {
                ScanState {
                    segs: st.segs.push((st.cur, st.last_pos, pos, st.blocks.len())),
                    cur: Seq::empty(),
                    last_pos: pos,
                    ..st
                }
            } else {
                st
            };
            (i + 1, ScanState { in_tag: true, tag_start: pos, tag_start_idx: i, depth: 1, ..st1 })
        } else {
            (i + 1, ScanState { depth: st.depth + 1, ..st })
        }
    } else if ch == '}' && st.in_tag {
        let d = st.depth - 1;
        if d == 0 {
            let content = s.subrange(st.tag_start_idx + 1, i);
            let st1 = if block_has_karaoke(content) && st.cur.len() > 0 {
                ScanState {
                    segs: st.segs.push((st.cur, st.last_pos, st.tag_start, st.blocks.len())),
                    cur: Seq::empty(),
                    ..st
                }
            } else {
                st
            };
            (i + 1, ScanState { blocks: st1.blocks.push(content), in_tag: false, last_pos: pos + 1, depth: d, ..st1 })
        } else {
            (i + 1, ScanState { depth: d, ..st })
        }
    } else if !st.in_tag {
        if ch == '\\' {
            if i + 1 < s.len() {
                let next = s[i + 1];
                let cur = if next == 'N' || next == 'n' {
                    st.cur.push('\n')
                } else if next == 'h' {
                    st.cur.push('\u{a0}')
                } else {
                    st.cur.push(ch).push(next)
                };
                (i + 2, ScanState { cur, ..st })
            } else {
                (i + 1, ScanState { cur: st.cur.push(ch), ..st })
            }
        } else {
            (i + 1, ScanState { cur: st.cur.push(ch), ..st })
        }
    } else {
        (i + 1, st)
    }
}

/// Scan `s` from character `i` on, in state `st`.
pub open spec fn scan(s: Seq<char>, i: int, st: ScanState) -> ScanState
    decreases s.len() - i,
{
    if i < 0 || i >= s.len() {
        st
    } else {
        let (j, st2) = scan_step(s, i, st);
        if i < j { scan(s, j, st2) } else { st2 }
    }
}

/// Runs of `s`: the scanned runs plus the remaining text (also when no run was
/// produced at all), which ends at the end of the text.
pub open spec fn spec_segments(s: Seq<char>) -> Seq<SegModel> {
    let st = scan(s, 0, scan_init());
    if st.cur.len() > 0 || st.segs.len() == 0 {
        st.segs.push((st.cur, st.last_pos, byte_offset(s, s.len() as int) as int, st.blocks.len()))
    } else {
        st.segs
    }
}

/// Contents of the override blocks of `s`, in order.
pub open spec fn spec_tag_blocks(s: Seq<char>) -> Seq<Seq<char>> {
    scan(s, 0, scan_init()).blocks
}

/// Every override block of `s` can be applied.
pub open spec fn blocks_apply_cleanly(s: Seq<char>) -> bool {
    forall|k: int| 0 <= k < spec_tag_blocks(s).len() ==> block_applies_cleanly(#[trigger] spec_tag_blocks(s)[k])
}

/// Process text with inline tag changes into runs. Returns the runs and the
/// contents of the override blocks, in order; a run's `tags` counts the blocks
/// applied before it, and its `formatting` is what those blocks set.
pub fn segment_text_with_tags(text: &str) -> (r: Result<(Vec<TextSegment>, Vec<String>), RenderError>)
    requires
        text@.len() <= i32::MAX,
        blocks_apply_cleanly(text@),
    ensures
        r matches Ok((segs, blocks)) && {
            &&& segs@.map_values(|t: TextSegment| seg_view(t)) == spec_segments(text@)
            &&& blocks@.map_values(|b: String| b@) == spec_tag_blocks(text@)
            &&& forall|k: int| 0 <= k < segs@.len() ==> (#[trigger] segs@[k]).formatting@ == spec_fold_blocks(
                spec_tag_blocks(text@).take(segs@[k].tags as int), empty_tags())
        },
{
    let v = chars_of(text);
    let ghost s = text@;
    let n = v.len();
    let bytes = text.as_bytes();
    let total = bytes.len();
    proof {
        lemma_utf8_len_is_byte_len(s);
        assert(s.take(s.len() as int) =~= s);
    }

    let mut segments: Vec<TextSegment> = Vec::new();
    let mut blocks: Vec<String> = Vec::new();
    let mut current_text = String::new();
    let mut last_pos: usize = 0;
    let mut pos: usize = 0;
    let mut in_tag = false;
    let mut tag_start: usize = 0;
    let mut tag_start_idx: usize = 0;
    let mut brace_depth: i32 = 0;
    let mut i: usize = 0;
    assert(segments@.map_values(|t: TextSegment| seg_view(t)) =~= Seq::<SegModel>::empty());
    assert(blocks@.map_values(|b: String| b@) =~= Seq::<Seq<char>>::empty());
    assert(current_text@ =~= Seq::<char>::empty());

    while i < n
        invariant
            n == s.len(),
            v@ == s,
            s.len() <= i32::MAX,
            total == byte_offset(s, s.len() as int),
            i <= n,
            pos == byte_offset(s, i as int),
            0 <= brace_depth <= i,
            in_tag == (brace_depth > 0),
            last_pos <= pos,
            tag_start <= pos,
            tag_start_idx < i || !in_tag,
            scan(s, 0, scan_init()) == scan(s, i as int, ScanState {
                segs: segments@.map_values(|t: TextSegment| seg_view(t)),
                blocks: blocks@.map_values(|b: String| b@),
                cur: current_text@,
                last_pos: last_pos as int,
                in_tag,
                tag_start: tag_start as int,
                tag_start_idx: tag_start_idx as int,
                depth: brace_depth as int,
            }),
        decreases n - i,
    {
        let ghost st = ScanState {
            segs: segments@.map_values(|t: TextSegment| seg_view(t)),
            blocks: blocks@.map_values(|b: String| b@),
            cur: current_text@,
            last_pos: last_pos as int,
            in_tag,
            tag_start: tag_start as int,
            tag_start_idx: tag_start_idx as int,
            depth: brace_depth as int,
        };
        proof {
            lemma_byte_offset_step(s, i as int);
            lemma_byte_offset_monotone(s, i as int + 1, s.len() as int);
        }
        let ghost i0 = i as int;
        let ghost segs0 = st.segs;
        let ghost blocks0 = st.blocks;
        let ch = v[i];
        let w = char_len_utf8(ch);
        if ch == '{' {
            if !in_tag {
                if !current_text.as_str().is_empty() {
                    let ghost seg = (current_text@, last_pos as int, pos as int, blocks@.len());
                    segments.push(TextSegment { text: current_text, start: last_pos, end: pos, tags: blocks.len(), formatting: IntTags::new() });
                    assert(segments@.map_values(|t: TextSegment| seg_view(t)) =~= segs0.push(seg));
                    current_text = String::new();
                    last_pos = pos;
                }
                in_tag = true;
                tag_start = pos;
                tag_start_idx = i;
                brace_depth = 1;
            } else {
                brace_depth = brace_depth + 1;
            }
            pos = pos + w;
            i = i + 1;
        } else if ch == '}' && in_tag {
            brace_depth = brace_depth - 1;
            if brace_depth == 0 {
                let content = string_from_range(&v, tag_start_idx + 1, i);
                let content_chars = chars_of(content.as_str());
                let k_lower = chars_of("\\k");
                let k_upper = chars_of("\\K");
                let has_karaoke = contains_chars(&content_chars, &k_lower) || contains_chars(&content_chars, &k_upper);
                if has_karaoke && !current_text.as_str().is_empty() {
                    let ghost seg = (current_text@, last_pos as int, tag_start as int, blocks@.len());
                    segments.push(TextSegment { text: current_text, start: last_pos, end: tag_start, tags: blocks.len(), formatting: IntTags::new() });
                    assert(segments@.map_values(|t: TextSegment| seg_view(t)) =~= segs0.push(seg));
                    current_text = String::new();
                }
                let ghost cv = content@;
                blocks.push(content);
                assert(blocks@.map_values(|b: String| b@) =~= blocks0.push(cv));
                in_tag = false;
                last_pos = pos + 1;
            }
            pos = pos + w;
            i = i + 1;
        } else if !in_tag {
            if ch == '\\' {
                if i + 1 < n {
                    let next = v[i + 1];
                    proof {
                        lemma_byte_offset_step(s, i as int + 1);
                        lemma_byte_offset_monotone(s, i as int + 2, s.len() as int);
                    }
                    let nw = char_len_utf8(next);
                    if next == 'N' || next == 'n' {
                        push_char(&mut current_text, '\n');
                    } else if next == 'h' {
                        push_char(&mut current_text, '\u{a0}');
                    } else {
                        push_char(&mut current_text, ch);
                        push_char(&mut current_text, next);
                    }
                    pos = pos + nw + w;
                    i = i + 2;
                } else {
                    push_char(&mut current_text, ch);
                    pos = pos + w;
                    i = i + 1;
                }
            } else {
                push_char(&mut current_text, ch);
                pos = pos + w;
                i = i + 1;
            }
        } else {
            pos = pos + w;
            i = i + 1;
        }
        assert(scan(s, i0, st) == scan(s, i as int, ScanState {
            segs: segments@.map_values(|t: TextSegment| seg_view(t)),
            blocks: blocks@.map_values(|b: String| b@),
            cur: current_text@,
            last_pos: last_pos as int,
            in_tag,
            tag_start: tag_start as int,
            tag_start_idx: tag_start_idx as int,
            depth: brace_depth as int,
        }));
    }

    let ghost fin = scan(s, 0, scan_init());
    assert(scan(s, n as int, fin) == fin);
    if !current_text.as_str().is_empty() || segments.len() == 0 {
        let ghost segs0 = segments@.map_values(|t: TextSegment| seg_view(t));
        let ghost seg = (current_text@, last_pos as int, total as int, blocks@.len());
        segments.push(TextSegment { text: current_text, start: last_pos, end: total, tags: blocks.len(), formatting: IntTags::new() });
        assert(segments@.map_values(|t: TextSegment| seg_view(t)) =~= segs0.push(seg));
    }
    proof {
        lemma_segment_tags_ordered(s);
        assert forall|b: int| 0 <= b < blocks@.len() implies block_applies_cleanly(#[trigger] blocks@[b]@) by {
            assert(blocks@.map_values(|b: String| b@)[b] == blocks@[b]@);
            assert(block_applies_cleanly(spec_tag_blocks(s)[b]));
        }
    }
    let formatted = apply_run_tags(segments, &blocks);
    Ok((formatted, blocks))
}

/// Give each run the overrides of the blocks in effect for it.
fn apply_run_tags(segments: Vec<TextSegment>, blocks: &Vec<String>) -> (out: Vec<TextSegment>)
    requires
        tags_ordered(segments@.map_values(|t: TextSegment| seg_view(t)), blocks@.len()),
        forall|b: int| 0 <= b < blocks@.len() ==> block_applies_cleanly(#[trigger] blocks@[b]@),
    ensures
        out@.map_values(|t: TextSegment| seg_view(t)) == segments@.map_values(|t: TextSegment| seg_view(t)),
        forall|k: int| 0 <= k < out@.len() ==> (#[trigger] out@[k]).formatting@ == spec_fold_blocks(
            blocks@.map_values(|b: String| b@).take(out@[k].tags as int), empty_tags()),
{
    let ghost segs = segments@.map_values(|t: TextSegment| seg_view(t));
    let ghost bv = blocks@.map_values(|b: String| b@);
    let mut out: Vec<TextSegment> = Vec::new();
    let mut state = IntTags::new();
    let mut applied: usize = 0;
    let mut k: usize = 0;
    assert(bv.take(0) =~= Seq::<Seq<char>>::empty());
    while k < segments.len()
        invariant
            segs == segments@.map_values(|t: TextSegment| seg_view(t)),
            bv == blocks@.map_values(|b: String| b@),
            tags_ordered(segs, blocks@.len()),
            forall|b: int| 0 <= b < blocks@.len() ==> block_applies_cleanly(#[trigger] blocks@[b]@),
            k <= segments@.len(),
            applied <= blocks@.len(),
            k == 0 ==> applied == 0,
            k > 0 ==> applied == segments@[k - 1].tags,
            state@ == spec_fold_blocks(bv.take(applied as int), empty_tags()),
            out@.map_values(|t: TextSegment| seg_view(t)) == segs.take(k as int),
            forall|j: int| 0 <= j < out@.len() ==> (#[trigger] out@[j]).formatting@ == spec_fold_blocks(
                bv.take(out@[j].tags as int), empty_tags()),
        decreases segments@.len() - k,
    {
        let target = segments[k].tags;
        proof {
            assert(segs[k as int] == seg_view(segments@[k as int]));
            if k > 0 {
                assert(segs[k - 1] == seg_view(segments@[k - 1]));
                assert(segs[k - 1].3 <= segs[k as int].3);
            }
            assert(segs[k as int].3 <= blocks@.len());
        }
        while applied < target
            invariant
                bv == blocks@.map_values(|b: String| b@),
                forall|b: int| 0 <= b < blocks@.len() ==> block_applies_cleanly(#[trigger] blocks@[b]@),
                applied <= target <= blocks@.len(),
                state@ == spec_fold_blocks(bv.take(applied as int), empty_tags()),
            decreases target - applied,
        {
            proof {
                assert(bv[applied as int] == blocks@[applied as int]@);
                assert(bv.take(applied + 1).drop_last() =~= bv.take(applied as int));
                assert(bv.take(applied + 1).last() == bv[applied as int]);
            }
            apply_tag_block(blocks[applied].as_str(), &mut state);
            applied = applied + 1;
        }
        let seg = &segments[k];
        let ghost out0 = out@.map_values(|t: TextSegment| seg_view(t));
        let item = TextSegment {
            text: seg.text.clone(),
            start: seg.start,
            end: seg.end,
            tags: seg.tags,
            formatting: state.duplicate(),
        };
        out.push(item);
        proof {
            assert(out@.map_values(|t: TextSegment| seg_view(t)) =~= out0.push(seg_view(item)));
            assert(segs.take(k + 1) =~= segs.take(k as int).push(segs[k as int]));
        }
        k = k + 1;
    }
    assert(segs.take(segments@.len() as int) =~= segs);
    out
}

} // verus!

verus! {

/// State while splitting runs into lines: finished lines and the line being built.
pub struct LineState {
    /// Finished lines
    pub lines: Seq<Seq<SegModel>>,
    /// Runs of the line being built
    pub cur: Seq<SegModel>,
}

/// Add piece `part` of a run (`first` for the piece before the first newline);
/// a later piece starts a new line when the current line has runs.
pub open spec fn add_piece(st: LineState, part: Seq<char>, first: bool, seg: SegModel) -> LineState {
    let st1 = if !first && st.cur.len() > 0 { LineState { lines: st.lines.push(st.cur), cur: Seq::empty() } } else { st };
    if part.len() > 0 { LineState { lines: st1.lines, cur: st1.cur.push((part, seg.1, seg.2, seg.3)) } } else { st1 }
}

/// Add the first `j` newline-separated pieces of a run.
pub open spec fn add_pieces(st: LineState, parts: Seq<Seq<char>>, j: nat, seg: SegModel) -> LineState
    decreases j,
{
    if j == 0 { st } else { add_piece(add_pieces(st, parts, (j - 1) as nat, seg), parts[j - 1], j == 1, seg) }
}

/// Add one run: empty runs are skipped, others are split at newlines.
pub open spec fn add_run(st: LineState, seg: SegModel) -> LineState {
    if seg.0.len() == 0 {
        st
    } else {
        let parts = split_on(seg.0, '\n');
        add_pieces(st, parts, parts.len(), seg)
    }
}

/// State after the first `k` runs.
pub open spec fn lines_run(segs: Seq<SegModel>, k: nat) -> LineState
    decreases k,
{
    if k == 0 { LineState { lines: Seq::empty(), cur: Seq::empty() } } else { add_run(lines_run(segs, (k - 1) as nat), segs[k - 1]) }
}

/// The logical lines of a run sequence: runs split at newlines, pieces keeping
/// their run's positions and tags, empty pieces dropped, empty lines omitted.
pub open spec fn spec_logical_lines(segs: Seq<SegModel>) -> Seq<Seq<SegModel>> {
    let st = lines_run(segs, segs.len());
    if st.cur.len() > 0 { st.lines.push(st.cur) } else { st.lines }
}

/// The plain values of a line of runs.
pub open spec fn line_view(l: Vec<TextSegment>) -> Seq<SegModel> {
    l@.map_values(|t: TextSegment| seg_view(t))
}

/// The piece `p` carries the position, block count and overrides of one of
/// the runs `segs`.
pub open spec fn piece_of(p: TextSegment, segs: Seq<TextSegment>) -> bool {
    exists|k: int| 0 <= k < segs.len() && {
        &&& (#[trigger] segs[k]).start == p.start
        &&& segs[k].end == p.end
        &&& segs[k].tags == p.tags
        &&& segs[k].formatting@ == p.formatting@
    }
}

/// Split an event's tagged runs into logical lines on explicit newlines,
/// preserving per-run positions and tags.
pub fn split_into_logical_lines(segments: Vec<TextSegment>) -> (lines: Vec<Vec<TextSegment>>)
    ensures
        lines@.map_values(|l: Vec<TextSegment>| line_view(l)) == spec_logical_lines(segments@.map_values(|t: TextSegment| seg_view(t))),
        forall|l: int, q: int| 0 <= l < lines@.len() && 0 <= q < lines@[l]@.len()
            ==> piece_of(#[trigger] lines@[l]@[q], segments@),
{
    let ghost segs = segments@.map_values(|t: TextSegment| seg_view(t));
    let mut logical_lines: Vec<Vec<TextSegment>> = Vec::new();
    let mut current: Vec<TextSegment> = Vec::new();
    let mut k: usize = 0;
    let n = segments.len();
    assert(logical_lines@.map_values(|l: Vec<TextSegment>| line_view(l)) =~= Seq::<Seq<SegModel>>::empty());
    assert(line_view(current) =~= Seq::<SegModel>::empty());
    while k < n
        invariant
            n == segments@.len(),
            segs == segments@.map_values(|t: TextSegment| seg_view(t)),
            k <= n,
            lines_run(segs, k as nat) == (LineState {
                lines: logical_lines@.map_values(|l: Vec<TextSegment>| line_view(l)),
                cur: line_view(current),
            }),
            forall|l: int, q: int| 0 <= l < logical_lines@.len() && 0 <= q < logical_lines@[l]@.len()
                ==> piece_of(#[trigger] logical_lines@[l]@[q], segments@),
            forall|q: int| 0 <= q < current@.len() ==> piece_of(#[trigger] current@[q], segments@),
        decreases n - k,
    {
        let seg = &segments[k];
        let ghost sv = segs[k as int];
        assert(sv == seg_view(segments@[k as int]));
        if !seg.text.as_str().is_empty() {
            let v = chars_of(seg.text.as_str());
            assert(v@.subrange(0, v@.len() as int) =~= v@);
            let ranges = crate::strings::split_ranges(&v, 0, v.len(), '\n');
            let ghost parts = split_on(sv.0, '\n');
            let mut j: usize = 0;
            while j < ranges.len()
                invariant
                    v@ == sv.0,
                    sv == seg_view(*seg),
                    ranges@.len() == parts.len(),
                    parts == split_on(sv.0, '\n'),
                    forall|q: int| 0 <= q < ranges@.len() ==> {
                        &&& 0 <= (#[trigger] ranges@[q]).0 <= ranges@[q].1 <= v@.len()
                        &&& v@.subrange(ranges@[q].0 as int, ranges@[q].1 as int) == parts[q]
                    },
                    j <= ranges@.len(),
                    add_pieces(lines_run(segs, k as nat), parts, j as nat, sv) == (LineState {
                        lines: logical_lines@.map_values(|l: Vec<TextSegment>| line_view(l)),
                        cur: line_view(current),
                    }),
                    k < segments@.len(),
                    *seg == segments@[k as int],
                    forall|l: int, q: int| 0 <= l < logical_lines@.len() && 0 <= q < logical_lines@[l]@.len()
                        ==> piece_of(#[trigger] logical_lines@[l]@[q], segments@),
                    forall|q: int| 0 <= q < current@.len() ==> piece_of(#[trigger] current@[q], segments@),
                decreases ranges@.len() - j,
            {
                let ghost lines0 = logical_lines@.map_values(|l: Vec<TextSegment>| line_view(l));
                let ghost cur0 = line_view(current);
                if j > 0 && current.len() > 0 {
                    let ghost curv = current@;
                    let ghost ll0 = logical_lines@;
                    logical_lines.push(current);
                    current = Vec::new();
                    assert(logical_lines@.map_values(|l: Vec<TextSegment>| line_view(l)) =~= lines0.push(cur0));
                    assert(line_view(current) =~= Seq::<SegModel>::empty());
                    assert forall|l: int, q: int| 0 <= l < logical_lines@.len() && 0 <= q < logical_lines@[l]@.len()
                        implies piece_of(#[trigger] logical_lines@[l]@[q], segments@) by {
                        if l < ll0.len() {
                            assert(logical_lines@[l] == ll0[l]);
                        } else {
                            assert(logical_lines@[l]@ == curv);
                        }
                    }
                }
                let (lo, hi) = ranges[j];
                if lo < hi {
                    let ghost cur1 = line_view(current);
                    let piece = string_from_range(&v, lo, hi);
                    let ghost c0 = current@;
                    let item = TextSegment { text: piece, start: seg.start, end: seg.end, tags: seg.tags, formatting: seg.formatting.duplicate() };
                    current.push(item);
                    assert(line_view(current) =~= cur1.push((parts[j as int], sv.1, sv.2, sv.3)));
                    assert forall|q: int| 0 <= q < current@.len() implies piece_of(#[trigger] current@[q], segments@) by {
                        if q < c0.len() {
                            assert(current@[q] == c0[q]);
                        } else {
                            assert(current@[q] == item);
                            assert(segments@[k as int].start == item.start);
                        }
                    }
                }
                j = j + 1;
            }
        }
        k = k + 1;
    }
    if current.len() > 0 {
        let ghost lines0 = logical_lines@.map_values(|l: Vec<TextSegment>| line_view(l));
        let ghost cur0 = line_view(current);
        let ghost curv = current@;
        let ghost ll0 = logical_lines@;
        logical_lines.push(current);
        assert(logical_lines@.map_values(|l: Vec<TextSegment>| line_view(l)) =~= lines0.push(cur0));
        assert forall|l: int, q: int| 0 <= l < logical_lines@.len() && 0 <= q < logical_lines@[l]@.len()
            implies piece_of(#[trigger] logical_lines@[l]@[q], segments@) by {
            if l < ll0.len() {
                assert(logical_lines@[l] == ll0[l]);
            } else {
                assert(logical_lines@[l]@ == curv);
            }
        }
    }
    logical_lines
}

} // verus!

verus! {

/// Runs record nondecreasing block counts, none above the blocks seen.
pub open spec fn tags_ordered(segs: Seq<SegModel>, blocks: nat) -> bool {
    &&& forall|k: int| 0 <= k < segs.len() ==> (#[trigger] segs[k]).3 <= blocks
    &&& forall|j: int, k: int| 0 <= j < k < segs.len() ==> (#[trigger] segs[j]).3 <= (#[trigger] segs[k]).3
}

proof fn lemma_step_keeps_tags_ordered(s: Seq<char>, i: int, st: ScanState)
    requires
        0 <= i < s.len(),
        tags_ordered(st.segs, st.blocks.len()),
    ensures
        tags_ordered(scan_step(s, i, st).1.segs, scan_step(s, i, st).1.blocks.len()),
        scan_step(s, i, st).0 > i,
{
}

proof fn lemma_scan_keeps_tags_ordered(s: Seq<char>, i: int, st: ScanState)
    requires
        tags_ordered(st.segs, st.blocks.len()),
    ensures
        tags_ordered(scan(s, i, st).segs, scan(s, i, st).blocks.len()),
    decreases s.len() - i,
{
    if 0 <= i < s.len() {
        lemma_step_keeps_tags_ordered(s, i, st);
        let (j, st2) = scan_step(s, i, st);
        lemma_scan_keeps_tags_ordered(s, j, st2);
    }
}

/// Runs come in order of the tags applied to them: the number of override
/// blocks in effect never decreases from one run to the next, and never
/// exceeds the number of blocks in the text.
pub proof fn lemma_segment_tags_ordered(s: Seq<char>)
    ensures
        tags_ordered(spec_segments(s), spec_tag_blocks(s).len()),
        spec_segments(s).len() >= 1,
{
    lemma_scan_keeps_tags_ordered(s, 0, scan_init());
}

/// The line state holds only non-empty lines of non-empty, newline-free runs.
pub open spec fn lines_clean(st: LineState) -> bool {
    &&& forall|l: int| 0 <= l < st.lines.len() ==> (#[trigger] st.lines[l]).len() > 0
    &&& forall|l: int, k: int| 0 <= l < st.lines.len() && 0 <= k < st.lines[l].len()
        ==> (#[trigger] st.lines[l][k]).0.len() > 0 && !st.lines[l][k].0.contains('\n')
    &&& forall|k: int| 0 <= k < st.cur.len() ==> (#[trigger] st.cur[k]).0.len() > 0 && !st.cur[k].0.contains('\n')
}

/// No piece of a split contains the separator.
pub proof fn lemma_split_pieces_free_of_separator(s: Seq<char>, sep: char)
    ensures
        forall|k: int| 0 <= k < split_on(s, sep).len() ==> !(#[trigger] split_on(s, sep)[k]).contains(sep),
        split_on(s, sep).len() >= 1,
    decreases s.len(),
{
    if s.len() > 0 {
        lemma_split_pieces_free_of_separator(s.drop_last(), sep);
        let rest = split_on(s.drop_last(), sep);
        if s.last() != sep {
            let last = rest.last().push(s.last());
            assert forall|k: int| 0 <= k < split_on(s, sep).len() implies !(#[trigger] split_on(s, sep)[k]).contains(sep) by {
                if k == rest.len() - 1 {
                    assert(!rest.last().contains(sep));
                    if last.contains(sep) {
                        let t = choose|t: int| 0 <= t < last.len() && last[t] == sep;
                        if t < rest.last().len() {
                            assert(rest.last()[t] == sep);
                        }
                    }
                }
            }
        } else {
            assert forall|k: int| 0 <= k < split_on(s, sep).len() implies !(#[trigger] split_on(s, sep)[k]).contains(sep) by {
                if k < rest.len() {
                } else {
                    assert(split_on(s, sep)[k] =~= Seq::<char>::empty());
                }
            }
        }
    } else {
        assert(split_on(s, sep)[0] =~= Seq::<char>::empty());
    }
}

proof fn lemma_add_pieces_clean(st: LineState, parts: Seq<Seq<char>>, j: nat, seg: SegModel)
    requires
        lines_clean(st),
        j <= parts.len(),
        forall|k: int| 0 <= k < parts.len() ==> !(#[trigger] parts[k]).contains('\n'),
    ensures
        lines_clean(add_pieces(st, parts, j, seg)),
    decreases j,
{
    if j > 0 {
        lemma_add_pieces_clean(st, parts, (j - 1) as nat, seg);
        assert(!parts[j - 1].contains('\n'));
    }
}

proof fn lemma_lines_run_clean(segs: Seq<SegModel>, k: nat)
    requires
        k <= segs.len(),
    ensures
        lines_clean(lines_run(segs, k)),
    decreases k,
{
    if k > 0 {
        lemma_lines_run_clean(segs, (k - 1) as nat);
        let seg = segs[k - 1];
        if seg.0.len() > 0 {
            lemma_split_pieces_free_of_separator(seg.0, '\n');
            let parts = split_on(seg.0, '\n');
            lemma_add_pieces_clean(lines_run(segs, (k - 1) as nat), parts, parts.len(), seg);
        }
    }
}

/// Every logical line has at least one run, and every run of a line has
/// non-empty text without a newline.
pub proof fn lemma_logical_lines_clean(segs: Seq<SegModel>)
    ensures
        forall|l: int| 0 <= l < spec_logical_lines(segs).len() ==> (#[trigger] spec_logical_lines(segs)[l]).len() > 0,
        forall|l: int, k: int| 0 <= l < spec_logical_lines(segs).len() && 0 <= k < spec_logical_lines(segs)[l].len()
            ==> (#[trigger] spec_logical_lines(segs)[l][k]).0.len() > 0
                && !spec_logical_lines(segs)[l][k].0.contains('\n'),
{
    lemma_lines_run_clean(segs, segs.len());
}

/// Scanning text free of braces and backslashes outside a block only adds
/// its characters to the run being built.
proof fn lemma_scan_plain(s: Seq<char>, i: int, st: ScanState)
    requires
        0 <= i <= s.len(),
        !st.in_tag,
        forall|j: int| i <= j < s.len() ==> #[trigger] s[j] != '{' && s[j] != '}' && s[j] != '\\',
    ensures
        scan(s, i, st) == (ScanState { cur: st.cur + s.subrange(i, s.len() as int), ..st }),
    decreases s.len() - i,
{
    if i < s.len() {
        let (j, st2) = scan_step(s, i, st);
        assert(j == i + 1);
        assert(st2 == (ScanState { cur: st.cur.push(s[i]), ..st }));
        lemma_scan_plain(s, j, st2);
        assert(st.cur.push(s[i]) + s.subrange(i + 1, s.len() as int) =~= st.cur + s.subrange(i, s.len() as int));
    } else {
        assert(st.cur + s.subrange(i, s.len() as int) =~= st.cur);
    }
}

/// Text without override blocks or escapes is one run: the whole text, from
/// byte 0 to its end, with no block in effect.
pub proof fn lemma_plain_text_is_one_run(s: Seq<char>)
    requires
        forall|j: int| 0 <= j < s.len() ==> #[trigger] s[j] != '{' && s[j] != '}' && s[j] != '\\',
    ensures
        spec_segments(s) == seq![(s, 0int, byte_offset(s, s.len() as int) as int, 0nat)],
        spec_tag_blocks(s).len() == 0,
{
    lemma_scan_plain(s, 0, scan_init());
    assert(Seq::<char>::empty() + s.subrange(0, s.len() as int) =~= s);
}

/// Plain text around one escape is one run in which `\\N` and `\\n` have
/// become a line break and `\\h` a no-break space (U+00A0).
pub proof fn lemma_escape_in_plain_text(p: Seq<char>, code: char, q: Seq<char>)
    requires
        code == 'N' || code == 'n' || code == 'h',
        forall|j: int| 0 <= j < p.len() ==> #[trigger] p[j] != '{' && p[j] != '}' && p[j] != '\\',
        forall|j: int| 0 <= j < q.len() ==> #[trigger] q[j] != '{' && q[j] != '}' && q[j] != '\\',
    ensures
        ({
            let s = p + seq!['\\', code] + q;
            let shown = if code == 'h' { '\u{a0}' } else { '\n' };
            spec_segments(s) == seq![(p.push(shown) + q, 0int, byte_offset(s, s.len() as int) as int, 0nat)]
        }),
{
    let s = p + seq!['\\', code] + q;
    let shown = if code == 'h' { '\u{a0}' } else { '\n' };
    let n = p.len() as int;
    assert(s.subrange(0, n) =~= p);
    assert forall|j: int| 0 <= j < n implies #[trigger] s[j] != '{' && s[j] != '}' && s[j] != '\\' by {
        assert(s[j] == p[j]);
    }
    let mid = ScanState { cur: p, ..scan_init() };
    lemma_scan_prefix_plain(s, 0, n, scan_init());
    assert(scan(s, 0, scan_init()) == scan(s, n, mid));
    assert(s[n] == '\\' && s[n + 1] == code);
    let after = ScanState { cur: p.push(shown), ..scan_init() };
    assert(scan_step(s, n, mid) == (n + 2, after));
    assert forall|j: int| n + 2 <= j < s.len() implies #[trigger] s[j] != '{' && s[j] != '}' && s[j] != '\\' by {
        assert(s[j] == q[j - n - 2]);
    }
    lemma_scan_plain(s, n + 2, after);
    assert(s.subrange(n + 2, s.len() as int) =~= q);
    assert(p.push(shown).len() > 0);
}

/// Scanning a plain stretch `i..k` only adds its characters to the run.
proof fn lemma_scan_prefix_plain(s: Seq<char>, i: int, k: int, st: ScanState)
    requires
        0 <= i <= k <= s.len(),
        !st.in_tag,
        forall|j: int| i <= j < k ==> #[trigger] s[j] != '{' && s[j] != '}' && s[j] != '\\',
    ensures
        scan(s, i, st) == scan(s, k, ScanState { cur: st.cur + s.subrange(i, k), ..st }),
    decreases k - i,
{
    if i < k {
        let (j, st2) = scan_step(s, i, st);
        assert(j == i + 1);
        lemma_scan_prefix_plain(s, j, k, st2);
        assert(st.cur.push(s[i]) + s.subrange(i + 1, k) =~= st.cur + s.subrange(i, k));
    } else {
        assert(st.cur + s.subrange(i, k) =~= st.cur);
    }
}

} // verus!
