//! Splitting an override block into tags, and a tag into its name and argument.
use vstd::prelude::*;
use vstd::string::StrSliceExecFns;
use crate::strings::{is_ascii_alpha, is_ascii_digit};
use crate::text::{chars_of, push_char};

verus! {

/// State while splitting a block: finished parts, the part being built, and
/// the parenthesis depth.
pub struct SplitState {
    pub parts: Seq<Seq<char>>,
    pub current: Seq<char>,
    pub depth: int,
}

/// One character of the tag block, with the character after it (if any).
pub open spec fn split_step(st: SplitState, ch: char, next: Option<char>) -> SplitState {
    if ch == '\\' && st.depth == 0 {
        if st.current.len() > 0 {
            SplitState { parts: st.parts.push(st.current), current: Seq::empty(), depth: st.depth }
        } else {
            st
        }
    } else {
        let cur = st.current.push(ch);
        if ch == '(' {
            SplitState { parts: st.parts, current: cur, depth: st.depth + 1 }
        } else if ch == ')' {
            let d = st.depth - 1;
            if d == 0 && next == Some('\\') {
                SplitState { parts: st.parts.push(cur), current: Seq::empty(), depth: d }
            } else {
                SplitState { parts: st.parts, current: cur, depth: d }
            }
        } else {
            SplitState { parts: st.parts, current: cur, depth: st.depth }
        }
    }
}

/// State after the first `n` characters of `s`.
pub open spec fn split_run(s: Seq<char>, n: nat) -> SplitState
    decreases n,
{
    if n == 0 {
        SplitState { parts: Seq::empty(), current: Seq::empty(), depth: 0 }
    } else {
        let next = if n < s.len() { Some(s[n as int]) } else { None };
        split_step(split_run(s, (n - 1) as nat), s[n - 1], next)
    }
}

/// The tags of a block: split at backslashes outside parentheses, a closing
/// parenthesis followed by a backslash also ending a tag; empty pieces dropped.
pub open spec fn spec_split_tags(s: Seq<char>) -> Seq<Seq<char>> {
    let st = split_run(s, s.len());
    if st.current.len() > 0 { st.parts.push(st.current) } else { st.parts }
}

proof fn lemma_split_depth_bound(s: Seq<char>, n: nat)
    requires
        n <= s.len(),
    ensures
        -(n as int) <= split_run(s, n).depth <= n,
    decreases n,
{
    if n > 0 {
        lemma_split_depth_bound(s, (n - 1) as nat);
    }
}

/// Split tags carefully, handling nested parentheses in \t tags
pub fn split_tags_carefully(content: &str) -> (parts: Vec<String>)
    requires
        content@.len() <= i32::MAX,
    ensures
        parts@.map_values(|p: String| p@) == spec_split_tags(content@),
{
    let v = chars_of(content);
    let ghost s = content@;
    let mut parts: Vec<String> = Vec::new();
    let mut current = String::new();
    let mut depth: i32 = 0;
    let n = v.len();
    let mut i: usize = 0;
    while i < n
        invariant
            n == s.len(),
            v@ == s,
            s.len() <= i32::MAX,
            i <= n,
            parts@.map_values(|p: String| p@) == split_run(s, i as nat).parts,
            current@ == split_run(s, i as nat).current,
            depth == split_run(s, i as nat).depth,
        decreases n - i,
    {
        proof {
            lemma_split_depth_bound(s, i as nat);
        }
        let ch = v[i];
        let ghost st = split_run(s, i as nat);
        if ch == '\\' && depth == 0 {
            if !current.as_str().is_empty() {
                parts.push(current);
                current = String::new();
            }
        } else {
            push_char(&mut current, ch);
            if ch == '(' {
                depth = depth + 1;
            } else if ch == ')' {
                depth = depth - 1;
                if depth == 0 && i + 1 < n && v[i + 1] == '\\' {
                    parts.push(current.clone());
                    current = String::new();
                }
            }
        }
        proof {
            let next = if i + 1 < s.len() { Some(s[i + 1]) } else { None };
            assert(split_run(s, (i + 1) as nat) == split_step(st, s[i as int], next));
        }
        i = i + 1;
        assert(parts@.map_values(|p: String| p@) =~= split_run(s, i as nat).parts);
    }
    if !current.as_str().is_empty() {
        parts.push(current);
    }
    assert(parts@.map_values(|p: String| p@) =~= spec_split_tags(s));
    parts
}

/// Index of the first character of `s` that is not an ASCII letter.
pub open spec fn first_non_alpha(s: Seq<char>) -> Option<int> {
    if exists|i: int| 0 <= i < s.len() && !is_ascii_alpha(s[i]) {
        Some(choose|i: int| 0 <= i < s.len() && !is_ascii_alpha(s[i])
            && forall|j: int| 0 <= j < i ==> is_ascii_alpha(#[trigger] s[j]))
    } else {
        None
    }
}

/// Name and argument of one tag fragment: `fn` takes everything after it as
/// the font name; a leading digit takes exactly two characters as the name
/// (`1c`, `3a`, ...); otherwise the name is the leading ASCII letters.
pub open spec fn spec_extract_tag(s: Seq<char>) -> (Seq<char>, Seq<char>) {
    if s.len() > 2 && s[0] == 'f' && s[1] == 'n' {
        ("fn"@, s.skip(2))
    } else if s.len() > 0 && is_ascii_digit(s[0]) {
        if s.len() >= 2 { (s.take(2), s.skip(2)) } else { (s, Seq::empty()) }
    } else {
        match first_non_alpha(s) {
            Some(i) => (s.take(i), s.skip(i)),
            None => (s, Seq::empty()),
        }
    }
}

/// The first non-letter: if some character from `i` on is not an ASCII
/// letter, one of them has only letters before it.
proof fn lemma_first_non_alpha_from(s: Seq<char>, i: int)
    requires
        0 <= i <= s.len(),
        forall|j: int| 0 <= j < i ==> is_ascii_alpha(#[trigger] s[j]),
    ensures
        (exists|j: int| i <= j < s.len() && !is_ascii_alpha(s[j])) ==> exists|k: int| 0 <= k < s.len()
            && !is_ascii_alpha(s[k]) && forall|j: int| 0 <= j < k ==> is_ascii_alpha(#[trigger] s[j]),
    decreases s.len() - i,
{
    if i < s.len() {
        if !is_ascii_alpha(s[i]) {
            assert(forall|j: int| 0 <= j < i ==> is_ascii_alpha(#[trigger] s[j]));
        } else {
            lemma_first_non_alpha_from(s, i + 1);
        }
    }
}

/// A tag fragment is its name followed by its argument. After a leading `fn`
/// (with more after it) the name is `fn`; after a leading digit it is that
/// digit and the next character; otherwise it is the run of ASCII letters at
/// the start, and the argument starts with a character that is not one.
pub proof fn lemma_extract_tag_splits(s: Seq<char>)
    ensures
        spec_extract_tag(s).0 + spec_extract_tag(s).1 == s,
        s.len() > 2 && s[0] == 'f' && s[1] == 'n' ==> spec_extract_tag(s).0 == seq!['f', 'n'],
        s.len() >= 2 && is_ascii_digit(s[0]) ==> spec_extract_tag(s).0 == seq![s[0], s[1]],
        !(s.len() > 2 && s[0] == 'f' && s[1] == 'n') && !(s.len() > 0 && is_ascii_digit(s[0])) ==> {
            &&& forall|j: int| 0 <= j < spec_extract_tag(s).0.len() ==> is_ascii_alpha(#[trigger] spec_extract_tag(s).0[j])
            &&& spec_extract_tag(s).1.len() > 0 ==> !is_ascii_alpha(spec_extract_tag(s).1[0])
        },
{
    reveal_strlit("fn");
    if s.len() > 2 && s[0] == 'f' && s[1] == 'n' {
        assert("fn"@ =~= seq!['f', 'n']);
        assert(s.take(2) =~= seq!['f', 'n']);
        assert(s.take(2) + s.skip(2) =~= s);
    } else if s.len() > 0 && is_ascii_digit(s[0]) {
        if s.len() >= 2 {
            assert(s.take(2) + s.skip(2) =~= s);
            assert(s.take(2) =~= seq![s[0], s[1]]);
        } else {
            assert(s + Seq::<char>::empty() =~= s);
        }
    } else {
        lemma_first_non_alpha_from(s, 0);
        match first_non_alpha(s) {
            Some(i) => {
                assert(0 <= i < s.len() && !is_ascii_alpha(s[i]) && forall|j: int| 0 <= j < i ==> is_ascii_alpha(#[trigger] s[j]));
                assert(s.take(i) + s.skip(i) =~= s);
                assert forall|j: int| 0 <= j < s.take(i).len() implies is_ascii_alpha(#[trigger] s.take(i)[j]) by {
                    assert(s.take(i)[j] == s[j]);
                }
                assert(s.skip(i)[0] == s[i]);
            },
            None => {
                assert(s + Seq::<char>::empty() =~= s);
            },
        }
    }
}

/// A two-character name after a leading digit ends on a UTF-8 character
/// boundary: its second character is ASCII.
pub open spec fn tag_name_splits_cleanly(s: Seq<char>) -> bool {
    (s.len() > 0 && is_ascii_digit(s[0]) && s.len() >= 2 && !(s.len() > 2 && s[0] == 'f' && s[1] == 'n'))
        ==> (s[1] as u32) < 0x80
}

/// Whether `extract_tag_name_and_args` can split `part` (see
/// `tag_name_splits_cleanly`).
pub fn tag_name_fits(part: &str) -> (b: bool)
    ensures
        b == tag_name_splits_cleanly(part@),
{
    let v = chars_of(part);
    if v.len() >= 2 && v[0] >= '0' && v[0] <= '9' && !(v.len() > 2 && v[0] == 'f' && v[1] == 'n') {
        (v[1] as u32) < 0x80
    } else {
        true
    }
}

/// Extract the tag name and its argument string from a single tag fragment.
pub fn extract_tag_name_and_args(part: &str) -> (r: (&str, &str))
    requires
        tag_name_splits_cleanly(part@),
    ensures
        r.0@ == spec_extract_tag(part@).0,
        r.1@ == spec_extract_tag(part@).1,
{
    let v = chars_of(part);
    let n = v.len();
    if n > 2 && v[0] == 'f' && v[1] == 'n' {
        let rest = part.substring_char(2, n);
        assert(rest@ =~= part@.skip(2));
        return ("fn", rest);
    }
    if n > 0 && '0' <= v[0] && v[0] <= '9' {
        if n >= 2 {
            let a = part.substring_char(0, 2);
            let b = part.substring_char(2, n);
            assert(a@ =~= part@.take(2));
            assert(b@ =~= part@.skip(2));
            return (a, b);
        } else {
            let e = part.substring_char(n, n);
            assert(e@ =~= Seq::<char>::empty());
            return (part, e);
        }
    }
    let mut i: usize = 0;
    while i < n
        invariant
            n == part@.len(),
            v@ == part@,
            i <= n,
            !(part@.len() > 2 && part@[0] == 'f' && part@[1] == 'n'),
            !(part@.len() > 0 && is_ascii_digit(part@[0])),
            forall|j: int| 0 <= j < i ==> is_ascii_alpha(#[trigger] part@[j]),
        decreases n - i,
    {
        let c = v[i];
        if !(('a' <= c && c <= 'z') || ('A' <= c && c <= 'Z')) {
            proof {
                let s = part@;
                let k = choose|k: int| 0 <= k < s.len() && !is_ascii_alpha(s[k])
                    && forall|j: int| 0 <= j < k ==> is_ascii_alpha(#[trigger] s[j]);
                assert(k == i as int) by {
                    if k < i { assert(is_ascii_alpha(s[k])); }
                    if k > i { assert(is_ascii_alpha(s[i as int])); }
                }
            }
            let a = part.substring_char(0, i);
            let b = part.substring_char(i, n);
            assert(a@ =~= part@.take(i as int));
            assert(b@ =~= part@.skip(i as int));
            return (a, b);
        }
        i = i + 1;
    }
    let e = part.substring_char(n, n);
    assert(e@ =~= Seq::<char>::empty());
    (part, e)
}

} // verus!

verus! {

/// End of the run of ASCII letters in `s` starting at `p`.
pub open spec fn alpha_run_end(s: Seq<char>, p: int) -> int
    decreases s.len() - p,
{
    if 0 <= p < s.len() && is_ascii_alpha(s[p]) { alpha_run_end(s, p + 1) } else { p }
}

/// End of the argument starting at `p`: the next backslash or the end of `s`.
pub open spec fn arg_end(s: Seq<char>, p: int) -> int
    decreases s.len() - p,
{
    if 0 <= p < s.len() && s[p] != '\\' { arg_end(s, p + 1) } else { p }
}

/// Name and argument pairs of the tags in a `\t` tag list, scanning from `pos`.
/// After a backslash the name is a digit plus letters (`1c`, `3a`) or letters
/// only; the argument runs to the next backslash. A backslash without a name
/// yields nothing.
pub open spec fn scan_tags_from(s: Seq<char>, pos: int) -> Seq<(Seq<char>, Seq<char>)>
    decreases s.len() - pos, 1int,
{
    if pos < 0 || pos >= s.len() {
        Seq::empty()
    } else if s[pos] == '\\' {
        let tag_start = pos + 1;
        let name_end = if tag_start < s.len() && is_ascii_digit(s[tag_start]) {
            alpha_run_end(s, tag_start + 1)
        } else {
            alpha_run_end(s, tag_start)
        };
        if name_end > tag_start {
            let a_end = arg_end(s, name_end);
            seq![(s.subrange(tag_start, name_end), s.subrange(name_end, a_end))] + scan_tags_after(s, pos, a_end)
        } else {
            scan_tags_after(s, pos, name_end)
        }
    } else {
        scan_tags_from(s, pos + 1)
    }
}

/// Continue scanning at `next`, which lies after `pos`.
pub open spec fn scan_tags_after(s: Seq<char>, pos: int, next: int) -> Seq<(Seq<char>, Seq<char>)>
    decreases s.len() - pos, 0int,
{
    if pos < next <= s.len() { scan_tags_from(s, next) } else { Seq::empty() }
}

proof fn lemma_alpha_run_end_bounds(s: Seq<char>, p: int)
    requires
        0 <= p <= s.len(),
    ensures
        p <= alpha_run_end(s, p) <= s.len(),
        forall|k: int| p <= k < alpha_run_end(s, p) ==> is_ascii_alpha(#[trigger] s[k]),
        alpha_run_end(s, p) < s.len() ==> !is_ascii_alpha(s[alpha_run_end(s, p)]),
    decreases s.len() - p,
{
    if p < s.len() && is_ascii_alpha(s[p]) {
        lemma_alpha_run_end_bounds(s, p + 1);
    }
}

proof fn lemma_arg_end_bounds(s: Seq<char>, p: int)
    requires
        0 <= p <= s.len(),
    ensures
        p <= arg_end(s, p) <= s.len(),
        arg_end(s, p) < s.len() ==> s[arg_end(s, p)] == '\\',
        forall|k: int| p <= k < arg_end(s, p) ==> #[trigger] s[k] != '\\',
    decreases s.len() - p,
{
    if p < s.len() && s[p] != '\\' {
        lemma_arg_end_bounds(s, p + 1);
    }
}

/// The name and argument of every tag in a `\t` tag list, in order.
pub fn scan_animatable_tags(tag_string: &str) -> (r: Vec<(String, String)>)
    ensures
        r@.map_values(|p: (String, String)| (p.0@, p.1@)) == scan_tags_from(tag_string@, 0),
{
    let v = chars_of(tag_string);
    let ghost s = tag_string@;
    let n = v.len();
    let mut out: Vec<(String, String)> = Vec::new();
    let mut pos: usize = 0;
    assert(out@.map_values(|p: (String, String)| (p.0@, p.1@)) =~= Seq::<(Seq<char>, Seq<char>)>::empty());
    while pos < n
        invariant
            n == s.len(),
            v@ == s,
            pos <= n,
            scan_tags_from(s, 0) == out@.map_values(|p: (String, String)| (p.0@, p.1@)) + scan_tags_from(s, pos as int),
        decreases n - pos, 1int,
    {
        let ghost out0 = out@.map_values(|p: (String, String)| (p.0@, p.1@));
        let ghost p0 = pos as int;
        if v[pos] == '\\' {
            pos = pos + 1;
            let tag_start = pos;
            let first_is_digit = tag_start < n && '0' <= v[tag_start] && v[tag_start] <= '9';
            if first_is_digit {
                pos = pos + 1;
            }
            let ghost name_from = pos as int;
            proof {
                lemma_alpha_run_end_bounds(s, name_from);
            }
            while pos < n && (('a' <= v[pos] && v[pos] <= 'z') || ('A' <= v[pos] && v[pos] <= 'Z'))
                invariant
                    n == s.len(),
                    v@ == s,
                    name_from <= pos <= alpha_run_end(s, name_from) <= n,
                    forall|k: int| name_from <= k < alpha_run_end(s, name_from) ==> is_ascii_alpha(#[trigger] s[k]),
                    alpha_run_end(s, name_from) < s.len() ==> !is_ascii_alpha(s[alpha_run_end(s, name_from)]),
                decreases n - pos,
            {
                pos = pos + 1;
            }
            assert(pos == alpha_run_end(s, name_from));
            if pos > tag_start {
                let name_end = pos;
                proof {
                    lemma_arg_end_bounds(s, name_end as int);
                }
                while pos < n && v[pos] != '\\'
                    invariant
                        n == s.len(),
                        v@ == s,
                        name_end <= pos <= arg_end(s, name_end as int) <= n,
                        forall|k: int| name_end <= k < arg_end(s, name_end as int) ==> #[trigger] s[k] != '\\',
                        arg_end(s, name_end as int) < s.len() ==> s[arg_end(s, name_end as int)] == '\\',
                    decreases n - pos,
                {
                    pos = pos + 1;
                }
                assert(pos == arg_end(s, name_end as int));
                assert(scan_tags_after(s, p0, pos as int) == scan_tags_from(s, pos as int));
                let name = crate::text::string_from_range(&v, tag_start, name_end);
                let args = crate::text::string_from_range(&v, name_end, pos);
                let ghost item = (name@, args@);
                out.push((name, args));
                assert(out@.map_values(|p: (String, String)| (p.0@, p.1@)) =~= out0.push(item));
                assert(scan_tags_from(s, p0) == seq![item] + scan_tags_from(s, pos as int));
                assert(out0.push(item) + scan_tags_from(s, pos as int) =~= out0 + (seq![item] + scan_tags_from(s, pos as int)));
            } else {
                assert(scan_tags_after(s, p0, pos as int) == scan_tags_from(s, pos as int));
                assert(scan_tags_from(s, p0) == scan_tags_from(s, pos as int));
            }
        } else {
            pos = pos + 1;
        }
    }
    assert(scan_tags_from(s, pos as int) =~= Seq::<(Seq<char>, Seq<char>)>::empty());
    assert(out@.map_values(|p: (String, String)| (p.0@, p.1@)) + Seq::<(Seq<char>, Seq<char>)>::empty() =~= out@.map_values(|p: (String, String)| (p.0@, p.1@)));
    out
}

} // verus!
