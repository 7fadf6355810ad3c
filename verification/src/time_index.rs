//! Start-sorted timing index of the events that take part in rendering, and the
//! query that answers which of them are shown at a given time.
use vstd::prelude::*;
use crate::event_selector::{
    active_indices, active_prefix, end_or_zero, is_active, is_rendered_kind, start_or_zero, EventInfo,
    EventKind,
};

verus! {

/// Index entry of event `i`: its start, its end and its position in the script.
pub open spec fn entry_for(events: Seq<EventInfo>, i: int) -> (u32, u32, usize) {
    (start_or_zero(events[i]), end_or_zero(events[i]), i as usize)
}

/// Entries are in order of start time.
pub open spec fn sorted_by_start(s: Seq<(u32, u32, usize)>) -> bool {
    forall|a: int, b: int| #![trigger s[a], s[b]] 0 <= a < b < s.len() ==> s[a].0 <= s[b].0
}

/// `s` holds, in start order and once each, the entries of the events among the
/// first `n` that take part in rendering.
pub open spec fn indexes_prefix(s: Seq<(u32, u32, usize)>, events: Seq<EventInfo>, render_comments: bool, n: int) -> bool {
    &&& sorted_by_start(s)
    &&& forall|m: int| #![trigger s[m]] 0 <= m < s.len() ==> {
        &&& s[m].2 < n
        &&& is_rendered_kind(events[s[m].2 as int].kind, render_comments)
        &&& s[m] == entry_for(events, s[m].2 as int)
    }
    &&& forall|i: int| #![trigger events[i]] 0 <= i < n && is_rendered_kind(events[i].kind, render_comments)
        ==> exists|m: int| 0 <= m < s.len() && s[m].2 == i
    &&& forall|a: int, b: int| #![trigger s[a], s[b]] 0 <= a < b < s.len() ==> s[a].2 != s[b].2
}

/// Strictly ascending.
pub open spec fn strictly_ascending(s: Seq<usize>) -> bool {
    forall|a: int, b: int| #![trigger s[a], s[b]] 0 <= a < b < s.len() ==> s[a] < s[b]
}

/// Some entry before position `k` that has not ended by `t` belongs to event `x`.
pub open spec fn selected_before(s: Seq<(u32, u32, usize)>, t: u32, k: int, x: usize) -> bool {
    exists|m: int| 0 <= m < k && #[trigger] s[m].2 == x && s[m].1 >= t
}

/// Parsed timing of the events that take part in rendering, in start order.
/// Each entry is `(start_cs, end_cs, position)`; the position restores file order
/// when the active events are listed.
pub struct TimeIndex {
    by_start: Vec<(u32, u32, usize)>,
}

/// Number of leading entries that have started by `t`: the partition point of
/// the start-sorted entries under `start <= t`.
fn started_count(s: &Vec<(u32, u32, usize)>, t: u32) -> (hi: usize)
    requires
        sorted_by_start(s@),
    ensures
        hi <= s@.len(),
        forall|k: int| 0 <= k < hi ==> #[trigger] s@[k].0 <= t,
        forall|k: int| hi <= k < s@.len() ==> #[trigger] s@[k].0 > t,
{
    let mut lo: usize = 0;
    let mut hi: usize = s.len();
    while lo < hi
        invariant
            lo <= hi <= s@.len(),
            sorted_by_start(s@),
            forall|k: int| 0 <= k < lo ==> #[trigger] s@[k].0 <= t,
            forall|k: int| hi <= k < s@.len() ==> #[trigger] s@[k].0 > t,
        decreases hi - lo,
    {
        let mid = lo + (hi - lo) / 2;
        if s[mid].0 <= t {
            assert forall|k: int| 0 <= k < mid + 1 implies #[trigger] s@[k].0 <= t by {
                if k < mid {
                    assert(s@[k].0 <= s@[mid as int].0);
                }
            }
            lo = mid + 1;
        } else {
            assert forall|k: int| mid <= k < s@.len() implies #[trigger] s@[k].0 > t by {
                if k > mid {
                    assert(s@[mid as int].0 <= s@[k].0);
                }
            }
            hi = mid;
        }
    }
    lo
}

/// Position at which `x` goes into the strictly ascending `v`: every element
/// before it is smaller, none from it on is.
fn insertion_point(v: &Vec<usize>, x: usize) -> (p: usize)
    requires
        strictly_ascending(v@),
    ensures
        p <= v@.len(),
        forall|j: int| 0 <= j < p ==> #[trigger] v@[j] < x,
        forall|j: int| p <= j < v@.len() ==> #[trigger] v@[j] >= x,
{
    let mut lo: usize = 0;
    let mut hi: usize = v.len();
    while lo < hi
        invariant
            lo <= hi <= v@.len(),
            strictly_ascending(v@),
            forall|j: int| 0 <= j < lo ==> #[trigger] v@[j] < x,
            forall|j: int| hi <= j < v@.len() ==> #[trigger] v@[j] >= x,
        decreases hi - lo,
    {
        let mid = lo + (hi - lo) / 2;
        if v[mid] < x {
            assert forall|j: int| 0 <= j < mid + 1 implies #[trigger] v@[j] < x by {
                if j < mid {
                    assert(v@[j] < v@[mid as int]);
                }
            }
            lo = mid + 1;
        } else {
            assert forall|j: int| mid <= j < v@.len() implies #[trigger] v@[j] >= x by {
                if j > mid {
                    assert(v@[mid as int] < v@[j]);
                }
            }
            hi = mid;
        }
    }
    lo
}

/// Inserting the entry of a rendered event `i` at its start-order position
/// extends an index of the first `i` events to one of the first `i + 1`.
proof fn lemma_index_insert(s: Seq<(u32, u32, usize)>, events: Seq<EventInfo>, render_comments: bool, i: int, pos: int)
    requires
        0 <= i < events.len(),
        i <= usize::MAX,
        indexes_prefix(s, events, render_comments, i),
        is_rendered_kind(events[i].kind, render_comments),
        0 <= pos <= s.len(),
        forall|k: int| 0 <= k < pos ==> #[trigger] s[k].0 <= start_or_zero(events[i]),
        forall|k: int| pos <= k < s.len() ==> #[trigger] s[k].0 > start_or_zero(events[i]),
    ensures
        indexes_prefix(s.insert(pos, entry_for(events, i)), events, render_comments, i + 1),
{
    let x = entry_for(events, i);
    let t = s.insert(pos, x);
    s.insert_ensures(pos, x);
    assert(x.2 as int == i);
    assert forall|a: int, b: int| #![trigger t[a], t[b]] 0 <= a < b < t.len() implies t[a].0 <= t[b].0 by {
        if b < pos {
            assert(t[a] == s[a] && t[b] == s[b]);
        } else if b == pos {
            assert(t[a] == s[a]);
        } else if a < pos {
            assert(t[a] == s[a] && t[b] == s[b - 1]);
        } else if a == pos {
            assert(t[b] == s[b - 1]);
        } else {
            assert(t[a] == s[a - 1] && t[b] == s[b - 1]);
        }
    }
    assert forall|m: int| #![trigger t[m]] 0 <= m < t.len() implies {
        &&& t[m].2 < i + 1
        &&& is_rendered_kind(events[t[m].2 as int].kind, render_comments)
        &&& t[m] == entry_for(events, t[m].2 as int)
    } by {
        if m < pos {
            assert(t[m] == s[m]);
        } else if m > pos {
            assert(t[m] == s[m - 1]);
        }
    }
    assert forall|j: int| #![trigger events[j]] 0 <= j < i + 1 && is_rendered_kind(events[j].kind, render_comments)
        implies exists|m: int| 0 <= m < t.len() && t[m].2 == j by {
        if j == i {
            assert(t[pos].2 == j);
        } else {
            let m = choose|m: int| 0 <= m < s.len() && s[m].2 == j;
            if m < pos {
                assert(t[m] == s[m]);
            } else {
                assert(t[m + 1] == s[m]);
            }
        }
    }
    assert forall|a: int, b: int| #![trigger t[a], t[b]] 0 <= a < b < t.len() implies t[a].2 != t[b].2 by {
        if a == pos {
            assert(t[b] == s[b - 1]);
            assert(s[b - 1].2 < i);
        } else if b == pos {
            assert(t[a] == s[a]);
            assert(s[a].2 < i);
        } else if b < pos {
            assert(t[a] == s[a] && t[b] == s[b]);
        } else if a < pos {
            assert(t[a] == s[a] && t[b] == s[b - 1]);
        } else {
            assert(t[a] == s[a - 1] && t[b] == s[b - 1]);
        }
    }
}

/// An event among the first `n` is listed by `active_prefix` exactly when it is
/// active.
pub(crate) proof fn lemma_active_prefix_members(events: Seq<EventInfo>, render_comments: bool, time_cs: u32, n: nat)
    requires
        n <= events.len(),
        n <= usize::MAX + 1,
    ensures
        forall|x: usize| #[trigger] active_prefix(events, render_comments, time_cs, n).contains(x)
            <==> (x < n && is_active(events[x as int], render_comments, time_cs)),
    decreases n,
{
    if n > 0 {
        lemma_active_prefix_members(events, render_comments, time_cs, (n - 1) as nat);
        let prev = active_prefix(events, render_comments, time_cs, (n - 1) as nat);
        let cur = active_prefix(events, render_comments, time_cs, n);
        let last = (n - 1) as usize;
        assert(last as int == n - 1);
        assert forall|x: usize| #[trigger] cur.contains(x) <==> (x < n && is_active(events[x as int], render_comments, time_cs)) by {
            if is_active(events[n - 1], render_comments, time_cs) {
                assert(cur == prev.push(last));
                if cur.contains(x) {
                    let k = choose|k: int| 0 <= k < cur.len() && cur[k] == x;
                    if k < prev.len() {
                        assert(prev[k] == x);
                        assert(prev.contains(x));
                    }
                }
                if x < n && is_active(events[x as int], render_comments, time_cs) {
                    if x == last {
                        assert(cur[prev.len() as int] == x);
                    } else {
                        assert(prev.contains(x));
                        let k = choose|k: int| 0 <= k < prev.len() && prev[k] == x;
                        assert(cur[k] == x);
                    }
                }
            } else {
                assert(cur == prev);
            }
        }
    } else {
        assert forall|x: usize| #[trigger] active_prefix(events, render_comments, time_cs, n).contains(x)
            <==> (x < n && is_active(events[x as int], render_comments, time_cs)) by {
            assert(active_prefix(events, render_comments, time_cs, n).len() == 0);
        }
    }
}

/// Two strictly ascending sequences with the same members are equal.
proof fn lemma_ascending_same_members(a: Seq<usize>, b: Seq<usize>)
    requires
        strictly_ascending(a),
        strictly_ascending(b),
        forall|x: usize| a.contains(x) <==> b.contains(x),
    ensures
        a == b,
    decreases a.len(),
{
    if a.len() == 0 {
        if b.len() > 0 {
            assert(b.contains(b[0]));
        }
        assert(a =~= b);
    } else if b.len() == 0 {
        assert(a.contains(a[0]));
    } else {
        assert(a.contains(a[0]));
        assert(b.contains(b[0]));
        let ja = choose|j: int| 0 <= j < a.len() && a[j] == b[0];
        let jb = choose|j: int| 0 <= j < b.len() && b[j] == a[0];
        if ja > 0 {
            assert(a[0] < a[ja]);
        }
        if jb > 0 {
            assert(b[0] < b[jb]);
        }
        assert(a[0] == b[0]);
        let a1 = a.drop_first();
        let b1 = b.drop_first();
        assert forall|x: usize| a1.contains(x) <==> b1.contains(x) by {
            if a1.contains(x) {
                let k = choose|k: int| 0 <= k < a1.len() && a1[k] == x;
                assert(a[k + 1] == x);
                assert(a[0] < a[k + 1]);
                assert(a.contains(x));
                assert(b.contains(x));
                let kb = choose|kb: int| 0 <= kb < b.len() && b[kb] == x;
                assert(kb != 0);
                assert(b1[kb - 1] == x);
            }
            if b1.contains(x) {
                let k = choose|k: int| 0 <= k < b1.len() && b1[k] == x;
                assert(b[k + 1] == x);
                assert(b[0] < b[k + 1]);
                assert(b.contains(x));
                assert(a.contains(x));
                let ka = choose|ka: int| 0 <= ka < a.len() && a[ka] == x;
                assert(ka != 0);
                assert(a1[ka - 1] == x);
            }
        }
        assert forall|p: int, q: int| #![trigger a1[p], a1[q]] 0 <= p < q < a1.len() implies a1[p] < a1[q] by {
            assert(a[p + 1] < a[q + 1]);
        }
        assert forall|p: int, q: int| #![trigger b1[p], b1[q]] 0 <= p < q < b1.len() implies b1[p] < b1[q] by {
            assert(b[p + 1] < b[q + 1]);
        }
        lemma_ascending_same_members(a1, b1);
        assert(a =~= b) by {
            assert forall|k: int| 0 <= k < a.len() implies a[k] == b[k] by {
                if k > 0 {
                    assert(a[k] == a1[k - 1]);
                    assert(b[k] == b1[k - 1]);
                }
            }
        }
    }
}

impl TimeIndex {
    /// The entries, in start order.
    pub closed spec fn entries(&self) -> Seq<(u32, u32, usize)> {
        self.by_start@
    }

    /// Index the events that take part in rendering (`Dialogue` always,
    /// `Comment` when `render_comments` is set), in order of start time; an
    /// unparsable start or end counts as 0.
    pub fn build(events: &[EventInfo], render_comments: bool) -> (idx: Self)
        ensures
            events@.len() <= usize::MAX,
            indexes_prefix(idx.entries(), events@, render_comments, events@.len() as int),
    {
        let mut by_start: Vec<(u32, u32, usize)> = Vec::new();
        let mut i: usize = 0;
        while i < events.len()
            invariant
                i <= events@.len(),
                indexes_prefix(by_start@, events@, render_comments, i as int),
            decreases events@.len() - i,
        {
            let e = &events[i];
            let included = match e.kind {
                EventKind::Dialogue => true,
                EventKind::Comment => render_comments,
                EventKind::Other => false,
            };
            if included {
                let start = match e.start_cs {
                    Some(s) => s,
                    None => 0,
                };
                let end = match e.end_cs {
                    Some(s) => s,
                    None => 0,
                };
                let pos = started_count(&by_start, start);
                let ghost old_s = by_start@;
                proof {
                    lemma_index_insert(old_s, events@, render_comments, i as int, pos as int);
                    assert((start, end, i) == entry_for(events@, i as int));
                }
                by_start.insert(pos, (start, end, i));
            } else {
                let ghost s = by_start@;
                assert forall|j: int| #![trigger events@[j]] 0 <= j < i + 1 && is_rendered_kind(events@[j].kind, render_comments)
                    implies exists|m: int| 0 <= m < s.len() && s[m].2 == j by {
                    assert(j != i);
                }
            }
            i = i + 1;
        }
        TimeIndex { by_start }
    }

    /// Positions of the indexed events that are shown at `time_cs`
    /// (`start <= time_cs <= end`), ascending.
    pub(crate) fn active_at(&self, Ghost(events): Ghost<Seq<EventInfo>>, Ghost(render_comments): Ghost<bool>, time_cs: u32)
        -> (v: Vec<usize>)
        requires
            indexes_prefix(self.entries(), events, render_comments, events.len() as int),
            events.len() <= usize::MAX,
        ensures
            v@ == active_indices(events, render_comments, time_cs),
    {
        let ghost s = self.by_start@;
        let hi = started_count(&self.by_start, time_cs);
        let mut sel: Vec<usize> = Vec::new();
        let mut k: usize = 0;
        while k < hi
            invariant
                s == self.by_start@,
                indexes_prefix(s, events, render_comments, events.len() as int),
                k <= hi <= s.len(),
                strictly_ascending(sel@),
                forall|x: usize| #[trigger] sel@.contains(x) <==> selected_before(s, time_cs, k as int, x),
            decreases hi - k,
        {
            let entry = self.by_start[k];
            let end = entry.1;
            let idx = entry.2;
            if end >= time_cs {
                assert(!sel@.contains(idx)) by {
                    if sel@.contains(idx) {
                        let m = choose|m: int| 0 <= m < k && #[trigger] s[m].2 == idx && s[m].1 >= time_cs;
                        assert(s[m].2 != s[k as int].2);
                    }
                }
                let p = insertion_point(&sel, idx);
                let ghost old_sel = sel@;
                sel.insert(p, idx);
                proof {
                    old_sel.insert_ensures(p as int, idx);
                    assert forall|a: int, b: int| #![trigger sel@[a], sel@[b]] 0 <= a < b < sel@.len() implies sel@[a] < sel@[b] by {
                        if b < p {
                            assert(sel@[a] == old_sel[a] && sel@[b] == old_sel[b]);
                        } else if b == p {
                            assert(sel@[a] == old_sel[a]);
                        } else if a < p {
                            assert(sel@[a] == old_sel[a] && sel@[b] == old_sel[b - 1]);
                        } else if a == p {
                            assert(sel@[b] == old_sel[b - 1]);
                            assert(old_sel[b - 1] != idx);
                        } else {
                            assert(sel@[a] == old_sel[a - 1] && sel@[b] == old_sel[b - 1]);
                        }
                    }
                    assert forall|x: usize| #[trigger] sel@.contains(x) <==> selected_before(s, time_cs, k + 1, x) by {
                        if sel@.contains(x) {
                            let j = choose|j: int| 0 <= j < sel@.len() && sel@[j] == x;
                            if j < p {
                                assert(old_sel[j] == x);
                                assert(old_sel.contains(x));
                            } else if j > p {
                                assert(old_sel[j - 1] == x);
                                assert(old_sel.contains(x));
                            } else {
                                assert(s[k as int].2 == x);
                            }
                        }
                        if selected_before(s, time_cs, k + 1, x) {
                            let m = choose|m: int| 0 <= m < k + 1 && #[trigger] s[m].2 == x && s[m].1 >= time_cs;
                            if m < k {
                                assert(selected_before(s, time_cs, k as int, x));
                                assert(old_sel.contains(x));
                                let j = choose|j: int| 0 <= j < old_sel.len() && old_sel[j] == x;
                                if j < p {
                                    assert(sel@[j] == x);
                                } else {
                                    assert(sel@[j + 1] == x);
                                }
                            } else {
                                assert(sel@[p as int] == x);
                            }
                        }
                    }
                }
            } else {
                assert forall|x: usize| #[trigger] sel@.contains(x) <==> selected_before(s, time_cs, k + 1, x) by {
                    if selected_before(s, time_cs, k + 1, x) {
                        let m = choose|m: int| 0 <= m < k + 1 && #[trigger] s[m].2 == x && s[m].1 >= time_cs;
                        assert(m != k);
                        assert(selected_before(s, time_cs, k as int, x));
                    }
                    if sel@.contains(x) {
                        assert(selected_before(s, time_cs, k as int, x));
                        let m = choose|m: int| 0 <= m < k && #[trigger] s[m].2 == x && s[m].1 >= time_cs;
                        assert(selected_before(s, time_cs, k + 1, x));
                    }
                }
            }
            k = k + 1;
        }
        proof {
            let target = active_indices(events, render_comments, time_cs);
            lemma_active_prefix_members(events, render_comments, time_cs, events.len());
            crate::event_selector::lemma_active_prefix_bounds(events, render_comments, time_cs, events.len());
            assert forall|x: usize| sel@.contains(x) <==> target.contains(x) by {
                if sel@.contains(x) {
                    let m = choose|m: int| 0 <= m < hi && #[trigger] s[m].2 == x && s[m].1 >= time_cs;
                    assert(s[m] == entry_for(events, x as int));
                    assert(s[m].0 <= time_cs);
                    assert(is_active(events[x as int], render_comments, time_cs));
                }
                if target.contains(x) {
                    assert(x < events.len() && is_active(events[x as int], render_comments, time_cs));
                    let m = choose|m: int| 0 <= m < s.len() && s[m].2 == x;
                    assert(s[m] == entry_for(events, x as int));
                    if m >= hi {
                        assert(s[m].0 > time_cs);
                    }
                    assert(selected_before(s, time_cs, hi as int, x));
                }
            }
            assert forall|p: int, q: int| #![trigger target[p], target[q]] 0 <= p < q < target.len() implies target[p] < target[q] by {
            }
            lemma_ascending_same_members(sel@, target);
        }
        sel
    }
}

} // verus!
