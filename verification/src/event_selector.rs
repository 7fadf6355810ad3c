//! Selection of the events visible at a given time, with change tracking and
//! dirty-region bookkeeping for incremental rendering.
use vstd::prelude::*;
use crate::error::RenderError;
use crate::text::{chars_of, contains_str, seq_contains};
use crate::time_index::TimeIndex;

verus! {

/// Kind of a script event line.
#[derive(Debug, Clone, Copy, PartialEq, Eq)]
pub enum EventKind {
    /// A `Dialogue:` line
    Dialogue,
    /// A `Comment:` line
    Comment,
    /// Any other event line (`Picture:`, `Sound:`, `Movie:`, `Command:`)
    Other,
}

/// What event selection reads of a script event: its kind, its start and end
/// times in centiseconds (`None` where the time field does not parse), and its
/// text with override tags.
pub struct EventInfo {
    /// Kind of event
    pub kind: EventKind,
    /// Parsed start time in centiseconds
    pub start_cs: Option<u32>,
    /// Parsed end time in centiseconds
    pub end_cs: Option<u32>,
    /// Event text, override blocks included
    pub text: String,
}

/// Whether an event of this kind takes part in rendering.
pub open spec fn is_rendered_kind(kind: EventKind, render_comments: bool) -> bool {
    kind == EventKind::Dialogue || (kind == EventKind::Comment && render_comments)
}

/// Start time used for selection; an unparsable start counts as 0.
pub open spec fn start_or_zero(e: EventInfo) -> u32 {
    match e.start_cs { Some(s) => s, None => 0 }
}

/// End time used for selection; an unparsable end counts as 0.
pub open spec fn end_or_zero(e: EventInfo) -> u32 {
    match e.end_cs { Some(s) => s, None => 0 }
}

/// The event is shown at `time_cs` (both ends inclusive).
pub open spec fn is_active(e: EventInfo, render_comments: bool, time_cs: u32) -> bool {
    is_rendered_kind(e.kind, render_comments) && start_or_zero(e) <= time_cs && time_cs <= end_or_zero(e)
}

/// Indices `0..n` of events that are active, ascending.
pub open spec fn active_prefix(events: Seq<EventInfo>, render_comments: bool, time_cs: u32, n: nat) -> Seq<usize>
    decreases n,
{
    if n == 0 {
        Seq::empty()
    } else {
        let prev = active_prefix(events, render_comments, time_cs, (n - 1) as nat);
        if is_active(events[n - 1], render_comments, time_cs) {
            prev.push((n - 1) as usize)
        } else {
            prev
        }
    }
}

/// The indices listed for the first `n` events are below `n` and strictly ascending.
pub(crate) proof fn lemma_active_prefix_bounds(events: Seq<EventInfo>, render_comments: bool, time_cs: u32, n: nat)
    requires
        n <= usize::MAX + 1,
    ensures
        forall|k: int| 0 <= k < active_prefix(events, render_comments, time_cs, n).len()
            ==> #[trigger] active_prefix(events, render_comments, time_cs, n)[k] < n,
        forall|k: int, m: int| 0 <= k < m < active_prefix(events, render_comments, time_cs, n).len()
            ==> active_prefix(events, render_comments, time_cs, n)[k] < active_prefix(events, render_comments, time_cs, n)[m],
    decreases n,
{
    if n > 0 {
        lemma_active_prefix_bounds(events, render_comments, time_cs, (n - 1) as nat);
        let prev = active_prefix(events, render_comments, time_cs, (n - 1) as nat);
        let cur = active_prefix(events, render_comments, time_cs, n);
        if is_active(events[n - 1], render_comments, time_cs) {
            assert(cur == prev.push((n - 1) as usize));
            assert(((n - 1) as usize) as int == n - 1);
            assert forall|k: int| 0 <= k < cur.len() implies #[trigger] cur[k] < n by {
                if k < prev.len() {
                    assert(cur[k] == prev[k]);
                }
            }
            assert forall|k: int, m: int| 0 <= k < m < cur.len() implies cur[k] < cur[m] by {
                assert(cur[k] == prev[k]);
                if m < prev.len() {
                    assert(cur[m] == prev[m]);
                }
            }
        } else {
            assert(cur == prev);
        }
    }
}

/// Indices of all events active at `time_cs`, ascending.
pub open spec fn active_indices(events: Seq<EventInfo>, render_comments: bool, time_cs: u32) -> Seq<usize> {
    active_prefix(events, render_comments, time_cs, events.len())
}

/// Elements of `a` that do not occur in `b`, in the order of `a`.
pub open spec fn seq_minus(a: Seq<usize>, b: Seq<usize>) -> Seq<usize> {
    a.filter(|i: usize| !b.contains(i))
}

/// The text holds a tag that moves, fades or transforms the event.
pub open spec fn has_motion_tag(text: Seq<char>) -> bool {
    seq_contains(text, "\\t("@) || seq_contains(text, "\\move("@) || seq_contains(text, "\\fade("@)
        || seq_contains(text, "\\fad("@)
}

/// The text holds a karaoke tag.
pub open spec fn has_karaoke_tag(text: Seq<char>) -> bool {
    seq_contains(text, "\\k"@) || seq_contains(text, "\\K"@)
}

/// The event changes over time at `time_cs`: it is animated, or it has karaoke
/// and its (parsable) start lies before `time_cs`.
pub open spec fn is_animated_at(e: EventInfo, time_cs: u32) -> bool {
    has_motion_tag(e.text@) || (has_karaoke_tag(e.text@) && (e.start_cs matches Some(s) && time_cs > s))
}

/// `x as i32`, as a mathematical integer.
pub open spec fn wrap_to_i32(x: u32) -> int {
    if x <= i32::MAX { x as int } else { x - 0x1_0000_0000 }
}

/// The jump from `last` to `time_cs`, as the difference of their `i32` images.
pub open spec fn time_jump(time_cs: u32, last: u32) -> int {
    wrap_to_i32(time_cs) - wrap_to_i32(last)
}

/// What a selection at `time_cs` reports, from the selector's state (the
/// comment setting, the indices active at the last selection and its time):
/// the active events, the newly activated and deactivated ones, and whether
/// the frame must be drawn again.
pub open spec fn selection_outcome(events: Seq<EventInfo>, render_comments: bool, previous: Seq<usize>,
    last: Option<u32>, time_cs: u32) -> (Seq<usize>, Seq<usize>, Seq<usize>, bool) {
    let current = active_indices(events, render_comments, time_cs);
    let newly_active = seq_minus(current, previous);
    let newly_inactive = seq_minus(previous, current);
    (current, newly_active, newly_inactive, newly_active.len() > 0 || newly_inactive.len() > 0
        || (exists|k: int| 0 <= k < current.len() && is_animated_at(events[current[k] as int], time_cs))
        || match last {
            None => true,
            Some(l) => time_jump(time_cs, l) > 100 || time_jump(time_cs, l) < -100,
        })
}

/// The text holds `\t(`, `\move(`, `\fade(` or `\fad(`: it changes from
/// frame to frame.
pub open spec fn text_moves(text: Seq<char>) -> bool {
    ||| seq_contains(text, seq!['\\', 't', '('])
    ||| seq_contains(text, seq!['\\', 'm', 'o', 'v', 'e', '('])
    ||| seq_contains(text, seq!['\\', 'f', 'a', 'd', 'e', '('])
    ||| seq_contains(text, seq!['\\', 'f', 'a', 'd', '('])
}

/// A frame in which an active event transforms, moves or fades must be drawn
/// again: when some event shown at `time_cs` holds `\t(`, `\move(`,
/// `\fade(` or `\fad(`, the selection reports the frame dirty, whatever
/// changed since the last selection.
pub proof fn lemma_animated_event_keeps_frame_dirty(events: Seq<EventInfo>, render_comments: bool,
    previous: Seq<usize>, last: Option<u32>, time_cs: u32, k: int)
    requires
        0 <= k < active_indices(events, render_comments, time_cs).len(),
        text_moves(events[active_indices(events, render_comments, time_cs)[k] as int].text@),
    ensures
        selection_outcome(events, render_comments, previous, last, time_cs).3,
{
    reveal_strlit("\\t(");
    reveal_strlit("\\move(");
    reveal_strlit("\\fade(");
    reveal_strlit("\\fad(");
    let cur = active_indices(events, render_comments, time_cs);
    let e = events[cur[k] as int];
    assert(seq!['\\', 't', '('] =~= "\\t("@);
    assert(seq!['\\', 'm', 'o', 'v', 'e', '('] =~= "\\move("@);
    assert(seq!['\\', 'f', 'a', 'd', 'e', '('] =~= "\\fade("@);
    assert(seq!['\\', 'f', 'a', 'd', '('] =~= "\\fad("@);
    assert(is_animated_at(e, time_cs));
}

/// A karaoke event that has started keeps the frame dirty: when an event
/// shown at `time_cs` holds `\k` or `\K` and its parsed start lies before
/// `time_cs`, the selection reports the frame dirty.
pub proof fn lemma_running_karaoke_keeps_frame_dirty(events: Seq<EventInfo>, render_comments: bool,
    previous: Seq<usize>, last: Option<u32>, time_cs: u32, k: int)
    requires
        0 <= k < active_indices(events, render_comments, time_cs).len(),
        ({
            let e = events[active_indices(events, render_comments, time_cs)[k] as int];
            &&& seq_contains(e.text@, seq!['\\', 'k']) || seq_contains(e.text@, seq!['\\', 'K'])
            &&& e.start_cs matches Some(st) && time_cs > st
        }),
    ensures
        selection_outcome(events, render_comments, previous, last, time_cs).3,
{
    reveal_strlit("\\k");
    reveal_strlit("\\K");
    assert(seq!['\\', 'k'] =~= "\\k"@);
    assert(seq!['\\', 'K'] =~= "\\K"@);
    let cur = active_indices(events, render_comments, time_cs);
    assert(is_animated_at(events[cur[k] as int], time_cs));
}

/// Times more than a second apart (100 centiseconds) always give a frame to
/// draw again; a frame in which nothing appeared, disappeared or moves, less
/// than a second from the last one, is not drawn again. (Times here are below
/// `2^31`, where the `i32` difference is the plain one.)
pub proof fn lemma_time_jump_decides(events: Seq<EventInfo>, render_comments: bool, previous: Seq<usize>,
    last: u32, time_cs: u32)
    requires
        last <= i32::MAX,
        time_cs <= i32::MAX,
    ensures
        time_cs - last > 100 || last - time_cs > 100
            ==> selection_outcome(events, render_comments, previous, Some(last), time_cs).3,
        jump_decides_dirtiness(events, render_comments, previous, time_cs) && -100 <= time_cs - last <= 100
            ==> !selection_outcome(events, render_comments, previous, Some(last), time_cs).3,
{
}

/// Nothing but the time jump can make the frame dirty: no event became active
/// or inactive, and no active event is animated. Only then is the jump looked at.
pub open spec fn jump_decides_dirtiness(events: Seq<EventInfo>, render_comments: bool, previous: Seq<usize>, time_cs: u32) -> bool {
    let current = active_indices(events, render_comments, time_cs);
    &&& seq_minus(current, previous).len() == 0
    &&& seq_minus(previous, current).len() == 0
    &&& !(exists|k: int| 0 <= k < current.len() && is_animated_at(events[current[k] as int], time_cs))
}

/// The `i32` subtraction and `abs` of the jump stay in range.
pub open spec fn time_jump_in_range(time_cs: u32, last: u32) -> bool {
    i32::MIN < time_jump(time_cs, last) <= i32::MAX
}

/// A region that needs re-rendering
#[derive(Debug, Clone)]
pub struct DirtyRegion {
    /// X coordinate of the region
    pub x: u32,
    /// Y coordinate of the region
    pub y: u32,
    /// Width of the region
    pub width: u32,
    /// Height of the region
    pub height: u32,
}

/// The rectangle `(x, y, w, h)` shares area with `r`.
pub open spec fn overlaps(r: DirtyRegion, x: u32, y: u32, w: u32, h: u32) -> bool {
    !(x >= r.x + r.width || x + w <= r.x || y >= r.y + r.height || y + h <= r.y)
}

/// The `u32` additions of the overlap test stay in range (the test stops at the
/// first condition that holds).
pub open spec fn overlap_test_in_range(r: DirtyRegion, x: u32, y: u32, w: u32, h: u32) -> bool {
    &&& r.x + r.width <= u32::MAX
    &&& x < r.x + r.width ==> {
        &&& x + w <= u32::MAX
        &&& x + w > r.x ==> {
            &&& r.y + r.height <= u32::MAX
            &&& y < r.y + r.height ==> y + h <= u32::MAX
        }
    }
}

/// Every region that `add_dirty_region` tests, up to the first overlapping one, is tested in range.
pub open spec fn add_dirty_in_range(regions: Seq<DirtyRegion>, x: u32, y: u32, w: u32, h: u32) -> bool {
    forall|j: int| 0 <= j < regions.len() && (forall|k: int| 0 <= k < j ==> !overlaps(#[trigger] regions[k], x, y, w, h))
        ==> overlap_test_in_range(#[trigger] regions[j], x, y, w, h)
}

/// Bounding box of `r` and `(x, y, w, h)`.
pub open spec fn expanded(r: DirtyRegion, x: u32, y: u32, w: u32, h: u32) -> DirtyRegion {
    let min_x = if r.x <= x { r.x } else { x };
    let min_y = if r.y <= y { r.y } else { y };
    let max_x = if r.x + r.width >= x + w { r.x + r.width } else { x + w };
    let max_y = if r.y + r.height >= y + h { r.y + r.height } else { y + h };
    DirtyRegion { x: min_x, y: min_y, width: (max_x - min_x) as u32, height: (max_y - min_y) as u32 }
}

/// Result of event selection with dirty tracking
#[derive(Debug)]
pub struct ActiveEvents {
    /// Indices of the currently active events, in file order
    pub events: Vec<usize>,
    /// Indices of newly activated events, ascending
    pub newly_active: Vec<usize>,
    /// Indices of newly deactivated events, ascending
    pub newly_inactive: Vec<usize>,
    /// Whether the frame needs re-rendering
    pub is_dirty: bool,
}

/// Tracks active events and dirty regions for optimized rendering
#[derive(Debug)]
pub struct EventSelector {
    previous_active: Vec<usize>,
    last_timestamp: Option<u32>,
    dirty_regions: Vec<DirtyRegion>,
    render_comments: bool,
}

impl EventSelector {
    /// Indices that were active at the last selection, ascending.
    pub closed spec fn previous(&self) -> Seq<usize> {
        self.previous_active@
    }

    /// Time of the last selection.
    pub closed spec fn last_time(&self) -> Option<u32> {
        self.last_timestamp
    }

    /// Pending dirty regions.
    pub closed spec fn regions(&self) -> Seq<DirtyRegion> {
        self.dirty_regions@
    }

    /// Whether comment events are rendered.
    pub closed spec fn renders_comments(&self) -> bool {
        self.render_comments
    }

    /// Create a new event selector; like libass it does not render comments.
    pub fn new() -> (s: Self)
        ensures
            s.previous() == Seq::<usize>::empty(),
            s.last_time() is None,
            s.regions() == Seq::<DirtyRegion>::empty(),
            !s.renders_comments(),
    {
        EventSelector {
            previous_active: Vec::new(),
            last_timestamp: None,
            dirty_regions: Vec::new(),
            render_comments: false,
        }
    }

    /// Set whether to render comment events
    pub fn set_render_comments(&mut self, render: bool)
        ensures
            final(self).renders_comments() == render,
            final(self).previous() == old(self).previous(),
            final(self).last_time() == old(self).last_time(),
            final(self).regions() == old(self).regions(),
    {
        self.render_comments = render;
    }

    /// Select the events active at `time_cs` and track changes since the last call.
    pub fn select_active(&mut self, events: &[EventInfo], time_cs: u32) -> (r: Result<ActiveEvents, RenderError>)
        requires
            old(self).last_time() matches Some(last) ==> (jump_decides_dirtiness(events@, old(self).renders_comments(),
                old(self).previous(), time_cs) ==> time_jump_in_range(time_cs, last)),
        ensures
            r matches Ok(a) && (a.events@, a.newly_active@, a.newly_inactive@, a.is_dirty) == selection_outcome(
                events@, old(self).renders_comments(), old(self).previous(), old(self).last_time(), time_cs),
            final(self).previous() == active_indices(events@, old(self).renders_comments(), time_cs),
            final(self).last_time() == Some(time_cs),
            final(self).regions() == old(self).regions(),
            final(self).renders_comments() == old(self).renders_comments(),
            (exists|k: int| 0 <= k < active_indices(events@, old(self).renders_comments(), time_cs).len()
                && text_moves(#[trigger] events@[active_indices(events@, old(self).renders_comments(), time_cs)[k] as int].text@))
                ==> (r matches Ok(a) && a.is_dirty),
    {
        proof {
            let cur = active_indices(events@, self.render_comments, time_cs);
            if exists|k: int| 0 <= k < cur.len() && text_moves(#[trigger] events@[cur[k] as int].text@) {
                let k = choose|k: int| 0 <= k < cur.len() && text_moves(#[trigger] events@[cur[k] as int].text@);
                lemma_animated_event_keeps_frame_dirty(events@, self.render_comments, self.previous_active@,
                    self.last_timestamp, time_cs, k);
            }
        }
        let render_comments = self.render_comments;
        let ghost evs = events@;

        // Active events in file order, answered from the start-sorted index
        let index = TimeIndex::build(events, render_comments);
        let current = index.active_at(Ghost(evs), Ghost(render_comments), time_cs);

        proof {
            lemma_active_prefix_bounds(evs, render_comments, time_cs, evs.len());
        }
        let newly_active = minus(&current, &self.previous_active);
        let newly_inactive = minus(&self.previous_active, &current);
        let animated = Self::has_animated_events(events, &current, time_cs);

        // The time jump is only looked at when nothing else makes the frame dirty.
        let is_dirty = if newly_active.len() > 0 || newly_inactive.len() > 0 || animated {
            true
        } else {
            match self.last_timestamp {
                None => true,
                Some(last) => {
                    let d = wrap_u32_to_i32(time_cs) - wrap_u32_to_i32(last);
                    let a = if d < 0 { -d } else { d };
                    a > 100
                }
            }
        };

        let events_out = copy_indices(&current);
        self.previous_active = current;
        self.last_timestamp = Some(time_cs);

        Ok(ActiveEvents { events: events_out, newly_active, newly_inactive, is_dirty })
    }

    /// Whether any of the listed events is animated at `time_cs`.
    fn has_animated_events(events: &[EventInfo], active: &Vec<usize>, time_cs: u32) -> (b: bool)
        requires
            forall|k: int| 0 <= k < active@.len() ==> active@[k] < events@.len(),
        ensures
            b == exists|k: int| 0 <= k < active@.len() && is_animated_at(events@[active@[k] as int], time_cs),
    {
        let mut k: usize = 0;
        while k < active.len()
            invariant
                forall|m: int| 0 <= m < active@.len() ==> active@[m] < events@.len(),
                k <= active@.len(),
                forall|m: int| 0 <= m < k ==> !is_animated_at(events@[active@[m] as int], time_cs),
            decreases active@.len() - k,
        {
            let e = &events[active[k]];
            let text = chars_of(e.text.as_str());
            if contains_str(&text, "\\t(") || contains_str(&text, "\\move(") || contains_str(&text, "\\fade(")
                || contains_str(&text, "\\fad(")
            {
                return true;
            }
            if contains_str(&text, "\\k") || contains_str(&text, "\\K") {
                if let Some(start) = e.start_cs {
                    if time_cs > start {
                        return true;
                    }
                }
            }
            k = k + 1;
        }
        false
    }

    /// Add a dirty region, growing the first pending region it overlaps.
    pub fn add_dirty_region(&mut self, x: u32, y: u32, width: u32, height: u32)
        requires
            add_dirty_in_range(old(self).regions(), x, y, width, height),
        ensures
            final(self).previous() == old(self).previous(),
            final(self).last_time() == old(self).last_time(),
            final(self).renders_comments() == old(self).renders_comments(),
            (forall|j: int| 0 <= j < old(self).regions().len() ==> !overlaps(#[trigger] old(self).regions()[j], x, y, width, height))
                ==> final(self).regions() == old(self).regions().push(DirtyRegion { x, y, width, height }),
            forall|j: int| 0 <= j < old(self).regions().len()
                && overlaps(#[trigger] old(self).regions()[j], x, y, width, height)
                && (forall|k: int| 0 <= k < j ==> !overlaps(#[trigger] old(self).regions()[k], x, y, width, height))
                ==> final(self).regions() == old(self).regions().update(j, expanded(old(self).regions()[j], x, y, width, height)),
    {
        let mut i: usize = 0;
        while i < self.dirty_regions.len()
            invariant
                self.dirty_regions@ == old(self).dirty_regions@,
                self.previous_active@ == old(self).previous_active@,
                self.last_timestamp == old(self).last_timestamp,
                self.render_comments == old(self).render_comments,
                i <= self.dirty_regions@.len(),
                add_dirty_in_range(self.dirty_regions@, x, y, width, height),
                forall|k: int| 0 <= k < i ==> !overlaps(#[trigger] self.dirty_regions@[k], x, y, width, height),
            decreases self.dirty_regions@.len() - i,
        {
            let rx = self.dirty_regions[i].x;
            let ry = self.dirty_regions[i].y;
            let rw = self.dirty_regions[i].width;
            let rh = self.dirty_regions[i].height;
            proof {
                assert(overlap_test_in_range(self.dirty_regions@[i as int], x, y, width, height));
            }
            if Self::regions_overlap(&self.dirty_regions[i], x, y, width, height) {
                let min_x = if rx <= x { rx } else { x };
                let min_y = if ry <= y { ry } else { y };
                let max_x = if rx + rw >= x + width { rx + rw } else { x + width };
                let max_y = if ry + rh >= y + height { ry + rh } else { y + height };
                let merged = DirtyRegion { x: min_x, y: min_y, width: max_x - min_x, height: max_y - min_y };
                self.dirty_regions.set(i, merged);
                return;
            }
            i = i + 1;
        }

        self.dirty_regions.push(DirtyRegion { x, y, width, height });
    }

    /// Check if two regions overlap
    pub fn regions_overlap(region: &DirtyRegion, x: u32, y: u32, width: u32, height: u32) -> (b: bool)
        requires
            overlap_test_in_range(*region, x, y, width, height),
        ensures
            b == overlaps(*region, x, y, width, height),
    {
        !(x >= region.x + region.width || x + width <= region.x || y >= region.y + region.height || y + height
            <= region.y)
    }

    /// Get current dirty regions
    pub fn dirty_regions(&self) -> (r: &[DirtyRegion])
        ensures
            r@ == self.regions(),
    {
        self.dirty_regions.as_slice()
    }

    /// Clear dirty regions after rendering
    pub fn clear_dirty_regions(&mut self)
        ensures
            final(self).regions() == Seq::<DirtyRegion>::empty(),
            final(self).previous() == old(self).previous(),
            final(self).last_time() == old(self).last_time(),
            final(self).renders_comments() == old(self).renders_comments(),
    {
        self.dirty_regions.clear();
    }

    /// Reset selector state (the comment setting is kept)
    pub fn reset(&mut self)
        ensures
            final(self).previous() == Seq::<usize>::empty(),
            final(self).last_time() is None,
            final(self).regions() == Seq::<DirtyRegion>::empty(),
            final(self).renders_comments() == old(self).renders_comments(),
    {
        self.previous_active.clear();
        self.last_timestamp = None;
        self.dirty_regions.clear();
    }
}

impl Default for EventSelector {
    fn default() -> (s: Self)
        ensures
            s.previous() == Seq::<usize>::empty(),
            s.last_time() is None,
            s.regions() == Seq::<DirtyRegion>::empty(),
            !s.renders_comments(),
    {
        Self::new()
    }
}

/// Indices of the events active at `time_cs`, as a fresh selector (which does
/// not render comments) reports them.
pub fn select_active_events(events: &[EventInfo], time_cs: u32) -> (v: Vec<usize>)
    ensures
        v@ == active_indices(events@, false, time_cs),
{
    let mut selector = EventSelector::new();
    match selector.select_active(events, time_cs) {
        Ok(active) => active.events,
        Err(_) => Vec::new(),
    }
}

/// Visibility of an event under the interval rule of dirty-region tracking:
/// an unparsable start counts as 0, an unparsable end as never ending, and the
/// end is exclusive.
pub open spec fn visible_for_dirty_tracking(e: EventInfo, time_cs: u32) -> bool {
    (match e.start_cs { Some(s) => s, None => 0 }) <= time_cs
        && time_cs < (match e.end_cs { Some(s) => s, None => u32::MAX })
}

/// Dirty regions between two frames: the whole screen when some event became
/// visible or invisible between `prev_time_cs` and `time_cs`, none otherwise.
pub fn compute_dirty_regions(events: &[EventInfo], time_cs: u32, prev_time_cs: u32)
    -> (r: Result<Vec<crate::regions::DirtyRegion>, RenderError>)
    ensures
        r matches Ok(v) && (if exists|i: int| 0 <= i < events@.len()
            && visible_for_dirty_tracking(#[trigger] events@[i], prev_time_cs) != visible_for_dirty_tracking(events@[i], time_cs) {
            v@ == seq![crate::regions::DirtyRegion { x: 0, y: 0, width: u32::MAX, height: u32::MAX }]
        } else {
            v@.len() == 0
        }),
{
    let mut regions: Vec<crate::regions::DirtyRegion> = Vec::new();
    let mut i: usize = 0;
    while i < events.len()
        invariant
            i <= events@.len(),
            regions@.len() == 0,
            forall|k: int| 0 <= k < i ==> visible_for_dirty_tracking(#[trigger] events@[k], prev_time_cs)
                == visible_for_dirty_tracking(events@[k], time_cs),
        decreases events@.len() - i,
    {
        let e = &events[i];
        let start = match e.start_cs { Some(s) => s, None => 0 };
        let end = match e.end_cs { Some(s) => s, None => u32::MAX };
        let was_active = start <= prev_time_cs && end > prev_time_cs;
        let is_active = start <= time_cs && end > time_cs;
        if was_active != is_active {
            regions.push(crate::regions::DirtyRegion::full_screen());
            assert(regions@ =~= seq![crate::regions::DirtyRegion { x: 0, y: 0, width: u32::MAX, height: u32::MAX }]);
            return Ok(regions);
        }
        i = i + 1;
    }
    Ok(regions)
}

/// The comment setting decides every selection made under it: an event is
/// listed exactly when it is shown at that time and is a `Dialogue`, or a
/// `Comment` while comments are rendered. A new selector does not render
/// comments, `set_render_comments` sets the setting, and no other method
/// changes it, so every selection until the next `set_render_comments` lists
/// comments exactly when the last setting asked for them.
pub proof fn lemma_selection_follows_comment_setting(events: Seq<EventInfo>, render_comments: bool, time_cs: u32, i: usize)
    requires
        events.len() <= usize::MAX,
    ensures
        active_indices(events, render_comments, time_cs).contains(i) <==> {
            &&& i < events.len()
            &&& (events[i as int].kind == EventKind::Dialogue
                || (events[i as int].kind == EventKind::Comment && render_comments))
            &&& start_or_zero(events[i as int]) <= time_cs <= end_or_zero(events[i as int])
        },
{
    crate::time_index::lemma_active_prefix_members(events, render_comments, time_cs, events.len());
}

/// Clearing the dirty regions changes nothing that a selection reads: a
/// selector after `clear_dirty_regions` reports for its next selection just
/// what it would have reported before.
pub proof fn lemma_clearing_regions_keeps_next_selection(before: EventSelector, after: EventSelector,
    events: Seq<EventInfo>, time_cs: u32)
    requires
        after.previous() == before.previous(),
        after.last_time() == before.last_time(),
        after.renders_comments() == before.renders_comments(),
    ensures
        selection_outcome(events, after.renders_comments(), after.previous(), after.last_time(), time_cs)
            == selection_outcome(events, before.renders_comments(), before.previous(), before.last_time(), time_cs),
{
}

/// Selecting again at the same time with the same events reports no newly
/// activated and no newly deactivated events.
pub proof fn lemma_reselect_reports_no_change(current: Seq<usize>)
    ensures
        seq_minus(current, current).len() == 0,
{
    lemma_minus_of_subset(current, current);
}

proof fn lemma_minus_of_subset(a: Seq<usize>, b: Seq<usize>)
    requires
        forall|k: int| 0 <= k < a.len() ==> b.contains(#[trigger] a[k]),
    ensures
        seq_minus(a, b).len() == 0,
    decreases a.len(),
{
    reveal_with_fuel(Seq::filter, 1);
    if a.len() > 0 {
        lemma_minus_of_subset(a.drop_last(), b);
        assert(b.contains(a[a.len() - 1]));
    }
}

/// After a reset (or on a fresh selector) every active event is reported as newly active.
pub proof fn lemma_fresh_selection_all_new(current: Seq<usize>)
    ensures
        seq_minus(current, Seq::<usize>::empty()) == current,
    decreases current.len(),
{
    reveal_with_fuel(Seq::filter, 1);
    if current.len() > 0 {
        lemma_fresh_selection_all_new(current.drop_last());
        assert(current.drop_last().push(current.last()) =~= current);
    }
}

/// An event is never reported both as newly active and as newly inactive.
pub proof fn lemma_changes_disjoint(current: Seq<usize>, previous: Seq<usize>, i: usize)
    ensures
        !(seq_minus(current, previous).contains(i) && seq_minus(previous, current).contains(i)),
{
    if seq_minus(current, previous).contains(i) && seq_minus(previous, current).contains(i) {
        current.lemma_filter_contains_rev(|x: usize| !previous.contains(x), i);
        previous.lemma_filter_contains_rev(|x: usize| !current.contains(x), i);
    }
}

/// `x as i32`
fn wrap_u32_to_i32(x: u32) -> (r: i64)
    ensures
        r == wrap_to_i32(x),
{
    if x <= 0x7fff_ffff { x as i64 } else { x as i64 - 0x1_0000_0000 }
}

fn copy_indices(v: &Vec<usize>) -> (r: Vec<usize>)
    ensures
        r@ == v@,
{
    let mut r: Vec<usize> = Vec::new();
    let mut i: usize = 0;
    while i < v.len()
        invariant
            i <= v@.len(),
            r@ == v@.take(i as int),
        decreases v@.len() - i,
    {
        r.push(v[i]);
        i = i + 1;
    }
    assert(v@.take(v@.len() as int) =~= v@);
    r
}

fn contains_index(v: &Vec<usize>, x: usize) -> (b: bool)
    ensures
        b == v@.contains(x),
{
    let mut i: usize = 0;
    while i < v.len()
        invariant
            i <= v@.len(),
            forall|k: int| 0 <= k < i ==> v@[k] != x,
        decreases v@.len() - i,
    {
        if v[i] == x {
            return true;
        }
        i = i + 1;
    }
    false
}

/// Elements of `a` that are not in `b`, in the order of `a`.
fn minus(a: &Vec<usize>, b: &Vec<usize>) -> (r: Vec<usize>)
    ensures
        r@ == seq_minus(a@, b@),
{
    let mut r: Vec<usize> = Vec::new();
    let mut i: usize = 0;
    while i < a.len()
        invariant
            i <= a@.len(),
            r@ == a@.take(i as int).filter(|x: usize| !b@.contains(x)),
        decreases a@.len() - i,
    {
        proof {
            reveal_with_fuel(Seq::filter, 1);
            assert(a@.take(i + 1).drop_last() =~= a@.take(i as int));
        }
        if !contains_index(b, a[i]) {
            r.push(a[i]);
        }
        i = i + 1;
    }
    assert(a@.take(a@.len() as int) =~= a@);
    r
}

} // verus!
