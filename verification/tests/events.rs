use ass_renderer::event_selector::{compute_dirty_regions, select_active_events, EventInfo, EventKind, EventSelector};
use ass_renderer::regions::DirtyRegion;

fn ev(kind: EventKind, start: Option<u32>, end: Option<u32>, text: &str) -> EventInfo {
    EventInfo { kind, start_cs: start, end_cs: end, text: text.to_string() }
}

fn sample() -> Vec<EventInfo> {
    vec![
        ev(EventKind::Dialogue, Some(0), Some(100), "Hello"),
        ev(EventKind::Comment, Some(0), Some(100), "note"),
        ev(EventKind::Dialogue, Some(50), Some(150), "{\\fad(100,100)}x"),
        ev(EventKind::Other, Some(0), Some(1000), "pic"),
    ]
}

#[test]
fn select_reports_active_and_changes() {
    let events = sample();
    let mut s = EventSelector::new();
    let a = s.select_active(&events, 60).unwrap();
    assert_eq!(a.events, vec![0, 2]);
    assert_eq!(a.newly_active, vec![0, 2]);
    assert!(a.newly_inactive.is_empty());
    assert!(a.is_dirty);

    let b = s.select_active(&events, 120).unwrap();
    assert_eq!(b.events, vec![2]);
    assert!(b.newly_active.is_empty());
    assert_eq!(b.newly_inactive, vec![0]);
}

#[test]
fn reselect_same_time_without_animation_is_clean() {
    let events = vec![ev(EventKind::Dialogue, Some(0), Some(100), "plain")];
    let mut s = EventSelector::new();
    assert!(s.select_active(&events, 10).unwrap().is_dirty);
    let again = s.select_active(&events, 10).unwrap();
    assert!(again.newly_active.is_empty());
    assert!(again.newly_inactive.is_empty());
    assert!(!again.is_dirty);
    // a jump of more than one second re-renders
    let far = s.select_active(&events, 50).unwrap();
    assert!(!far.is_dirty);
    let farther = s.select_active(&events, 5).unwrap();
    assert!(!farther.is_dirty);
}

#[test]
fn large_time_jump_is_dirty() {
    let events = vec![ev(EventKind::Dialogue, Some(0), Some(1000), "plain")];
    let mut s = EventSelector::new();
    s.select_active(&events, 10).unwrap();
    assert!(s.select_active(&events, 111).unwrap().is_dirty);
    assert!(!s.select_active(&events, 11).unwrap().is_dirty);
    assert!(s.select_active(&events, 112).unwrap().is_dirty);
}

#[test]
fn animated_event_stays_dirty() {
    let events = sample();
    let mut s = EventSelector::new();
    s.select_active(&events, 60).unwrap();
    let again = s.select_active(&events, 60).unwrap();
    assert!(again.newly_active.is_empty());
    assert!(again.is_dirty);
}

#[test]
fn karaoke_dirty_after_start() {
    let events = vec![ev(EventKind::Dialogue, Some(10), Some(100), "{\\k20}ka")];
    let mut s = EventSelector::new();
    s.select_active(&events, 10).unwrap();
    assert!(!s.select_active(&events, 10).unwrap().is_dirty);
    assert!(s.select_active(&events, 11).unwrap().is_dirty);
}

#[test]
fn comments_rendered_on_request() {
    let events = sample();
    let mut s = EventSelector::new();
    s.set_render_comments(true);
    assert_eq!(s.select_active(&events, 60).unwrap().events, vec![0, 1, 2]);
}

#[test]
fn unparsable_times_count_as_zero() {
    let events = vec![ev(EventKind::Dialogue, None, None, "x")];
    assert_eq!(select_active_events(&events, 0), vec![0]);
    assert!(select_active_events(&events, 1).is_empty());
}

#[test]
fn reset_forgets_previous() {
    let events = sample();
    let mut s = EventSelector::new();
    s.select_active(&events, 60).unwrap();
    s.add_dirty_region(0, 0, 10, 10);
    s.reset();
    assert!(s.dirty_regions().is_empty());
    let a = s.select_active(&events, 60).unwrap();
    assert_eq!(a.newly_active, vec![0, 2]);
}

#[test]
fn dirty_regions_merge_on_overlap() {
    let mut s = EventSelector::new();
    s.add_dirty_region(0, 0, 10, 10);
    s.add_dirty_region(5, 5, 10, 10);
    s.add_dirty_region(100, 100, 1, 1);
    let r = s.dirty_regions();
    assert_eq!(r.len(), 2);
    assert_eq!((r[0].x, r[0].y, r[0].width, r[0].height), (0, 0, 15, 15));
    assert_eq!((r[1].x, r[1].y, r[1].width, r[1].height), (100, 100, 1, 1));
    // touching edges do not overlap
    s.add_dirty_region(15, 0, 5, 5);
    assert_eq!(s.dirty_regions().len(), 3);
    s.clear_dirty_regions();
    assert!(s.dirty_regions().is_empty());
}

#[test]
fn regions_overlap_checks_area() {
    let mut s = EventSelector::new();
    s.add_dirty_region(0, 0, 4, 4);
    let r = &s.dirty_regions()[0];
    assert!(EventSelector::regions_overlap(r, 3, 3, 2, 2));
    assert!(!EventSelector::regions_overlap(r, 4, 0, 2, 2));
}

#[test]
fn visibility_change_marks_full_screen() {
    let events = vec![ev(EventKind::Dialogue, Some(10), Some(20), "x")];
    assert_eq!(compute_dirty_regions(&events, 15, 5).unwrap(), vec![DirtyRegion::full_screen()]);
    assert!(compute_dirty_regions(&events, 15, 12).unwrap().is_empty());
    assert_eq!(compute_dirty_regions(&events, 20, 19).unwrap(), vec![DirtyRegion::full_screen()]);
}

#[test]
fn active_events_listed_in_file_order_whatever_their_start() {
    let events = vec![
        ev(EventKind::Dialogue, Some(300), Some(900), "late start"),
        ev(EventKind::Dialogue, Some(100), Some(500), "early start"),
        ev(EventKind::Dialogue, Some(200), Some(250), "short"),
        ev(EventKind::Dialogue, Some(200), Some(800), "same start"),
        ev(EventKind::Dialogue, Some(600), Some(700), "not yet"),
        ev(EventKind::Comment, Some(0), Some(1000), "comment"),
    ];
    assert_eq!(select_active_events(&events, 400), vec![0, 1, 3]);
    assert_eq!(select_active_events(&events, 200), vec![1, 2, 3]);
    assert_eq!(select_active_events(&events, 250), vec![1, 2, 3]);
    assert_eq!(select_active_events(&events, 900), vec![0]);
    assert_eq!(select_active_events(&events, 901), Vec::<usize>::new());
    assert_eq!(select_active_events(&[], 10), Vec::<usize>::new());
}

#[test]
fn selector_with_comments_uses_same_order() {
    let events = vec![
        ev(EventKind::Comment, Some(50), Some(60), "c"),
        ev(EventKind::Dialogue, Some(10), Some(60), "d"),
        ev(EventKind::Other, Some(0), Some(100), "o"),
    ];
    let mut s = EventSelector::new();
    s.set_render_comments(true);
    let r = s.select_active(&events, 55).unwrap();
    assert_eq!(r.events, vec![0, 1]);
    assert_eq!(r.newly_active, vec![0, 1]);
}

#[test]
fn jump_beyond_i32_is_fine_when_events_changed() {
    let events = vec![ev(EventKind::Dialogue, Some(0), Some(100), "a")];
    let mut s = EventSelector::new();
    s.select_active(&events, 0).unwrap();
    let r = s.select_active(&events, 0x8000_0000).unwrap();
    assert!(r.events.is_empty());
    assert_eq!(r.newly_inactive, vec![0]);
    assert!(r.is_dirty);
}
