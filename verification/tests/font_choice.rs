use ass_renderer::font_choice::{is_japanese_family, CoverageScan};

#[test]
fn japanese_family_names_are_recognised() {
    assert!(is_japanese_family("Noto Sans CJK JP"));
    assert!(is_japanese_family("Hiragino Mincho"));
    assert!(is_japanese_family("MS Gothic"));
    assert!(is_japanese_family("Meiryo UI"));
    assert!(is_japanese_family("Yu Gothic Medium"));
    assert!(!is_japanese_family("Arial"));
    assert!(!is_japanese_family("Noto Sans"));
    assert!(!is_japanese_family(""));
}

#[test]
fn coverage_scan_keeps_first_best_improvement() {
    let mut scan = CoverageScan::new(3, 10);
    assert!(!scan.is_done());
    assert_eq!(scan.best(), None);
    scan.offer(2);
    assert_eq!(scan.best(), None);
    scan.offer(3);
    assert_eq!(scan.best(), None);
    scan.offer(5);
    assert_eq!(scan.best(), Some(2));
    scan.offer(5);
    assert_eq!(scan.best(), Some(2));
    scan.offer(7);
    assert_eq!(scan.best(), Some(4));
    assert!(!scan.is_done());
    scan.offer(10);
    assert_eq!(scan.best(), Some(5));
    assert!(scan.is_done());
}

#[test]
fn coverage_scan_done_when_font_in_hand_covers_all() {
    let scan = CoverageScan::new(4, 4);
    assert!(scan.is_done());
    assert_eq!(scan.best(), None);
}

#[test]
fn coverage_scan_without_better_candidate_chooses_none() {
    let mut scan = CoverageScan::new(1, 1);
    assert!(scan.is_done());
    let mut scan2 = CoverageScan::new(0, 1);
    scan2.offer(0);
    scan2.offer(0);
    assert_eq!(scan2.best(), None);
    assert!(!scan2.is_done());
    scan2.offer(1);
    assert_eq!(scan2.best(), Some(2));
    assert!(scan2.is_done());
    scan = CoverageScan::new(0, 5);
    scan.offer(5);
    assert_eq!(scan.best(), Some(0));
}
