//! Performance metrics and cache statistics for the renderer.
use vstd::prelude::*;
use std::time::Duration;

verus! {

/// `Duration` is `Copy`; its `clone` returns an identical value.
pub assume_specification[ <Duration as Clone>::clone ](d: &Duration) -> (r: Duration)
    ensures
        r == *d,
;

/// Performance metrics for rendering
#[derive(Debug, Clone)]
pub struct PerformanceMetrics {
    /// Time spent parsing the script
    pub parse_time: Duration,
    /// Time spent shaping text
    pub shape_time: Duration,
    /// Time spent rendering
    pub render_time: Duration,
    /// Total time for the operation
    pub total_time: Duration,
}

/// Cache statistics
#[derive(Debug, Clone)]
pub struct CacheStatistics {
    /// Number of glyph cache hits
    pub glyph_hits: usize,
    /// Number of font database entries
    pub font_entries: usize,
}

} // verus!
