//! Verified core of an ASS subtitle renderer.
use vstd::prelude::*;

pub mod atlas;
pub mod backend;
pub mod compositing;
pub mod error;
pub mod frame;
pub mod metrics;
pub mod pipeline;
pub mod regions;
pub mod validation;
pub mod text;
pub mod event_selector;
pub mod blur;
pub mod strings;
pub mod tags;
pub mod tag_split;
pub mod style;
pub mod segment;
pub mod glyph_cache;
pub mod time_index;
pub mod font_choice;
pub mod tag_apply;
