//! Row-packed texture atlas for GPU glyph uploads.
use vstd::prelude::*;

verus! {

/// Region in texture atlas
#[derive(Debug, Clone)]
pub struct AtlasRegion {
    /// Region ID
    pub id: u32,
    /// X coordinate in atlas
    pub x: u32,
    /// Y coordinate in atlas
    pub y: u32,
    /// Region width
    pub width: u32,
    /// Region height
    pub height: u32,
}

/// Two regions share a cell of positive area.
pub open spec fn regions_overlap(a: AtlasRegion, b: AtlasRegion) -> bool {
    &&& a.x < b.x + b.width
    &&& b.x < a.x + a.width
    &&& a.y < b.y + b.height
    &&& b.y < a.y + a.height
}

/// No two distinct regions of the sequence overlap.
pub open spec fn pairwise_disjoint(s: Seq<AtlasRegion>) -> bool {
    forall|i: int, j: int|
        0 <= i < s.len() && 0 <= j < s.len() && i != j ==> !regions_overlap(#[trigger] s[i], #[trigger] s[j])
}

/// The regions handed out so far are numbered 0, 1, 2, ... (as `u32`) in the
/// order they were handed out, lie inside a `width x height` atlas, and no two
/// of them overlap.
pub open spec fn regions_laid_out(s: Seq<AtlasRegion>, width: u32, height: u32) -> bool {
    &&& forall|i: int| 0 <= i < s.len() ==> (#[trigger] s[i]).id == i as u32
    &&& forall|i: int| 0 <= i < s.len() ==> (#[trigger] s[i]).x + s[i].width <= width && s[i].y + s[i].height <= height
    &&& pairwise_disjoint(s)
}

/// Texture atlas for GPU backends
pub struct TextureAtlas {
    width: u32,
    height: u32,
    data: Vec<u8>,
    allocations: Vec<AtlasRegion>,
    next_x: u32,
    next_y: u32,
    row_height: u32,
}

/// Copy `src` into `d` starting at `offset`, keeping the length of `d`.
pub open spec fn overwrite(d: Seq<u8>, offset: int, src: Seq<u8>) -> Seq<u8> {
    Seq::new(d.len(), |i: int| if offset <= i < offset + src.len() { src[i - offset] } else { d[i] })
}

/// Start of row `y` of `region` in the caller's source buffer.
pub open spec fn src_row_start(region: AtlasRegion, y: int) -> int {
    y * region.width * 4
}

/// Start of row `y` of `region` in the atlas buffer.
pub open spec fn dst_row_start(atlas_width: u32, region: AtlasRegion, y: int) -> int {
    (region.y + y) * (atlas_width * 4) + region.x * 4
}

/// Row `y` is copied: both its source and its destination range lie in their buffers.
pub open spec fn row_in_bounds(atlas_width: u32, atlas_len: int, region: AtlasRegion, src_len: int, y: int) -> bool {
    &&& src_row_start(region, y) + region.width * 4 <= src_len
    &&& dst_row_start(atlas_width, region, y) + region.width * 4 <= atlas_len
}

/// Atlas contents after the first `n` rows of `region` were written from `src`;
/// a row whose source or destination range does not fit is skipped.
pub open spec fn rows_written(d: Seq<u8>, atlas_width: u32, region: AtlasRegion, src: Seq<u8>, n: nat) -> Seq<u8>
    decreases n,
{
    if n == 0 {
        d
    } else {
        let prev = rows_written(d, atlas_width, region, src, (n - 1) as nat);
        let y = n - 1;
        if row_in_bounds(atlas_width, d.len() as int, region, src.len() as int, y) {
            let s = src_row_start(region, y);
            overwrite(prev, dst_row_start(atlas_width, region, y), src.subrange(s, s + region.width * 4))
        } else {
            prev
        }
    }
}

/// The offsets that `write_region` computes in `u32` and `usize` stay in range for every row.
pub open spec fn write_offsets_fit(atlas_width: u32, region: AtlasRegion) -> bool {
    forall|y: int| 0 <= y < region.height ==> {
        &&& region.width * 4 <= u32::MAX
        &&& region.x * 4 <= u32::MAX
        &&& y * region.width <= u32::MAX
        &&& #[trigger] src_row_start(region, y) <= u32::MAX
        &&& region.y + y <= u32::MAX
        &&& (region.y + y) * (atlas_width * 4) <= u32::MAX
        &&& dst_row_start(atlas_width, region, y) <= u32::MAX
        &&& src_row_start(region, y) + region.width * 4 <= usize::MAX
        &&& dst_row_start(atlas_width, region, y) + region.width * 4 <= usize::MAX
    }
}

impl TextureAtlas {
    /// Atlas width in pixels.
    pub closed spec fn atlas_width(&self) -> u32 {
        self.width
    }

    /// Atlas height in pixels.
    pub closed spec fn atlas_height(&self) -> u32 {
        self.height
    }

    /// RGBA bytes of the atlas.
    pub closed spec fn pixels(&self) -> Seq<u8> {
        self.data@
    }

    /// Regions handed out so far, in order.
    pub closed spec fn regions(&self) -> Seq<AtlasRegion> {
        self.allocations@
    }

    /// Horizontal position of the next allocation in the current row.
    pub closed spec fn pen_x(&self) -> u32 {
        self.next_x
    }

    /// Top of the current row.
    pub closed spec fn pen_y(&self) -> u32 {
        self.next_y
    }

    /// Height of the tallest region in the current row.
    pub closed spec fn current_row_height(&self) -> u32 {
        self.row_height
    }

    /// Internal consistency of the atlas.
    #[verifier::type_invariant]
    spec fn wf(&self) -> bool {
        &&& self.width * self.height * 4 <= u32::MAX
        &&& self.data@.len() == self.width * self.height * 4
        &&& self.next_y + self.row_height <= self.height
        &&& self.next_x <= self.width
        &&& forall|i: int| 0 <= i < self.allocations@.len() ==> (#[trigger] self.allocations@[i]).id == i as u32
        &&& forall|i: int| 0 <= i < self.allocations@.len() ==> {
            let a = #[trigger] self.allocations@[i];
            &&& a.x + a.width <= self.width
            &&& a.y + a.height <= self.height
            &&& (a.y + a.height <= self.next_y
                || (a.y == self.next_y && a.x + a.width <= self.next_x && a.height <= self.row_height))
        }
        &&& pairwise_disjoint(self.allocations@)
    }

    /// Where the next allocation of the given width starts, as `(x, y, row height)`:
    /// a request that does not fit in the rest of the current row opens a new row.
    pub open spec fn placement(&self, width: u32) -> (int, int, int) {
        if self.pen_x() + width > self.atlas_width() {
            (0, self.pen_y() + self.current_row_height(), 0)
        } else {
            (self.pen_x() as int, self.pen_y() as int, self.current_row_height() as int)
        }
    }

    /// The additions that `allocate` makes for a request no wider than the
    /// atlas stay in `u32`.
    pub open spec fn allocate_in_range(&self, width: u32, height: u32) -> bool {
        width <= self.atlas_width() ==> {
            &&& self.pen_x() + width <= u32::MAX
            &&& self.placement(width).1 + height <= u32::MAX
        }
    }

    /// Create a new texture atlas
    pub fn new(width: u32, height: u32) -> (atlas: Self)
        requires
            width * height * 4 <= u32::MAX,
        ensures
            atlas.atlas_width() == width,
            atlas.atlas_height() == height,
            atlas.pixels() == Seq::new((width * height * 4) as nat, |i: int| 0u8),
            atlas.regions() == Seq::<AtlasRegion>::empty(),
            atlas.pen_x() == 0,
            atlas.pen_y() == 0,
            atlas.current_row_height() == 0,
    {
        proof {
            vstd::arithmetic::mul::lemma_mul_nonnegative(width as int, height as int);
        }
        let size = width * height * 4;
        let data: Vec<u8> = vec![0u8; size as usize];
        let atlas = TextureAtlas {
            width,
            height,
            data,
            allocations: Vec::new(),
            next_x: 0,
            next_y: 0,
            row_height: 0,
        };
        assert(atlas.data@ =~= Seq::new((width * height * 4) as nat, |i: int| 0u8));
        atlas
    }

    /// Allocate a region in the atlas. A request wider than the atlas cannot
    /// lie inside it and is refused without changing the atlas.
    pub fn allocate(&mut self, width: u32, height: u32) -> (r: Option<AtlasRegion>)
        requires
            old(self).allocate_in_range(width, height),
        ensures
            regions_laid_out(final(self).regions(), final(self).atlas_width(), final(self).atlas_height()),
            final(self).atlas_width() == old(self).atlas_width(),
            final(self).atlas_height() == old(self).atlas_height(),
            final(self).pixels() == old(self).pixels(),
            r matches Some(reg) ==> {
                &&& reg.width == width
                &&& reg.height == height
                &&& reg.x + reg.width <= final(self).atlas_width()
                &&& reg.y + reg.height <= final(self).atlas_height()
            },
            width > old(self).atlas_width() ==> {
                &&& r is None
                &&& final(self).regions() == old(self).regions()
                &&& final(self).pen_x() == old(self).pen_x()
                &&& final(self).pen_y() == old(self).pen_y()
                &&& final(self).current_row_height() == old(self).current_row_height()
            },
            width <= old(self).atlas_width() ==> ({
                let (px, py, rh) = old(self).placement(width);
                if py + height > old(self).atlas_height() {
                    &&& r is None
                    &&& final(self).regions() == old(self).regions()
                    &&& final(self).pen_x() == px
                    &&& final(self).pen_y() == py
                    &&& final(self).current_row_height() == rh
                } else {
                    let reg = AtlasRegion {
                        id: old(self).regions().len() as u32,
                        x: px as u32,
                        y: py as u32,
                        width,
                        height,
                    };
                    &&& r == Some(reg)
                    &&& final(self).regions() == old(self).regions().push(reg)
                    &&& final(self).pen_x() == px + width
                    &&& final(self).pen_y() == py
                    &&& final(self).current_row_height() == if rh >= height { rh } else { height as int }
                }
            }),
    {
        proof {
            use_type_invariant(&*self);
        }
        if width > self.width {
            return None;
        }
        // The regions are taken out of the atlas while the pen moves, so that
        // the atlas stays consistent at every step.
        let mut allocations: Vec<AtlasRegion> = Vec::new();
        std::mem::swap(&mut allocations, &mut self.allocations);
        let ghost before = allocations@;
        let ghost old_next_y = self.next_y;
        let ghost old_row = self.row_height;
        let mut next_x = self.next_x;
        let mut next_y = self.next_y;
        let mut row_height = self.row_height;
        // Simple row-based packing
        if next_x + width > self.width {
            // Move to next row
            next_x = 0;
            next_y = next_y + row_height;
            row_height = 0;
            assert forall|i: int| 0 <= i < before.len() implies {
                let a = #[trigger] before[i];
                a.y + a.height <= next_y
            } by {
                let a = before[i];
                assert(a.y + a.height <= old_next_y || (a.y == old_next_y && a.height <= old_row));
            }
        }

        if next_y + height > self.height {
            // Atlas is full
            self.row_height = 0;
            self.next_y = next_y;
            self.next_x = next_x;
            self.row_height = row_height;
            self.allocations = allocations;
            return None;
        }

        let id = allocations.len() as u32;
        let region = AtlasRegion { id, x: next_x, y: next_y, width, height };
        let stored = AtlasRegion { id, x: next_x, y: next_y, width, height };

        next_x = next_x + width;
        if height > row_height {
            row_height = height;
        }
        allocations.push(stored);
        proof {
            let s = allocations@;
            assert(s == before.push(stored));
            assert forall|i: int, j: int|
                0 <= i < s.len() && 0 <= j < s.len() && i != j implies !regions_overlap(#[trigger] s[i], #[trigger] s[j])
            by {
                if i < before.len() && j < before.len() {
                    assert(s[i] == before[i] && s[j] == before[j]);
                } else if i == before.len() {
                    assert(s[j] == before[j]);
                } else {
                    assert(s[i] == before[i]);
                }
            }
            assert forall|i: int| 0 <= i < s.len() implies (#[trigger] s[i]).id == i as u32 by {
                if i < before.len() {
                    assert(s[i] == before[i]);
                }
            }
            assert forall|i: int| 0 <= i < s.len() implies {
                let a = #[trigger] s[i];
                &&& a.x + a.width <= self.width
                &&& a.y + a.height <= self.height
                &&& (a.y + a.height <= next_y
                    || (a.y == next_y && a.x + a.width <= next_x && a.height <= row_height))
            } by {
                if i < before.len() {
                    assert(s[i] == before[i]);
                }
            }
        }
        self.row_height = 0;
        self.next_y = next_y;
        self.next_x = next_x;
        self.row_height = row_height;
        self.allocations = allocations;

        Some(region)
    }

    /// Write data to a region
    pub fn write_region(&mut self, region: &AtlasRegion, data: &[u8])
        requires
            old(self).atlas_width() * 4 <= u32::MAX,
            write_offsets_fit(old(self).atlas_width(), *region),
        ensures
            regions_laid_out(final(self).regions(), final(self).atlas_width(), final(self).atlas_height()),
            final(self).atlas_width() == old(self).atlas_width(),
            final(self).atlas_height() == old(self).atlas_height(),
            final(self).regions() == old(self).regions(),
            final(self).pen_x() == old(self).pen_x(),
            final(self).pen_y() == old(self).pen_y(),
            final(self).current_row_height() == old(self).current_row_height(),
            final(self).pixels() == rows_written(
                old(self).pixels(),
                old(self).atlas_width(),
                *region,
                data@,
                region.height as nat,
            ),
    {
        proof {
            use_type_invariant(&*self);
        }
        let ghost d0 = self.data@;
        let stride = self.width * 4;
        let mut y: u32 = 0;
        while y < region.height
            invariant
                self.wf(),
                self.width == old(self).width,
                self.height == old(self).height,
                self.allocations == old(self).allocations,
                self.next_x == old(self).next_x,
                self.next_y == old(self).next_y,
                self.row_height == old(self).row_height,
                d0 == old(self).data@,
                self.data@.len() == d0.len(),
                stride == self.width * 4,
                y <= region.height,
                write_offsets_fit(self.width, *region),
                self.data@ == rows_written(d0, self.width, *region, data@, y as nat),
            decreases region.height - y,
        {
            assert(src_row_start(*region, y as int) <= u32::MAX);
            let src_offset = (y * region.width * 4) as usize;
            let dst_offset = ((region.y + y) * stride + region.x * 4) as usize;
            let src_end = src_offset + (region.width * 4) as usize;
            let dst_end = dst_offset + (region.width * 4) as usize;
            let ghost prev = self.data@;
            assert(src_offset == src_row_start(*region, y as int));
            assert(dst_offset == dst_row_start(self.width, *region, y as int));
            assert((src_end <= data.len() && dst_end <= self.data.len())
                == row_in_bounds(self.width, d0.len() as int, *region, data@.len() as int, y as int));

            if src_end <= data.len() && dst_end <= self.data.len() {
                let mut k: usize = 0;
                while k < (region.width * 4) as usize
                    invariant
                        self.wf(),
                        self.width == old(self).width,
                        self.height == old(self).height,
                        self.allocations == old(self).allocations,
                        self.next_x == old(self).next_x,
                        self.next_y == old(self).next_y,
                        self.row_height == old(self).row_height,
                        src_end == src_offset + region.width * 4,
                        dst_end == dst_offset + region.width * 4,
                        src_end <= data@.len(),
                        dst_end <= self.data@.len(),
                        k <= region.width * 4,
                        self.data@.len() == prev.len(),
                        forall|i: int| 0 <= i < self.data@.len() ==> #[trigger] self.data@[i] == (
                            if dst_offset <= i < dst_offset + k { data@[src_offset + i - dst_offset] } else { prev[i] }),
                    decreases region.width * 4 - k,
                {
                    let b = data[src_offset + k];
                    self.data[dst_offset + k] = b;
                    k = k + 1;
                }
                proof {
                    let s = src_row_start(*region, y as int);
                    assert(self.data@ =~= overwrite(prev, dst_row_start(self.width, *region, y as int),
                        data@.subrange(s, s + region.width * 4)));
                }
            }
            assert(self.data@ == rows_written(d0, self.width, *region, data@, (y + 1) as nat));
            y = y + 1;
        }
    }

    /// Get atlas data
    pub fn data(&self) -> (d: &[u8])
        ensures
            d@ == self.pixels(),
    {
        self.data.as_slice()
    }

    /// Clear the atlas
    pub fn clear(&mut self)
        ensures
            regions_laid_out(final(self).regions(), final(self).atlas_width(), final(self).atlas_height()),
            final(self).atlas_width() == old(self).atlas_width(),
            final(self).atlas_height() == old(self).atlas_height(),
            final(self).pixels() == Seq::new(old(self).pixels().len(), |i: int| 0u8),
            final(self).regions() == Seq::<AtlasRegion>::empty(),
            final(self).pen_x() == 0,
            final(self).pen_y() == 0,
            final(self).current_row_height() == 0,
    {
        proof {
            use_type_invariant(&*self);
        }
        let n = self.data.len();
        let mut i: usize = 0;
        while i < n
            invariant
                n == self.data@.len(),
                n == old(self).data@.len(),
                i <= n,
                self.width == old(self).width,
                self.height == old(self).height,
                self.wf(),
                forall|k: int| 0 <= k < i ==> #[trigger] self.data@[k] == 0u8,
            decreases n - i,
        {
            self.data[i] = 0;
            i = i + 1;
        }
        self.allocations = Vec::new();
        self.next_x = 0;
        self.row_height = 0;
        self.next_y = 0;
        assert(self.data@ =~= Seq::new(old(self).data@.len(), |i: int| 0u8));
    }
}

} // verus!

verus! {

/// An empty atlas (fresh or cleared) places any region that fits in it at the
/// top-left corner.
pub proof fn lemma_empty_atlas_places_at_origin(atlas: &TextureAtlas, width: u32, height: u32)
    requires
        atlas.pen_x() == 0,
        atlas.pen_y() == 0,
        atlas.current_row_height() == 0,
        width <= atlas.atlas_width(),
        height <= atlas.atlas_height(),
    ensures
        atlas.placement(width) == (0int, 0int, 0int),
        atlas.allocate_in_range(width, height),
        !(atlas.placement(width).1 + height > atlas.atlas_height()),
{
}

} // verus!
