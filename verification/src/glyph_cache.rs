//! Bounded cache of rendered glyph bitmaps keyed by font, glyph, size and style.
use vstd::prelude::*;
use ahash::AHashMap;

verus! {

/// Key for glyph cache lookup
#[derive(Debug, Clone, Hash, PartialEq, Eq)]
pub struct GlyphKey {
    /// Font family
    pub font_family: String,
    /// Glyph ID
    pub glyph_id: u16,
    /// Font size
    pub size: u32,
    /// Style flags (bold, italic, etc.)
    pub style_flags: u32,
}

/// Cached glyph data. The metrics are `f32` values held as their IEEE-754 bit
/// patterns (`f32::to_bits`), so they round-trip exactly.
pub struct CachedGlyph {
    /// Glyph bitmap data
    pub bitmap: Vec<u8>,
    /// Bitmap width
    pub width: u32,
    /// Bitmap height
    pub height: u32,
    /// Horizontal advance (`f32` bits)
    pub advance_bits: u32,
    /// Bearing X (`f32` bits)
    pub bearing_x_bits: u32,
    /// Bearing Y (`f32` bits)
    pub bearing_y_bits: u32,
}

/// A key as plain values.
pub open spec fn key_view(k: GlyphKey) -> (Seq<char>, u16, u32, u32) {
    (k.font_family@, k.glyph_id, k.size, k.style_flags)
}

/// A glyph as plain values.
pub open spec fn glyph_view(g: CachedGlyph) -> (Seq<u8>, u32, u32, u32, u32, u32) {
    (g.bitmap@, g.width, g.height, g.advance_bits, g.bearing_x_bits, g.bearing_y_bits)
}

/// `ahash::AHashMap`, a `std` hash map with the aHash hasher.
#[verifier::external_type_specification]
#[verifier::external_body]
#[verifier::reject_recursive_types(K)]
#[verifier::reject_recursive_types(V)]
#[verifier::reject_recursive_types(S)]
pub struct ExAHashMap<K, V, S>(AHashMap<K, V, S>);

/// `ahash::RandomState`, the hasher builder of `AHashMap`.
#[verifier::external_type_specification]
#[verifier::external_body]
pub struct ExRandomState(ahash::RandomState);

/// Glyph entries as plain values: key view to glyph view.
pub type GlyphEntries = Map<(Seq<char>, u16, u32, u32), (Seq<u8>, u32, u32, u32, u32, u32)>;

/// The entries of a glyph map, by key.
pub uninterp spec fn glyph_map_contents(m: AHashMap<GlyphKey, CachedGlyph>) -> GlyphEntries;

/// `AHashMap::new`: an empty map.
#[verifier::external_body]
fn glyph_map_new() -> (m: AHashMap<GlyphKey, CachedGlyph>)
    ensures
        glyph_map_contents(m) == GlyphEntries::empty(),
{
    AHashMap::new()
}

/// `AHashMap::get`: the entry under the key, if any.
#[verifier::external_body]
fn glyph_map_get<'a>(m: &'a AHashMap<GlyphKey, CachedGlyph>, k: &GlyphKey) -> (r: Option<&'a CachedGlyph>)
    ensures
        match r {
            Some(g) => glyph_map_contents(*m).contains_key(key_view(*k))
                && glyph_view(*g) == glyph_map_contents(*m)[key_view(*k)],
            None => !glyph_map_contents(*m).contains_key(key_view(*k)),
        },
{
    m.get(k)
}

/// `AHashMap::insert`: the entry under the key is replaced or added.
#[verifier::external_body]
fn glyph_map_insert(m: &mut AHashMap<GlyphKey, CachedGlyph>, k: GlyphKey, v: CachedGlyph)
    ensures
        glyph_map_contents(*final(m)) == glyph_map_contents(*old(m)).insert(key_view(k), glyph_view(v)),
{
    m.insert(k, v);
}

/// `AHashMap::remove`: the entry under the key is gone.
#[verifier::external_body]
fn glyph_map_remove(m: &mut AHashMap<GlyphKey, CachedGlyph>, k: &GlyphKey)
    ensures
        glyph_map_contents(*final(m)) == glyph_map_contents(*old(m)).remove(key_view(*k)),
{
    m.remove(k);
}

/// `HashMap::len` (through `AHashMap`'s `Deref`): the number of entries.
#[verifier::external_body]
fn glyph_map_len(m: &AHashMap<GlyphKey, CachedGlyph>) -> (n: usize)
    ensures
        n == glyph_map_contents(*m).len(),
{
    m.len()
}

/// `HashMap::clear` (through `AHashMap`'s `DerefMut`): no entries remain.
#[verifier::external_body]
fn glyph_map_clear(m: &mut AHashMap<GlyphKey, CachedGlyph>)
    ensures
        glyph_map_contents(*final(m)) == GlyphEntries::empty(),
{
    m.clear();
}

/// `m.keys().next().cloned()`: some key of the map (which one depends on the
/// hash order), or `None` when the map is empty.
#[verifier::external_body]
fn glyph_map_any_key(m: &AHashMap<GlyphKey, CachedGlyph>) -> (r: Option<GlyphKey>)
    ensures
        match r {
            Some(k) => glyph_map_contents(*m).contains_key(key_view(k)),
            None => glyph_map_contents(*m).dom().is_empty(),
        },
{
    m.keys().next().cloned()
}

/// Glyph cache for rendered glyphs
pub struct GlyphCache {
    cache: AHashMap<GlyphKey, CachedGlyph>,
    max_entries: usize,
}

impl GlyphCache {
    /// Cached glyphs by key.
    pub closed spec fn entries(&self) -> GlyphEntries {
        glyph_map_contents(self.cache)
    }

    /// Number of entries at which an insertion first evicts one.
    pub closed spec fn capacity(&self) -> usize {
        self.max_entries
    }

    /// Most entries the cache holds: its capacity, but at least one, since an
    /// insertion always stores the new glyph.
    pub open spec fn size_bound(&self) -> nat {
        if self.capacity() == 0 { 1 } else { self.capacity() as nat }
    }

    /// The entries are finitely many and within the size bound.
    #[verifier::type_invariant]
    spec fn wf(&self) -> bool {
        &&& self.entries().dom().finite()
        &&& self.entries().len() <= self.size_bound()
    }

    /// Create a new glyph cache
    pub fn new(max_entries: usize) -> (c: Self)
        ensures
            c.entries() == GlyphEntries::empty(),
            c.capacity() == max_entries,
    {
        GlyphCache { cache: glyph_map_new(), max_entries }
    }

    /// Get a cached glyph
    pub fn get(&self, key: &GlyphKey) -> (r: Option<&CachedGlyph>)
        ensures
            match r {
                Some(g) => self.entries().contains_key(key_view(*key)) && glyph_view(*g) == self.entries()[key_view(*key)],
                None => !self.entries().contains_key(key_view(*key)),
            },
    {
        glyph_map_get(&self.cache, key)
    }

    /// Insert a glyph into the cache. When the cache already holds `capacity`
    /// or more entries, one existing entry (the first in hash order) is evicted
    /// first.
    pub fn insert(&mut self, key: GlyphKey, glyph: CachedGlyph)
        ensures
            final(self).entries().len() <= final(self).size_bound(),
            final(self).capacity() == old(self).capacity(),
            old(self).entries().len() < old(self).capacity() || old(self).entries().dom().is_empty()
                ==> final(self).entries() == old(self).entries().insert(key_view(key), glyph_view(glyph)),
            old(self).entries().len() >= old(self).capacity() && !old(self).entries().dom().is_empty()
                ==> exists|e: (Seq<char>, u16, u32, u32)| old(self).entries().contains_key(e)
                    && final(self).entries() == old(self).entries().remove(e).insert(key_view(key), glyph_view(glyph)),
    {
        let ghost kv = key_view(key);
        let ghost gv = glyph_view(glyph);
        proof {
            use_type_invariant(&*self);
        }
        let ghost before = self.entries();
        // Work on the map outside the cache, so that the cache stays valid
        // while the map changes.
        let mut map = glyph_map_new();
        std::mem::swap(&mut map, &mut self.cache);
        if glyph_map_len(&map) >= self.max_entries {
            let first = glyph_map_any_key(&map);
            match first {
                Some(first_key) => {
                    let ghost e = key_view(first_key);
                    glyph_map_remove(&mut map, &first_key);
                    glyph_map_insert(&mut map, key, glyph);
                    assert(before.contains_key(e));
                    proof {
                        let removed = before.remove(e);
                        assert(removed.dom() =~= before.dom().remove(e));
                        assert(removed.dom().len() == before.dom().len() - 1);
                        assert(removed.insert(kv, gv).dom() =~= removed.dom().insert(kv));
                    }
                    self.cache = map;
                    return;
                },
                None => {
                    assert(before.dom().is_empty());
                },
            }
        }
        glyph_map_insert(&mut map, key, glyph);
        assert(before.insert(kv, gv).dom() =~= before.dom().insert(kv));
        self.cache = map;
    }

    /// Clear the cache
    pub fn clear(&mut self)
        ensures
            final(self).entries() == GlyphEntries::empty(),
            final(self).capacity() == old(self).capacity(),
    {
        let mut map = glyph_map_new();
        std::mem::swap(&mut map, &mut self.cache);
        glyph_map_clear(&mut map);
        self.cache = map;
    }

    /// Get cache size
    pub fn len(&self) -> (n: usize)
        ensures
            n == self.entries().len(),
            n <= self.size_bound(),
    {
        proof {
            use_type_invariant(self);
        }
        glyph_map_len(&self.cache)
    }

    /// Check if cache is empty
    pub fn is_empty(&self) -> (b: bool)
        ensures
            b == (self.entries().len() == 0),
    {
        glyph_map_len(&self.cache) == 0
    }
}

} // verus!
