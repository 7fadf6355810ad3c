//! Choice of a font by how many characters of a text it covers.
use vstd::prelude::*;
use crate::text::{chars_of, contains_str, seq_contains};

verus! {

/// The family name marks a Japanese (or CJK) font, for which Japanese
/// fallback families are tried before the generic ones.
pub open spec fn names_japanese_family(family: Seq<char>) -> bool {
    ||| seq_contains(family, "CJK"@)
    ||| seq_contains(family, "Noto Sans JP"@)
    ||| seq_contains(family, "Hiragino"@)
    ||| seq_contains(family, "Yu Gothic"@)
    ||| seq_contains(family, "MS Gothic"@)
    ||| seq_contains(family, "Meiryo"@)
}

/// Whether the requested family is a Japanese (or CJK) font.
pub fn is_japanese_family(family: &str) -> (b: bool)
    ensures
        b == names_japanese_family(family@),
{
    let chars = chars_of(family);
    contains_str(&chars, "CJK") || contains_str(&chars, "Noto Sans JP") || contains_str(&chars, "Hiragino")
        || contains_str(&chars, "Yu Gothic") || contains_str(&chars, "MS Gothic") || contains_str(&chars, "Meiryo")
}

/// Whether `c` is a CJK ideograph, Hangul syllable or jamo, or kana.
pub open spec fn is_cjk_or_hangul(c: char) -> bool {
    let u = c as u32;
    (0x4E00 <= u <= 0x9FFF) || (0x3400 <= u <= 0x4DBF) || (0x20000 <= u <= 0x2A6DF) || (0xAC00 <= u <= 0xD7AF)
        || (0x1100 <= u <= 0x11FF) || (0x3040 <= u <= 0x30FF)
}

/// A character of the CJK Unified Ideographs (U+4E00..U+9FFF), of their
/// extensions A (U+3400..U+4DBF) and B (U+20000..U+2A6DF), of the Hangul
/// syllables (U+AC00..U+D7AF) or Hangul Jamo (U+1100..U+11FF), of Hiragana
/// (U+3040..U+309F) or of Katakana (U+30A0..U+30FF) is one for which the CJK
/// fallback fonts are tried; no other character is.
pub proof fn lemma_cjk_blocks(c: char)
    ensures
        is_cjk_or_hangul(c) <==> {
            let u = c as u32;
            ||| 0x3040 <= u <= 0x309F
            ||| 0x30A0 <= u <= 0x30FF
            ||| 0x4E00 <= u <= 0x9FFF
            ||| 0x3400 <= u <= 0x4DBF
            ||| 0x20000 <= u <= 0x2A6DF
            ||| 0xAC00 <= u <= 0xD7AF
            ||| 0x1100 <= u <= 0x11FF
        },
{
}

/// Determine if text contains CJK/Hangul content
pub fn text_has_cjk_or_hangul(text: &str) -> (b: bool)
    ensures
        b == exists|i: int| 0 <= i < text@.len() && is_cjk_or_hangul(#[trigger] text@[i]),
        (exists|i: int| 0 <= i < text@.len() && 0x3040 <= #[trigger] (text@[i] as u32) <= 0x30FF) ==> b,
{
    proof {
        assert forall|i: int| 0 <= i < text@.len() && 0x3040 <= #[trigger] (text@[i] as u32) <= 0x30FF
            implies is_cjk_or_hangul(text@[i]) by {
            lemma_cjk_blocks(text@[i]);
        }
    }
    let v = chars_of(text);
    let mut i: usize = 0;
    while i < v.len()
        invariant
            v@ == text@,
            i <= v@.len(),
            forall|j: int| 0 <= j < i ==> !is_cjk_or_hangul(#[trigger] text@[j]),
        decreases v@.len() - i,
    {
        let u = v[i] as u32;
        if (0x4E00 <= u && u <= 0x9FFF) || (0x3400 <= u && u <= 0x4DBF) || (0x20000 <= u && u <= 0x2A6DF)
            || (0xAC00 <= u && u <= 0xD7AF) || (0x1100 <= u && u <= 0x11FF) || (0x3040 <= u && u <= 0x30FF)
        {
            assert(is_cjk_or_hangul(text@[i as int]));
            return true;
        }
        i = i + 1;
    }
    false
}

/// `chosen` is the first of the offered candidates with the largest coverage,
/// provided that coverage exceeds `baseline`; `None` when no candidate does.
pub open spec fn first_best(baseline: usize, offered: Seq<usize>, chosen: Option<usize>) -> bool {
    match chosen {
        None => forall|j: int| 0 <= j < offered.len() ==> #[trigger] offered[j] <= baseline,
        Some(i) => {
            &&& i < offered.len()
            &&& offered[i as int] > baseline
            &&& forall|j: int| 0 <= j < offered.len() ==> #[trigger] offered[j] <= offered[i as int]
            &&& forall|j: int| 0 <= j < i ==> #[trigger] offered[j] < offered[i as int]
        },
    }
}

/// Running choice among candidate fonts, weighed one after another by how many
/// characters of the text each covers. A candidate is chosen only when it
/// covers more than every earlier one and more than the font already in hand;
/// the scan is complete once the chosen coverage is the whole text.
pub struct CoverageScan {
    text_len: usize,
    baseline: usize,
    best_support: usize,
    best: Option<usize>,
    complete: bool,
    offered_len: usize,
    offered: Ghost<Seq<usize>>,
}

impl CoverageScan {
    /// Coverage of each candidate offered so far, in order.
    pub closed spec fn offered(&self) -> Seq<usize> {
        self.offered@
    }

    /// Coverage of the font in hand before any candidate was offered.
    pub closed spec fn baseline(&self) -> usize {
        self.baseline
    }

    /// Number of characters that full coverage means.
    pub closed spec fn target(&self) -> usize {
        self.text_len
    }

    /// Position of the chosen candidate, if one was chosen.
    pub closed spec fn chosen(&self) -> Option<usize> {
        self.best
    }

    /// Coverage of the chosen candidate, or the baseline when none was chosen.
    pub open spec fn chosen_support(&self) -> usize {
        match self.chosen() {
            Some(i) => self.offered()[i as int],
            None => self.baseline(),
        }
    }

    /// The chosen coverage is the whole text; no more candidates are weighed.
    pub closed spec fn is_complete(&self) -> bool {
        self.complete
    }

    /// The scan's state agrees with what was offered.
    #[verifier::type_invariant]
    spec fn wf(&self) -> bool {
        &&& self.baseline <= self.text_len
        &&& first_best(self.baseline, self.offered@, self.best)
        &&& self.best_support == self.chosen_support()
        &&& self.best_support <= self.text_len
        &&& self.complete == (self.best_support == self.text_len)
        &&& self.offered_len == self.offered@.len()
    }

    /// Start a scan: the font in hand covers `baseline` of `text_len` characters.
    pub fn new(baseline: usize, text_len: usize) -> (s: Self)
        requires
            baseline <= text_len,
        ensures
            s.offered() == Seq::<usize>::empty(),
            s.baseline() == baseline,
            s.target() == text_len,
            s.chosen() is None,
            s.is_complete() == (baseline == text_len),
    {
        CoverageScan {
            text_len,
            baseline,
            best_support: baseline,
            best: None,
            complete: baseline == text_len,
            offered_len: 0,
            offered: Ghost(Seq::empty()),
        }
    }

    /// Weigh the next candidate, which covers `support` characters.
    pub fn offer(&mut self, support: usize)
        requires
            !old(self).is_complete(),
            support <= old(self).target(),
            old(self).offered().len() < usize::MAX,
        ensures
            final(self).offered() == old(self).offered().push(support),
            final(self).baseline() == old(self).baseline(),
            final(self).target() == old(self).target(),
            first_best(final(self).baseline(), final(self).offered(), final(self).chosen()),
            final(self).is_complete() == (final(self).chosen_support() == final(self).target()),
            support > old(self).chosen_support() ==> final(self).chosen() == Some(old(self).offered().len() as usize),
            support <= old(self).chosen_support() ==> final(self).chosen() == old(self).chosen(),
    {
        proof {
            use_type_invariant(&*self);
        }
        let ghost old_offered = self.offered@;
        let ghost n = old_offered.len() as int;
        let ghost new_offered = old_offered.push(support);
        let mut best = self.best;
        let mut best_support = self.best_support;
        if support > best_support {
            best = Some(self.offered_len);
            best_support = support;
        }
        proof {
            assert(new_offered[n] == support);
            assert forall|j: int| 0 <= j < n implies #[trigger] new_offered[j] == old_offered[j] by {}
            match best {
                None => {
                    assert forall|j: int| 0 <= j < new_offered.len() implies #[trigger] new_offered[j] <= self.baseline by {
                        if j < n {
                            assert(new_offered[j] == old_offered[j]);
                        }
                    }
                },
                Some(i) => {
                    if i as int == n {
                        assert forall|j: int| 0 <= j < new_offered.len() implies #[trigger] new_offered[j] <= new_offered[i as int] by {
                            if j < n {
                                assert(new_offered[j] == old_offered[j]);
                            }
                        }
                        assert forall|j: int| 0 <= j < i implies #[trigger] new_offered[j] < new_offered[i as int] by {
                            assert(new_offered[j] == old_offered[j]);
                        }
                    } else {
                        assert(new_offered[i as int] == old_offered[i as int]);
                        assert forall|j: int| 0 <= j < new_offered.len() implies #[trigger] new_offered[j] <= new_offered[i as int] by {
                            if j < n {
                                assert(new_offered[j] == old_offered[j]);
                            }
                        }
                        assert forall|j: int| 0 <= j < i implies #[trigger] new_offered[j] < new_offered[i as int] by {
                            assert(new_offered[j] == old_offered[j]);
                        }
                    }
                },
            }
        }
        let next = CoverageScan {
            text_len: self.text_len,
            baseline: self.baseline,
            best_support,
            best,
            complete: best_support == self.text_len,
            offered_len: self.offered_len + 1,
            offered: Ghost(new_offered),
        };
        *self = next;
    }

    /// Position of the chosen candidate, if one was chosen.
    pub fn best(&self) -> (r: Option<usize>)
        ensures
            r == self.chosen(),
    {
        self.best
    }

    /// Whether the chosen coverage is the whole text.
    pub fn is_done(&self) -> (b: bool)
        ensures
            b == self.is_complete(),
    {
        self.complete
    }
}

} // verus!
