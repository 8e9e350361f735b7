//! The recognition-engine variants and their shared acceptance rule.
//!
//! Every variant turns one reading per region into one short string per
//! region, and all variants accept a result under the same predicate: it must
//! be non-empty and consist of ASCII digits and `/` alone.  A region whose
//! result is not accepted yields the empty string, which callers treat as
//! "no read this frame".

use vstd::prelude::*;
use crate::str8::{Str8, STR8_CAPACITY};
use crate::template_matching_ocr::{
    TemplateMatchingOcrEngine,
    spec_maps_ok,
    spec_maps_cells,
    spec_region_result,
    MAX_MATCH_COUNT,
};

verus! {

/// ASCII `/`.
pub const SLASH_BYTE: u8 = 47;

/// Default backend-score threshold of the per-region neural variant,
/// scaled per thousand: `0.5`.
pub const DEFAULT_NEURAL_SCORE_THRESHOLD: u32 = 500;

/// Whether `b` is an ASCII digit or `/`.
pub open spec fn spec_is_digit_or_slash(b: u8) -> bool {
    (48 <= b && b <= 57) || b == SLASH_BYTE
}

/// The shared acceptance predicate: a candidate string is accepted iff it is
/// non-empty and every byte is an ASCII digit or `/`.
pub open spec fn spec_accepts(s: Seq<u8>) -> bool {
    s.len() > 0 && forall|i: int| 0 <= i < s.len() ==> spec_is_digit_or_slash(#[trigger] s[i])
}

/// A string truncated to the region-result capacity.
pub open spec fn spec_take8(s: Seq<u8>) -> Seq<u8> {
    if s.len() <= STR8_CAPACITY {
        s
    } else {
        s.take(STR8_CAPACITY as int)
    }
}

/// Whether `b` is an ASCII digit or `/`.
pub fn is_digit_or_slash(b: u8) -> (r: bool)
    ensures
        r == spec_is_digit_or_slash(b),
{
    (48 <= b && b <= 57) || b == SLASH_BYTE
}

/// The shared acceptance predicate on plain bytes.
pub fn accepts_bytes(s: &Vec<u8>) -> (r: bool)
    ensures
        r == spec_accepts(s@),
{
    if s.len() == 0 {
        return false;
    }
    let mut i: usize = 0;
    while i < s.len()
        invariant
            0 <= i <= s@.len(),
            forall|k: int| 0 <= k < i ==> spec_is_digit_or_slash(#[trigger] s@[k]),
        decreases s@.len() - i,
    {
        if !is_digit_or_slash(s[i]) {
            return false;
        }
        i = i + 1;
    }
    true
}

/// The shared acceptance predicate on a bounded result string.
pub fn accepts_str8(s: &Str8) -> (r: bool)
    ensures
        r == spec_accepts(s@),
{
    let n = s.len();
    if n == 0 {
        return false;
    }
    let mut i: usize = 0;
    while i < n
        invariant
            0 <= i <= n,
            n == s@.len(),
            forall|k: int| 0 <= k < i ==> spec_is_digit_or_slash(#[trigger] s@[k]),
        decreases n - i,
    {
        if !is_digit_or_slash(s.byte_at(i)) {
            return false;
        }
        i = i + 1;
    }
    true
}

/// What one region hands the engine: the text and score a neural backend
/// returned for it, or the per-template correlation score maps for the
/// template matcher.
pub enum RegionReading {
    /// Output of a neural text-recognition backend for the region: the
    /// recognized bytes and the backend's confidence, scaled per thousand.
    Neural {
        /// The recognized text bytes.
        text: Vec<u8>,
        /// The backend's confidence, scaled per thousand.
        score: u32,
    },
    /// Per-template correlation score maps of the region, one per loaded
    /// template of the template-matching engine, in template order.
    TemplateScores {
        /// `maps[t]` is the score map of template `t` over the region.
        maps: Vec<Vec<Vec<u32>>>,
    },
}

/// The closed set of recognition-engine variants.
pub enum OcrEngineWrapper {
    /// A neural backend reading all regions as one batch; results are
    /// accepted by content alone.
    NeuralBatch,
    /// A neural backend reading regions independently; results must also
    /// beat a backend-score threshold.
    NeuralParallel {
        /// Minimum backend score, scaled per thousand, exclusive.
        score_threshold: u32,
    },
    /// The template-matching digit recognizer.
    TemplateMatching(TemplateMatchingOcrEngine),
}

/// What the engine returns for one region, as plain mathematics.
pub open spec fn spec_engine_region(engine: OcrEngineWrapper, reading: RegionReading) -> Seq<u8> {
    match engine {
        OcrEngineWrapper::NeuralBatch => match reading {
            RegionReading::Neural { text, score } => if spec_accepts(text@) {
                spec_take8(text@)
            } else {
                Seq::<u8>::empty()
            },
            _ => Seq::<u8>::empty(),
        },
        OcrEngineWrapper::NeuralParallel { score_threshold } => match reading {
            RegionReading::Neural { text, score } => if spec_accepts(text@) && score
                > score_threshold {
                spec_take8(text@)
            } else {
                Seq::<u8>::empty()
            },
            _ => Seq::<u8>::empty(),
        },
        OcrEngineWrapper::TemplateMatching(e) => match reading {
            RegionReading::TemplateScores { maps } => {
                let result = spec_region_result(
                    e.digit_templates@,
                    maps@,
                    e.config.match_threshold,
                );
                if result.0.len() > 0 && spec_accepts(result.0) && result.1
                    >= e.config.min_confidence {
                    result.0
                } else {
                    Seq::<u8>::empty()
                }
            },
            _ => Seq::<u8>::empty(),
        },
    }
}

/// Whether a reading is within the machine bounds the engine asks of it.
pub open spec fn spec_reading_ok(engine: OcrEngineWrapper, reading: RegionReading) -> bool {
    match (engine, reading) {
        (OcrEngineWrapper::TemplateMatching(e), RegionReading::TemplateScores { maps }) => {
            &&& maps@.len() == e.digit_templates@.len()
            &&& spec_maps_ok(maps@)
            &&& spec_maps_cells(maps@) <= MAX_MATCH_COUNT
        },
        _ => true,
    }
}

impl OcrEngineWrapper {
    /// Recognizes every region from its reading.  One result per region, in
    /// region order; a region whose reading fails the variant's acceptance
    /// rule yields the empty string, as does a reading of the wrong kind for
    /// the variant.
    pub fn recognize_text(&self, readings: &Vec<RegionReading>) -> (r: Vec<Str8>)
        requires
            forall|i: int|
                0 <= i < readings@.len() ==> spec_reading_ok(*self, #[trigger] readings@[i]),
        ensures
            r@.len() == readings@.len(),
            forall|i: int|
                0 <= i < readings@.len() ==> (#[trigger] r@[i])@ == spec_engine_region(
                    *self,
                    readings@[i],
                ),
    {
        let mut out: Vec<Str8> = Vec::new();
        let mut i: usize = 0;
        while i < readings.len()
            invariant
                0 <= i <= readings@.len(),
                forall|k: int|
                    0 <= k < readings@.len() ==> spec_reading_ok(*self, #[trigger] readings@[k]),
                out@.len() == i,
                forall|k: int|
                    0 <= k < i ==> (#[trigger] out@[k])@ == spec_engine_region(
                        *self,
                        readings@[k],
                    ),
            decreases readings@.len() - i,
        {
            let s = self.recognize_region_reading(&readings[i]);
            out.push(s);
            i = i + 1;
        }
        out
    }

    /// Recognizes one region from its reading.
    pub fn recognize_region_reading(&self, reading: &RegionReading) -> (r: Str8)
        requires
            spec_reading_ok(*self, *reading),
        ensures
            r@ == spec_engine_region(*self, *reading),
    {
        match self {
            OcrEngineWrapper::NeuralBatch => match reading {
                RegionReading::Neural { text, score: _ } => {
                    if accepts_bytes(text) {
                        Str8::from_prefix(text)
                    } else {
                        Str8::new()
                    }
                },
                _ => Str8::new(),
            },
            OcrEngineWrapper::NeuralParallel { score_threshold } => match reading {
                RegionReading::Neural { text, score } => {
                    if accepts_bytes(text) && *score > *score_threshold {
                        Str8::from_prefix(text)
                    } else {
                        Str8::new()
                    }
                },
                _ => Str8::new(),
            },
            OcrEngineWrapper::TemplateMatching(e) => match reading {
                RegionReading::TemplateScores { maps } => {
                    let (text, confidence) = e.recognize_region(maps);
                    let accepted = !text.is_empty() && accepts_str8(&text) && confidence
                        >= e.config.min_confidence;
                    if accepted {
                        text
                    } else {
                        Str8::new()
                    }
                },
                _ => Str8::new(),
            },
        }
    }
}

/// Acceptance law: whatever the engine variant and whatever the reading, a
/// region result is either empty or accepted — non-empty and made of ASCII
/// digits and `/` alone.
pub proof fn lemma_engine_result_accepted(engine: OcrEngineWrapper, reading: RegionReading)
    ensures
        spec_engine_region(engine, reading).len() == 0 || spec_accepts(
            spec_engine_region(engine, reading),
        ),
{
    let res = spec_engine_region(engine, reading);
    if res.len() > 0 {
        match engine {
            OcrEngineWrapper::NeuralBatch => {
                match reading {
                    RegionReading::Neural { text, score } => {
                        assert(spec_accepts(text@));
                        assert(spec_accepts(spec_take8(text@)));
                    },
                    _ => {},
                }
            },
            OcrEngineWrapper::NeuralParallel { score_threshold } => {
                match reading {
                    RegionReading::Neural { text, score } => {
                        assert(spec_accepts(text@));
                        assert(spec_accepts(spec_take8(text@)));
                    },
                    _ => {},
                }
            },
            OcrEngineWrapper::TemplateMatching(e) => {},
        }
    }
}

/// Per-region merge of the fallback composition: the fallback's result
/// replaces the primary's only where the primary read nothing and the
/// fallback read something.
pub open spec fn spec_merge_region(primary: Seq<u8>, fallback: Seq<u8>) -> Seq<u8> {
    if primary.len() == 0 && fallback.len() > 0 {
        fallback
    } else {
        primary
    }
}

/// The fallback composition: a primary engine and a second engine consulted
/// only for regions the primary left unread.
pub struct FallbackOcrEngine {
    /// The engine consulted first, for every region.
    pub primary: OcrEngineWrapper,
    /// The engine consulted for regions the primary left unread.
    pub fallback: OcrEngineWrapper,
    /// Confidence floor of the composition, scaled per thousand.
    pub min_confidence_threshold: u32,
}

impl FallbackOcrEngine {
    /// Combines a primary engine with a fallback.
    pub fn new(
        primary: OcrEngineWrapper,
        fallback: OcrEngineWrapper,
        min_confidence_threshold: u32,
    ) -> (r: Self)
        ensures
            r.primary == primary,
            r.fallback == fallback,
            r.min_confidence_threshold == min_confidence_threshold,
    {
        FallbackOcrEngine { primary, fallback, min_confidence_threshold }
    }

    /// Recognizes every region with the primary engine, then lets the
    /// fallback engine fill in regions the primary left unread: per region,
    /// the fallback's result replaces the primary's only where the primary
    /// result is empty and the fallback result is not.  With every region
    /// read by the primary, the fallback engine is not consulted at all.
    pub fn recognize_text(
        &self,
        primary_readings: &Vec<RegionReading>,
        fallback_readings: &Vec<RegionReading>,
    ) -> (r: Vec<Str8>)
        requires
            primary_readings@.len() == fallback_readings@.len(),
            forall|i: int|
                0 <= i < primary_readings@.len() ==> spec_reading_ok(
                    self.primary,
                    #[trigger] primary_readings@[i],
                ),
            forall|i: int|
                0 <= i < fallback_readings@.len() ==> spec_reading_ok(
                    self.fallback,
                    #[trigger] fallback_readings@[i],
                ),
        ensures
            r@.len() == primary_readings@.len(),
            forall|i: int|
                0 <= i < primary_readings@.len() ==> (#[trigger] r@[i])@ == spec_merge_region(
                    spec_engine_region(self.primary, primary_readings@[i]),
                    spec_engine_region(self.fallback, fallback_readings@[i]),
                ),
    {
        let primary_results = self.primary.recognize_text(primary_readings);
        let mut any_unread = false;
        let mut j: usize = 0;
        while j < primary_results.len()
            invariant
                0 <= j <= primary_results@.len(),
                primary_results@.len() == primary_readings@.len(),
                forall|k: int|
                    0 <= k < primary_readings@.len() ==> (#[trigger] primary_results@[k])@
                        == spec_engine_region(self.primary, primary_readings@[k]),
                any_unread == exists|k: int|
                    0 <= k < j && (#[trigger] primary_results@[k])@.len() == 0,
            decreases primary_results@.len() - j,
        {
            if primary_results[j].is_empty() {
                any_unread = true;
            }
            j = j + 1;
        }
        if !any_unread {
            proof {
                assert forall|k: int|
                    0 <= k < primary_readings@.len() implies (#[trigger] primary_results@[k])@
                    == spec_merge_region(
                    spec_engine_region(self.primary, primary_readings@[k]),
                    spec_engine_region(self.fallback, fallback_readings@[k]),
                ) by {
                    assert(primary_results@[k]@.len() != 0);
                }
            }
            return primary_results;
        }
        let fallback_results = self.fallback.recognize_text(fallback_readings);
        let mut out: Vec<Str8> = Vec::new();
        let mut i: usize = 0;
        while i < primary_results.len()
            invariant
                0 <= i <= primary_results@.len(),
                primary_results@.len() == primary_readings@.len(),
                fallback_results@.len() == fallback_readings@.len(),
                primary_readings@.len() == fallback_readings@.len(),
                forall|k: int|
                    0 <= k < primary_readings@.len() ==> (#[trigger] primary_results@[k])@
                        == spec_engine_region(self.primary, primary_readings@[k]),
                forall|k: int|
                    0 <= k < fallback_readings@.len() ==> (#[trigger] fallback_results@[k])@
                        == spec_engine_region(self.fallback, fallback_readings@[k]),
                out@.len() == i,
                forall|k: int|
                    0 <= k < i ==> (#[trigger] out@[k])@ == spec_merge_region(
                        spec_engine_region(self.primary, primary_readings@[k]),
                        spec_engine_region(self.fallback, fallback_readings@[k]),
                    ),
            decreases primary_results@.len() - i,
        {
            let p = &primary_results[i];
            let f = &fallback_results[i];
            if p.is_empty() && !f.is_empty() {
                out.push(*f);
            } else {
                out.push(*p);
            }
            i = i + 1;
        }
        out
    }
}

} // verus!
