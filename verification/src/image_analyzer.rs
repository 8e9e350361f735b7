//! Per-frame analysis: the icon detector's search-rectangle clamping and
//! decision rule, color normalization for recognition, the stat-region
//! rectangles, and the assembly of one `AnalysisResult` per frame.

use vstd::prelude::*;
use crate::consts::{
    AREA_Y_OFFSET,
    NUM_STAT_REGIONS,
    STAT_RECT_WIDTH,
    STAT_RECT_HEIGHT,
    VILLAGER_ICON_AREA_WIDTH,
    VILLAGER_ICON_AREA_HEIGHT,
    Aoe4StatPos,
    spec_stat_positions,
    stat_positions,
};
use crate::image_ops::{RgbFrame, gray_to_rgb, grayscale_frame, brighten_frame};
use crate::image_ops::{spec_luma, spec_brighten_byte};
use crate::ocr::{OcrEngineWrapper, RegionReading, spec_engine_region, spec_reading_ok};
use crate::ocr::DEFAULT_NEURAL_SCORE_THRESHOLD;
use crate::str8::Str8;
use crate::template_matching_ocr::{
    TemplateMatchingConfig,
    TemplateMatchingOcrEngine,
    TemplateSource,
    OcrError,
    spec_load_templates,
};

verus! {

/// Best-match score an icon search must reach, scaled per thousand: `0.6`.
pub const ICON_MATCH_THRESHOLD: u32 = 600;

/// Brightness added to every channel after grayscale conversion.
pub const BRIGHTEN_DELTA: i32 = 30;

/// A rectangle inside an image.
#[derive(Debug, Clone, Copy, PartialEq, Eq, Structural)]
pub struct SearchRect {
    /// Left edge.
    pub x: i32,
    /// Top edge.
    pub y: i32,
    /// Width.
    pub width: i32,
    /// Height.
    pub height: i32,
}

/// The icon search rectangle for an image of the given size: anchored near
/// the bottom of the frame at the configured offsets, clamped to the image
/// bounds, and dropped entirely (`None`) if the clamped rectangle has no
/// area.
pub open spec fn spec_search_rect(img_width: int, img_height: int) -> Option<SearchRect> {
    let sy = if img_height + AREA_Y_OFFSET > 0 {
        img_height + AREA_Y_OFFSET
    } else {
        0
    };
    let sw = if VILLAGER_ICON_AREA_WIDTH <= img_width {
        VILLAGER_ICON_AREA_WIDTH as int
    } else {
        img_width
    };
    let sh = if VILLAGER_ICON_AREA_HEIGHT <= img_height - sy {
        VILLAGER_ICON_AREA_HEIGHT as int
    } else {
        img_height - sy
    };
    if sw <= 0 || sh <= 0 {
        None
    } else {
        Some(
            SearchRect { x: 0, y: sy as i32, width: sw as i32, height: sh as i32 },
        )
    }
}

/// Computes the clamped icon search rectangle; `None` stands for a search
/// area with no overlap with the image, which is reported as "not found"
/// rather than an error.
pub fn compute_search_rect(img_width: i32, img_height: i32) -> (r: Option<SearchRect>)
    requires
        img_width >= 0,
        img_height >= 0,
    ensures
        r == spec_search_rect(img_width as int, img_height as int),
{
    let sy: i32 = if img_height + AREA_Y_OFFSET > 0 {
        img_height + AREA_Y_OFFSET
    } else {
        0
    };
    let sw: i32 = if (VILLAGER_ICON_AREA_WIDTH as i32) <= img_width {
        VILLAGER_ICON_AREA_WIDTH as i32
    } else {
        img_width
    };
    let sh: i32 = if (VILLAGER_ICON_AREA_HEIGHT as i32) <= img_height - sy {
        VILLAGER_ICON_AREA_HEIGHT as i32
    } else {
        img_height - sy
    };
    if sw <= 0 || sh <= 0 {
        None
    } else {
        Some(SearchRect { x: 0, y: sy, width: sw, height: sh })
    }
}

/// Whether any score in the map reaches `threshold`.
pub open spec fn spec_any_score_at_least(rows: Seq<Vec<u32>>, threshold: u32) -> bool {
    exists|y: int, x: int|
        0 <= y < rows.len() && 0 <= x < rows[y]@.len() && (#[trigger] rows[y]@[x]) >= threshold
}

fn any_score_at_least(scores: &Vec<Vec<u32>>, threshold: u32) -> (r: bool)
    ensures
        r == spec_any_score_at_least(scores@, threshold),
{
    let mut y: usize = 0;
    while y < scores.len()
        invariant
            0 <= y <= scores@.len(),
            forall|yy: int, xx: int|
                0 <= yy < y && 0 <= xx < scores@[yy]@.len() ==> (#[trigger] scores@[yy]@[xx])
                    < threshold,
        decreases scores@.len() - y,
    {
        let ncols = scores[y].len();
        let mut x: usize = 0;
        while x < ncols
            invariant
                0 <= y < scores@.len(),
                0 <= x <= ncols,
                ncols == scores@[y as int]@.len(),
                forall|yy: int, xx: int|
                    0 <= yy < y && 0 <= xx < scores@[yy]@.len() ==> (#[trigger] scores@[yy]@[xx])
                        < threshold,
                forall|xx: int| 0 <= xx < x ==> (#[trigger] scores@[y as int]@[xx]) < threshold,
            decreases ncols - x,
        {
            if scores[y][x] >= threshold {
                return true;
            }
            x = x + 1;
        }
        y = y + 1;
    }
    false
}

/// Whether the icon is present: the clamped search rectangle has area, and
/// the best correlation score within it reaches the threshold.
pub open spec fn spec_icon_present(
    img_width: int,
    img_height: int,
    scores: Seq<Vec<u32>>,
) -> bool {
    spec_search_rect(img_width, img_height) is Some && spec_any_score_at_least(
        scores,
        ICON_MATCH_THRESHOLD,
    )
}

/// The icon detector's decision: `scores` is the correlation score map of
/// the icon template over the clamped search rectangle (empty when there is
/// no such rectangle).  A rectangle clamped to zero area always yields "not
/// present", without error; otherwise the icon is present iff the best score
/// reaches [`ICON_MATCH_THRESHOLD`].
pub fn detect_icon(img_width: i32, img_height: i32, scores: &Vec<Vec<u32>>) -> (r: bool)
    requires
        img_width >= 0,
        img_height >= 0,
    ensures
        r == spec_icon_present(img_width as int, img_height as int, scores@),
{
    match compute_search_rect(img_width, img_height) {
        None => false,
        Some(_) => any_score_at_least(scores, ICON_MATCH_THRESHOLD),
    }
}

/// Normalizes a color image for recognition: grayscale, replicated back to
/// three channels, then brightened by [`BRIGHTEN_DELTA`] to improve symbol
/// contrast.  Every output channel byte is the brightened luma of its pixel.
pub fn normalize_for_ocr(rgb: &RgbFrame) -> (r: RgbFrame)
    requires
        rgb.wf(),
    ensures
        r.wf(),
        r.width == rgb.width,
        r.height == rgb.height,
        forall|j: int, c: int|
            0 <= j < rgb.width * rgb.height && 0 <= c < 3 ==> #[trigger] r.data@[3 * j + c]
                == spec_brighten_byte(
                spec_luma(rgb.data@[3 * j], rgb.data@[3 * j + 1], rgb.data@[3 * j + 2]),
                BRIGHTEN_DELTA as int,
            ),
{
    let total = rgb.data.len();
    let gray = grayscale_frame(rgb);
    proof {
        assert(gray.data@.len() == gray.width * gray.height);
        assert(3 * gray.width * gray.height == total) by (nonlinear_arith)
            requires
                gray.data@.len() == gray.width * gray.height,
                total == 3 * rgb.width * rgb.height,
                gray.width == rgb.width,
                gray.height == rgb.height,
        ;
        assert(3 * (gray.width * gray.height) == 3 * gray.width * gray.height) by (
        nonlinear_arith);
    }
    let replicated = gray_to_rgb(&gray);
    let bright = brighten_frame(&replicated, BRIGHTEN_DELTA);
    proof {
        assert forall|j: int, c: int|
            0 <= j < rgb.width * rgb.height && 0 <= c < 3 implies #[trigger] bright.data@[3 * j
            + c] == spec_brighten_byte(
            spec_luma(rgb.data@[3 * j], rgb.data@[3 * j + 1], rgb.data@[3 * j + 2]),
            BRIGHTEN_DELTA as int,
        ) by {
            assert(gray.data@[j] == spec_luma(
                rgb.data@[3 * j],
                rgb.data@[3 * j + 1],
                rgb.data@[3 * j + 2],
            ));
            assert(replicated.data@[3 * j] == gray.data@[j]);
            assert(replicated.data@[3 * j + c] == gray.data@[j]);
            assert(bright.data@[3 * j + c] == spec_brighten_byte(
                replicated.data@[3 * j + c],
                BRIGHTEN_DELTA as int,
            ));
        }
    }
    bright
}

/// The rectangle of one stat region in an image of the given height: the
/// configured horizontal offset, the configured vertical offset measured
/// from the image bottom (clamped at the top edge), and the fixed region
/// size.
pub open spec fn spec_stat_region_rect(pos: Aoe4StatPos, img_height: int) -> (u32, u32, u32, u32) {
    let y = if img_height + pos.y > 0 {
        img_height + pos.y
    } else {
        0
    };
    (pos.x as u32, y as u32, STAT_RECT_WIDTH, STAT_RECT_HEIGHT)
}

/// The rectangles of all stat regions for an image of the given height, in
/// table order.
pub fn stat_region_rects(img_height: u32) -> (r: Vec<(u32, u32, u32, u32)>)
    ensures
        r@.len() == NUM_STAT_REGIONS,
        forall|i: int|
            0 <= i < r@.len() ==> #[trigger] r@[i] == spec_stat_region_rect(
                spec_stat_positions()[i],
                img_height as int,
            ),
{
    let positions = stat_positions();
    let mut r: Vec<(u32, u32, u32, u32)> = Vec::new();
    let mut i: usize = 0;
    while i < positions.len()
        invariant
            0 <= i <= positions@.len(),
            positions@ == spec_stat_positions(),
            r@.len() == i,
            forall|k: int|
                0 <= k < i ==> #[trigger] r@[k] == spec_stat_region_rect(
                    spec_stat_positions()[k],
                    img_height as int,
                ),
        decreases positions@.len() - i,
    {
        let pos = positions[i];
        proof {
            assert(pos.x == 50 || pos.x == 187);
        }
        let hy: i64 = img_height as i64 + pos.y as i64;
        let y: u32 = if hy > 0 {
            hy as u32
        } else {
            0
        };
        let x: u32 = pos.x as u32;
        r.push((x, y, STAT_RECT_WIDTH, STAT_RECT_HEIGHT));
        i = i + 1;
    }
    r
}

/// One recognized result per stat region, the icon decision, and the three
/// stage timings of the frame.
#[derive(Debug, Clone)]
pub struct AnalysisResult {
    /// One short string per stat region, in table order; empty means the
    /// region was not read this frame.
    pub detected_texts: Vec<Str8>,
    /// Whether the icon was found in its search area.
    pub has_villager_icon: bool,
    /// Time spent on icon detection, in milliseconds.
    pub detect_villager_time_ms: u64,
    /// Time spent on color normalization, in milliseconds.
    pub convert_color_time_ms: u64,
    /// Time spent on recognition, in milliseconds.
    pub ocr_time_ms: u64,
}

/// The choice of recognition backend.
#[derive(Debug, Clone, Copy, PartialEq, Eq, Structural)]
pub enum OCRModel {
    /// A neural backend read region by region with a confidence threshold.
    PP,
    /// A neural backend read as one batch.
    ONNX,
    /// A neural backend read region by region, concurrently.
    OnnxPar,
    /// The template-matching digit recognizer.
    TemplateMatching,
}

/// A stage duration: the elapsed total minus what earlier stages used,
/// clamped at zero to guard against timer non-monotonicity.
pub open spec fn spec_stage_ms(total: u64, prior: u64) -> u64 {
    if total >= prior {
        (total - prior) as u64
    } else {
        0
    }
}

/// Subtracts the prior stages' time from a cumulative reading, clamping at
/// zero so a non-monotonic timer can never produce a negative duration.
pub fn stage_ms(total: u64, prior: u64) -> (r: u64)
    ensures
        r == spec_stage_ms(total, prior),
{
    if total >= prior {
        total - prior
    } else {
        0
    }
}

/// The per-frame analyzer: the chosen recognition engine.
pub struct ImageAnalyzerInner {
    /// The recognition engine.
    pub ocr_engine: OcrEngineWrapper,
}

impl ImageAnalyzerInner {
    /// Builds the analyzer for the chosen backend.  The template sources are
    /// used by the template-matching backend alone; construction fails
    /// exactly when that backend is chosen and no source yields a usable
    /// template.
    pub fn new(ocrmodel: OCRModel, template_sources: Vec<TemplateSource>) -> (r: Result<
        Self,
        OcrError,
    >)
        ensures
            ocrmodel != OCRModel::TemplateMatching ==> r is Ok,
            ocrmodel == OCRModel::PP ==> r->Ok_0.ocr_engine == (OcrEngineWrapper::NeuralParallel {
                score_threshold: DEFAULT_NEURAL_SCORE_THRESHOLD,
            }),
            ocrmodel == OCRModel::ONNX ==> r->Ok_0.ocr_engine == OcrEngineWrapper::NeuralBatch,
            ocrmodel == OCRModel::OnnxPar ==> r->Ok_0.ocr_engine
                == (OcrEngineWrapper::NeuralParallel {
                score_threshold: DEFAULT_NEURAL_SCORE_THRESHOLD,
            }),
            ocrmodel == OCRModel::TemplateMatching ==> {
                &&& (r is Ok <==> spec_load_templates(template_sources@).len() > 0)
                &&& (r is Ok ==> (r->Ok_0.ocr_engine matches OcrEngineWrapper::TemplateMatching(e)
                    && e.digit_templates@ == spec_load_templates(template_sources@)
                    && e.config.match_threshold
                    == crate::template_matching_ocr::DEFAULT_MATCH_THRESHOLD
                    && e.config.min_confidence
                    == crate::template_matching_ocr::DEFAULT_MIN_CONFIDENCE))
                &&& (r is Err ==> r->Err_0 == OcrError::NoTemplates)
            },
    {
        match ocrmodel {
            OCRModel::PP => Ok(
                ImageAnalyzerInner {
                    ocr_engine: OcrEngineWrapper::NeuralParallel {
                        score_threshold: DEFAULT_NEURAL_SCORE_THRESHOLD,
                    },
                },
            ),
            OCRModel::ONNX => Ok(ImageAnalyzerInner { ocr_engine: OcrEngineWrapper::NeuralBatch }),
            OCRModel::OnnxPar => Ok(
                ImageAnalyzerInner {
                    ocr_engine: OcrEngineWrapper::NeuralParallel {
                        score_threshold: DEFAULT_NEURAL_SCORE_THRESHOLD,
                    },
                },
            ),
            OCRModel::TemplateMatching => {
                let config = TemplateMatchingConfig::default();
                match TemplateMatchingOcrEngine::new(config, template_sources) {
                    Ok(engine) => Ok(
                        ImageAnalyzerInner {
                            ocr_engine: OcrEngineWrapper::TemplateMatching(engine),
                        },
                    ),
                    Err(e) => Err(e),
                }
            },
        }
    }

    /// Packages one frame's analysis: the icon decision from the search
    /// rectangle and its score map, one recognized string per region from
    /// the readings, and the three stage durations from the cumulative timer
    /// readings, each clamped at zero.
    pub fn analyze(
        &self,
        img_width: i32,
        img_height: i32,
        icon_scores: &Vec<Vec<u32>>,
        readings: &Vec<RegionReading>,
        icon_ms: u64,
        after_convert_ms: u64,
        total_ms: u64,
    ) -> (r: AnalysisResult)
        requires
            img_width >= 0,
            img_height >= 0,
            forall|i: int|
                0 <= i < readings@.len() ==> spec_reading_ok(
                    self.ocr_engine,
                    #[trigger] readings@[i],
                ),
        ensures
            r.has_villager_icon == spec_icon_present(
                img_width as int,
                img_height as int,
                icon_scores@,
            ),
            r.detected_texts@.len() == readings@.len(),
            forall|i: int|
                0 <= i < readings@.len() ==> (#[trigger] r.detected_texts@[i])@
                    == spec_engine_region(self.ocr_engine, readings@[i]),
            r.detect_villager_time_ms == icon_ms,
            r.convert_color_time_ms == spec_stage_ms(after_convert_ms, icon_ms),
            r.ocr_time_ms == spec_stage_ms(total_ms, after_convert_ms),
    {
        let has_villager_icon = detect_icon(img_width, img_height, icon_scores);
        let detected_texts = self.ocr_engine.recognize_text(readings);
        AnalysisResult {
            detected_texts,
            has_villager_icon,
            detect_villager_time_ms: icon_ms,
            convert_color_time_ms: stage_ms(after_convert_ms, icon_ms),
            ocr_time_ms: stage_ms(total_ms, after_convert_ms),
        }
    }
}

} // verus!
