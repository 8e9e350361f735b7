//! Tests of the recognition core: the template matcher, the engine variants
//! and their shared acceptance rule, normalization, and the icon detector.

use aoe4_overlay::image_analyzer::{
    compute_search_rect, detect_icon, normalize_for_ocr, stage_ms, stat_region_rects,
    ImageAnalyzerInner, OCRModel, SearchRect,
};
use aoe4_overlay::image_ops::{crop_rgb, extract_rgb_region, prepare_region, GrayFrame, RgbFrame};
use aoe4_overlay::ocr::{
    accepts_bytes, is_digit_or_slash, FallbackOcrEngine, OcrEngineWrapper, RegionReading,
};
use aoe4_overlay::pixelbuf_wrapper::PixbufWrapper;
use aoe4_overlay::str8::Str8;
use aoe4_overlay::template_matching_ocr::{
    filter_overlapping_matches, load_templates, recognize_digits, DigitMatch, OcrError,
    TemplateMatchingConfig, TemplateMatchingOcrEngine, TemplateSource,
};

fn m(digit: u8, x: i32, confidence: u32) -> DigitMatch {
    DigitMatch { digit, x, confidence }
}

fn tiny_gray() -> GrayFrame {
    GrayFrame {
        width: 2,
        height: 2,
        data: vec![10, 20, 30, 40],
    }
}

#[test]
fn acceptance_rule_on_bytes() {
    assert!(accepts_bytes(&b"123/4".to_vec()));
    assert!(accepts_bytes(&b"0".to_vec()));
    assert!(!accepts_bytes(&b"".to_vec()));
    assert!(!accepts_bytes(&b"12a".to_vec()));
    assert!(!accepts_bytes(&b" 12".to_vec()));
    assert!(is_digit_or_slash(b'/'));
    assert!(is_digit_or_slash(b'7'));
    assert!(!is_digit_or_slash(b'a'));
}

#[test]
fn matcher_assembles_ordered_string() {
    // Candidates rendered left to right at x = 0, 12, 24, 36 with score 0.9
    // each: the matcher reads them as "12/5" with confidence 0.9.
    let candidates = vec![
        m(b'2', 12, 900),
        m(b'1', 0, 900),
        m(b'5', 36, 900),
        m(b'/', 24, 900),
    ];
    let (text, confidence) = recognize_digits(&candidates);
    assert_eq!(text.bytes(), b"12/5".to_vec());
    assert_eq!(confidence, 900);
}

#[test]
fn matcher_is_deterministic_on_same_input() {
    let candidates = vec![m(b'9', 3, 800), m(b'1', 20, 750), m(b'4', 40, 990)];
    let (t1, c1) = recognize_digits(&candidates);
    let (t2, c2) = recognize_digits(&candidates);
    assert_eq!(t1.bytes(), t2.bytes());
    assert_eq!(c1, c2);
}

#[test]
fn overlap_suppression_keeps_most_confident() {
    // Two overlapping candidates 2 px apart: only the 0.95 '3' survives.
    let candidates = vec![m(b'3', 10, 950), m(b'8', 12, 800)];
    let kept = filter_overlapping_matches(&candidates);
    assert_eq!(kept.len(), 1);
    assert_eq!(kept[0], m(b'3', 10, 950));
    let (text, confidence) = recognize_digits(&candidates);
    assert_eq!(text.bytes(), b"3".to_vec());
    assert_eq!(confidence, 950);
}

#[test]
fn accepted_matches_are_separated_and_ordered() {
    let candidates = vec![
        m(b'1', 0, 700),
        m(b'2', 5, 900),
        m(b'3', 11, 800),
        m(b'4', 14, 950),
        m(b'5', 40, 730),
    ];
    let kept = filter_overlapping_matches(&candidates);
    for i in 0..kept.len() {
        for j in 0..kept.len() {
            if i != j {
                assert!((kept[i].x - kept[j].x).abs() >= 10);
            }
        }
        if i + 1 < kept.len() {
            assert!(kept[i].x <= kept[i + 1].x);
        }
    }
}

#[test]
fn matcher_truncates_to_eight_symbols() {
    let mut candidates = Vec::new();
    for i in 0..10 {
        candidates.push(m(b'0' + (i as u8), 20 * i, 900));
    }
    let (text, _) = recognize_digits(&candidates);
    assert_eq!(text.bytes(), b"01234567".to_vec());
}

#[test]
fn matcher_empty_input_reads_nothing() {
    let (text, confidence) = recognize_digits(&Vec::new());
    assert!(text.is_empty());
    assert_eq!(confidence, 0);
}

#[test]
fn short_string_truncates_silently() {
    let s = Str8::from_prefix(&b"0123456789".to_vec());
    assert_eq!(s.bytes(), b"01234567".to_vec());
    let mut t = Str8::new();
    for _ in 0..12 {
        t.push(b'7');
    }
    assert_eq!(t.len(), 8);
}

#[test]
fn template_loading_parses_stems() {
    let sources = vec![
        TemplateSource { stem: b"slash".to_vec(), image: tiny_gray() },
        TemplateSource { stem: b"3-bold".to_vec(), image: tiny_gray() },
        TemplateSource { stem: b"readme".to_vec(), image: tiny_gray() },
        TemplateSource { stem: b"-odd".to_vec(), image: tiny_gray() },
        TemplateSource {
            stem: b"9-thin".to_vec(),
            image: GrayFrame { width: 0, height: 0, data: vec![] },
        },
    ];
    let templates = load_templates(sources).unwrap();
    assert_eq!(templates.len(), 2);
    assert_eq!(templates[0].glyph, b'/');
    assert_eq!(templates[1].glyph, b'3');
}

#[test]
fn template_loading_with_no_usable_source_fails() {
    let sources = vec![TemplateSource { stem: b"readme".to_vec(), image: tiny_gray() }];
    assert_eq!(load_templates(sources).unwrap_err(), OcrError::NoTemplates);
    let engine = TemplateMatchingOcrEngine::new(TemplateMatchingConfig::default(), Vec::new());
    assert!(engine.is_err());
}

fn two_digit_engine() -> TemplateMatchingOcrEngine {
    let sources = vec![
        TemplateSource { stem: b"1-a".to_vec(), image: tiny_gray() },
        TemplateSource { stem: b"2-a".to_vec(), image: tiny_gray() },
    ];
    TemplateMatchingOcrEngine::new(TemplateMatchingConfig::default(), sources).unwrap()
}

#[test]
fn region_recognition_from_score_maps() {
    let engine = two_digit_engine();
    // Template '1' matches at x = 0 with 0.9; template '2' at x = 12 with 0.88.
    let maps = vec![
        vec![vec![900, 0, 0, 0, 0, 0, 0, 0, 0, 0, 0, 0, 0, 0]],
        vec![vec![0, 0, 0, 0, 0, 0, 0, 0, 0, 0, 0, 0, 880, 0]],
    ];
    let (text, confidence) = engine.recognize_region(&maps);
    assert_eq!(text.bytes(), b"12".to_vec());
    assert_eq!(confidence, 890);
}

#[test]
fn region_below_match_threshold_reads_nothing() {
    let engine = two_digit_engine();
    let maps = vec![vec![vec![699, 0, 0]], vec![vec![0, 0, 0]]];
    let (text, confidence) = engine.recognize_region(&maps);
    assert!(text.is_empty());
    assert_eq!(confidence, 0);
}

#[test]
fn engine_rejects_low_mean_confidence() {
    let engine = two_digit_engine();
    // One match at 0.71: above the match threshold, below min confidence 0.75.
    let maps = vec![vec![vec![710, 0, 0]], vec![vec![0, 0, 0]]];
    let wrapper = OcrEngineWrapper::TemplateMatching(engine);
    let readings = vec![RegionReading::TemplateScores { maps }];
    let out = wrapper.recognize_text(&readings);
    assert_eq!(out.len(), 1);
    assert!(out[0].is_empty());
}

#[test]
fn engine_accepts_confident_region() {
    let engine = two_digit_engine();
    let maps = vec![vec![vec![900, 0, 0]], vec![vec![0, 0, 0]]];
    let wrapper = OcrEngineWrapper::TemplateMatching(engine);
    let readings = vec![RegionReading::TemplateScores { maps }];
    let out = wrapper.recognize_text(&readings);
    assert_eq!(out[0].bytes(), b"1".to_vec());
}

#[test]
fn neural_batch_accepts_by_content_alone() {
    let wrapper = OcrEngineWrapper::NeuralBatch;
    let readings = vec![
        RegionReading::Neural { text: b"123/4".to_vec(), score: 0 },
        RegionReading::Neural { text: b"12a".to_vec(), score: 1000 },
        RegionReading::Neural { text: b"".to_vec(), score: 1000 },
    ];
    let out = wrapper.recognize_text(&readings);
    assert_eq!(out[0].bytes(), b"123/4".to_vec());
    assert!(out[1].is_empty());
    assert!(out[2].is_empty());
}

#[test]
fn neural_parallel_also_checks_score() {
    let wrapper = OcrEngineWrapper::NeuralParallel { score_threshold: 500 };
    let readings = vec![
        RegionReading::Neural { text: b"42".to_vec(), score: 400 },
        RegionReading::Neural { text: b"42".to_vec(), score: 600 },
    ];
    let out = wrapper.recognize_text(&readings);
    assert!(out[0].is_empty());
    assert_eq!(out[1].bytes(), b"42".to_vec());
    // The threshold is strict: a score exactly at it is refused.
    let boundary = vec![RegionReading::Neural { text: b"42".to_vec(), score: 500 }];
    let out = wrapper.recognize_text(&boundary);
    assert!(out[0].is_empty());
}

#[test]
fn fallback_fills_only_unread_regions() {
    let engine = FallbackOcrEngine::new(
        OcrEngineWrapper::NeuralBatch,
        OcrEngineWrapper::NeuralBatch,
        750,
    );
    let primary = vec![
        RegionReading::Neural { text: b"77".to_vec(), score: 0 },
        RegionReading::Neural { text: b"xx".to_vec(), score: 0 },
    ];
    let fallback = vec![
        RegionReading::Neural { text: b"11".to_vec(), score: 0 },
        RegionReading::Neural { text: b"22".to_vec(), score: 0 },
    ];
    let out = engine.recognize_text(&primary, &fallback);
    assert_eq!(out[0].bytes(), b"77".to_vec());
    assert_eq!(out[1].bytes(), b"22".to_vec());
}

#[test]
fn search_rect_is_clamped_to_image() {
    assert_eq!(
        compute_search_rect(1920, 1080),
        Some(SearchRect { x: 0, y: 594, width: 250, height: 80 })
    );
    // A short image clamps the top edge to zero.
    assert_eq!(
        compute_search_rect(300, 100),
        Some(SearchRect { x: 0, y: 0, width: 250, height: 80 })
    );
}

#[test]
fn icon_absent_for_zero_area_search_rect() {
    // A search rectangle clamped to zero area never reports the icon, even
    // with perfect scores, and never errors.
    assert_eq!(compute_search_rect(0, 1080), None);
    assert!(!detect_icon(0, 1080, &vec![vec![1000]]));
    assert_eq!(compute_search_rect(100, 0), None);
    assert!(!detect_icon(100, 0, &vec![vec![1000]]));
}

#[test]
fn icon_decision_follows_best_score() {
    let strong = vec![vec![0, 0], vec![0, 600]];
    let weak = vec![vec![0, 0], vec![0, 599]];
    assert!(detect_icon(1920, 1080, &strong));
    assert!(!detect_icon(1920, 1080, &weak));
    assert!(!detect_icon(1920, 1080, &Vec::new()));
}

#[test]
fn stage_time_clamps_at_zero() {
    assert_eq!(stage_ms(10, 4), 6);
    assert_eq!(stage_ms(4, 10), 0);
    assert_eq!(stage_ms(7, 7), 0);
}

#[test]
fn raw_frame_extraction_swizzles_bgra() {
    let frame = PixbufWrapper {
        bgr_buffer: vec![1, 2, 3, 4, 5, 6, 7, 8, 9, 10, 11, 12, 13, 14, 15, 16],
        width: 2,
        height: 2,
        stride: 8,
    };
    let rgb = extract_rgb_region(&frame, 0, 0, 2, 2).unwrap();
    assert_eq!(rgb.width, 2);
    assert_eq!(rgb.height, 2);
    assert_eq!(rgb.data, vec![3, 2, 1, 7, 6, 5, 11, 10, 9, 15, 14, 13]);
    // A rectangle outside the frame is refused rather than read.
    assert!(extract_rgb_region(&frame, 1, 0, 2, 2).is_none());
    assert!(extract_rgb_region(&frame, 0, 0, 3, 1).is_none());
}

#[test]
fn rgb_crop_reads_the_rectangle() {
    let img = RgbFrame {
        width: 2,
        height: 2,
        data: vec![1, 2, 3, 4, 5, 6, 7, 8, 9, 10, 11, 12],
    };
    let sub = crop_rgb(&img, 1, 1, 1, 1).unwrap();
    assert_eq!(sub.data, vec![10, 11, 12]);
    assert!(crop_rgb(&img, 2, 0, 1, 1).is_none());
    assert!(crop_rgb(&img, 0, 0, 0, 1).is_none());
}

#[test]
fn normalization_brightens_luma() {
    // One pixel (10, 20, 30): fixed-point BT.601 luma 18, brightened to 48
    // on all channels.  This fails if grayscale or brighten do not behave as
    // specified.
    let img = RgbFrame { width: 1, height: 1, data: vec![10, 20, 30] };
    let out = normalize_for_ocr(&img);
    assert_eq!(out.data, vec![48, 48, 48]);
    // A bright pixel saturates at 255 instead of wrapping.
    let img2 = RgbFrame { width: 1, height: 1, data: vec![250, 250, 250] };
    let out2 = normalize_for_ocr(&img2);
    assert_eq!(out2.data, vec![255, 255, 255]);
}

#[test]
fn region_preparation_grayscales_the_crop() {
    let img = RgbFrame {
        width: 2,
        height: 1,
        data: vec![255, 0, 0, 255, 255, 255],
    };
    let gray = prepare_region(&img, 0, 0, 2, 1).unwrap();
    // Fixed-point BT.601 luma of pure red is (4899 * 255 + 8192) / 16384 = 76.
    assert_eq!(gray.data, vec![76, 255]);
    assert!(prepare_region(&img, 1, 0, 2, 1).is_none());
}

#[test]
fn stat_region_rects_follow_the_table() {
    let rects = stat_region_rects(600);
    assert_eq!(rects.len(), 10);
    assert_eq!(rects[0], (50, 304, 80, 34));
    assert_eq!(rects[5], (187, 304, 80, 34));
    assert_eq!(rects[9], (187, 533, 80, 34));
    // A very short image clamps region tops at the image top.
    let clamped = stat_region_rects(100);
    assert_eq!(clamped[0], (50, 0, 80, 34));
}

#[test]
fn analyzer_construction_per_model() {
    let inner = ImageAnalyzerInner::new(OCRModel::ONNX, Vec::new()).unwrap();
    match inner.ocr_engine {
        OcrEngineWrapper::NeuralBatch => {}
        _ => panic!("batch model should build the batch engine"),
    }
    let err = ImageAnalyzerInner::new(OCRModel::TemplateMatching, Vec::new());
    assert!(err.is_err());
}
