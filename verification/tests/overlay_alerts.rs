//! Tests of the overlay alert decision and its population-reading parser.

use aoe4_overlay::image_analyzer::AnalysisResult;
use aoe4_overlay::overlay_alert::{
    overlay_alert, parse_or_zero, split_population_reading, OverlayAlert,
};
use aoe4_overlay::str8::Str8;

fn analysis_with(pop: &[u8], idle: &[u8], has_villager: bool) -> AnalysisResult {
    let mut detected_texts = Vec::new();
    for i in 0..10 {
        let bytes: &[u8] = match i {
            0 => pop,
            5 => idle,
            _ => b"",
        };
        detected_texts.push(Str8::from_prefix(&bytes.to_vec()));
    }
    AnalysisResult {
        detected_texts,
        has_villager_icon: has_villager,
        detect_villager_time_ms: 0,
        convert_color_time_ms: 0,
        ocr_time_ms: 0,
    }
}

#[test]
fn counts_parse_as_plain_decimals() {
    assert_eq!(parse_or_zero(&b"123".to_vec()), 123);
    assert_eq!(parse_or_zero(&b"0".to_vec()), 0);
    assert_eq!(parse_or_zero(&b"".to_vec()), 0);
    assert_eq!(parse_or_zero(&b"12a".to_vec()), 0);
    assert_eq!(parse_or_zero(&b"1/2".to_vec()), 0);
    assert_eq!(parse_or_zero(&b"2147483647".to_vec()), i32::MAX);
    assert_eq!(parse_or_zero(&b"2147483648".to_vec()), 0);
    assert_eq!(parse_or_zero(&b"99999999999".to_vec()), 0);
}

#[test]
fn population_reading_splits_at_first_slash() {
    let (a, b) = split_population_reading(&b"118/120".to_vec());
    assert_eq!(a, b"118".to_vec());
    assert_eq!(b, b"120".to_vec());
    let (a, b) = split_population_reading(&b"42".to_vec());
    assert_eq!(a, b"42".to_vec());
    assert_eq!(b, b"".to_vec());
    let (a, b) = split_population_reading(&b"1/2/3".to_vec());
    assert_eq!(a, b"1".to_vec());
    assert_eq!(b, b"2".to_vec());
    let (a, b) = split_population_reading(&b"/9".to_vec());
    assert_eq!(a, b"".to_vec());
    assert_eq!(b, b"9".to_vec());
}

#[test]
fn full_population_asks_for_housing() {
    let a = analysis_with(b"118/120", b"0", true);
    assert_eq!(overlay_alert(&a), OverlayAlert::HousingNeeded);
    let a = analysis_with(b"120/120", b"5", true);
    assert_eq!(overlay_alert(&a), OverlayAlert::HousingNeeded);
}

#[test]
fn idle_workers_are_flagged_before_the_icon() {
    let a = analysis_with(b"50/120", b"3", false);
    assert_eq!(overlay_alert(&a), OverlayAlert::IdleWorkers);
}

#[test]
fn missing_icon_is_flagged_last() {
    let a = analysis_with(b"50/120", b"0", false);
    assert_eq!(overlay_alert(&a), OverlayAlert::NoVillagerQueued);
    let a = analysis_with(b"50/120", b"0", true);
    assert_eq!(overlay_alert(&a), OverlayAlert::Quiet);
}

#[test]
fn unreadable_population_shows_nothing() {
    let a = analysis_with(b"", b"9", false);
    assert_eq!(overlay_alert(&a), OverlayAlert::Quiet);
    let a = analysis_with(b"120", b"9", false);
    assert_eq!(overlay_alert(&a), OverlayAlert::Quiet);
    let a = analysis_with(b"x/y", b"9", false);
    assert_eq!(overlay_alert(&a), OverlayAlert::Quiet);
}

#[test]
fn alert_labels_are_empty_only_when_quiet() {
    assert!(OverlayAlert::Quiet.label_bytes().is_empty());
    assert_eq!(OverlayAlert::HousingNeeded.label_bytes(), b"Haus!".to_vec());
    assert_eq!(OverlayAlert::IdleWorkers.label_bytes(), b"Idle!".to_vec());
    assert_eq!(
        OverlayAlert::NoVillagerQueued.label_bytes(),
        b"Villager!".to_vec()
    );
}
