//! Frame-to-result recognition pipeline for a screen-capture overlay.
//!
//! The crate covers the single-slot frame handoff with drop accounting, the
//! frame normalization steps, the pluggable recognition-engine variants, the
//! digit template matcher with non-max suppression, and the icon detector's
//! search-rectangle clamping and decision rule.

pub mod consts;
pub mod frame_processor;
pub mod image_analyzer;
pub mod image_ops;
pub mod ocr;
pub mod overlay_alert;
pub mod pixelbuf_wrapper;
pub mod str8;
pub mod template_matching_ocr;
