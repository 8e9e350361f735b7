//! The consumer side of the pipeline: draining the frame slot, cropping the
//! working area, and forwarding each frame's analysis downstream with a
//! drop-on-full policy, so the recognizer never stalls waiting for its
//! consumer.
//!
//! Per-frame error policy: a frame that cannot be interpreted is counted and
//! skipped, never fatal; recognition itself is total, so an unreadable
//! region only yields an empty result.  Only engine construction can fail,
//! and that failure is fatal at startup.

use vstd::prelude::*;
use crate::consts::{AREA_HEIGHT, AREA_WIDTH};
use crate::image_analyzer::{AnalysisResult, ImageAnalyzerInner, OCRModel, spec_icon_present,
    spec_stage_ms};
use crate::image_ops::{RgbFrame, extract_rgb_region, spec_extract_ok};
use crate::ocr::{RegionReading, spec_engine_region, spec_reading_ok};
use crate::pixelbuf_wrapper::{PixbufWrapper, PixelBufWrapperWithDroppedFrames, SlotView};
use crate::str8::Str8;
use crate::template_matching_ocr::{OcrError, TemplateSource, spec_load_templates};

verus! {

/// One fully processed frame: the original pixels and their analysis.
#[derive(Clone)]
pub struct ProcessedFrame {
    /// The raw frame the analysis was made from.
    pub original: PixbufWrapper,
    /// The analysis of that frame.
    pub analysis: AnalysisResult,
}

/// What the processor sends its presentation consumer.
pub enum GuiCommand {
    /// A processed frame with its analysis.
    ProcessedFrame(ProcessedFrame),
    /// Processing is about to begin.
    AboutToProcessFrames,
    /// The presentation side should shut down.
    Quit,
}

/// Relies on `tokio::sync::mpsc::Sender`: the sending half of the bounded
/// result channel.
#[verifier::external_type_specification]
#[verifier::external_body]
#[verifier::reject_recursive_types(T)]
pub struct ExSender<T>(tokio::sync::mpsc::Sender<T>);

/// Relies on `tokio::sync::mpsc::Sender::try_send`: a non-blocking send that
/// is refused on a full or closed channel.  Whether it is accepted depends
/// on the receiver's state, so nothing is promised of the outcome.
#[verifier::external_body]
fn try_send_gui(tx: &tokio::sync::mpsc::Sender<GuiCommand>, cmd: GuiCommand) -> (sent: bool) {
    tx.try_send(cmd).is_ok()
}

/// The processor's running counters: frames received from the slot, frames
/// fully processed, and frames dropped (overwritten in the slot, or shed on
/// a full output channel).
#[derive(Debug, Clone, Copy, PartialEq, Eq, Structural)]
pub struct ProcessorStats {
    /// Frames taken from the slot.
    pub frame_count: u64,
    /// Frames fully processed.
    pub processed_count: u64,
    /// Frames dropped: overwritten in the slot or shed on a full channel.
    pub dropped_count: u32,
}

impl ProcessorStats {
    /// All counters at zero.
    pub fn new() -> (r: ProcessorStats)
        ensures
            r.frame_count == 0,
            r.processed_count == 0,
            r.dropped_count == 0,
    {
        ProcessorStats { frame_count: 0, processed_count: 0, dropped_count: 0 }
    }

    /// Accounts one frame taken from the slot together with the writes that
    /// were overwritten before it.
    pub fn on_drained(&mut self, dropped: u32)
        requires
            old(self).frame_count < u64::MAX,
            old(self).dropped_count + dropped <= u32::MAX,
        ensures
            final(self).frame_count == old(self).frame_count + 1,
            final(self).dropped_count == old(self).dropped_count + dropped,
            final(self).processed_count == old(self).processed_count,
    {
        self.frame_count = self.frame_count + 1;
        self.dropped_count = self.dropped_count + dropped;
    }

    /// Accounts one completed analysis: processed either way, and dropped
    /// when the non-blocking send was refused.
    pub fn on_result_sent(&mut self, sent: bool)
        requires
            old(self).processed_count < u64::MAX,
            old(self).dropped_count < u32::MAX,
        ensures
            final(self).processed_count == old(self).processed_count + 1,
            final(self).frame_count == old(self).frame_count,
            sent ==> final(self).dropped_count == old(self).dropped_count,
            !sent ==> final(self).dropped_count == old(self).dropped_count + 1,
    {
        self.processed_count = self.processed_count + 1;
        if !sent {
            self.dropped_count = self.dropped_count + 1;
        }
    }

    /// Whether this frame closes a reporting period of one hundred processed
    /// frames; the summary itself is a diagnostic side effect of the caller.
    pub fn should_log_summary(&self) -> (r: bool)
        ensures
            r == (self.processed_count % 100 == 0),
    {
        self.processed_count % 100 == 0
    }
}

/// Sends one completed frame downstream without ever blocking: on a full or
/// closed channel the result is dropped and counted instead.  The processed
/// counter always grows by one; the dropped counter grows by one exactly
/// when the send was refused.
pub fn submit_result(
    stats: &mut ProcessorStats,
    tx: &tokio::sync::mpsc::Sender<GuiCommand>,
    original: PixbufWrapper,
    analysis: AnalysisResult,
) -> (sent: bool)
    requires
        old(stats).processed_count < u64::MAX,
        old(stats).dropped_count < u32::MAX,
    ensures
        final(stats).processed_count == old(stats).processed_count + 1,
        final(stats).frame_count == old(stats).frame_count,
        sent ==> final(stats).dropped_count == old(stats).dropped_count,
        !sent ==> final(stats).dropped_count == old(stats).dropped_count + 1,
{
    let sent = try_send_gui(tx, GuiCommand::ProcessedFrame(ProcessedFrame { original, analysis }));
    stats.on_result_sent(sent);
    sent
}

/// Whether a raw frame holds a croppable working area: it is at least as
/// large as the working area and its buffer matches its claimed dimensions.
pub open spec fn spec_has_working_area(frame: crate::pixelbuf_wrapper::FrameView) -> bool {
    frame.height >= AREA_HEIGHT && spec_extract_ok(
        frame,
        0,
        frame.height - AREA_HEIGHT,
        AREA_WIDTH as int,
        AREA_HEIGHT as int,
    )
}

/// Crops the working area, anchored at the bottom of the frame, out of a raw
/// captured frame, converting it to RGB.  A frame smaller than the working
/// area or with a malformed buffer yields `None` and is skipped.
pub fn crop_working_area(frame: &PixbufWrapper) -> (r: Option<RgbFrame>)
    ensures
        r is Some <==> spec_has_working_area(frame@),
        r is Some ==> {
            &&& r->Some_0.wf()
            &&& r->Some_0.width == AREA_WIDTH
            &&& r->Some_0.height == AREA_HEIGHT
            &&& forall|x: int, y: int, c: int|
                0 <= x < AREA_WIDTH && 0 <= y < AREA_HEIGHT && 0 <= c < 3
                    ==> r->Some_0.pixel(x, y, c) == frame@.bytes[(frame@.height - AREA_HEIGHT + y)
                    * frame@.stride + 4 * x + (2 - c)]
        },
{
    if frame.height < AREA_HEIGHT {
        return None;
    }
    let y0 = (frame.height - AREA_HEIGHT) as usize;
    extract_rgb_region(frame, 0, y0, AREA_WIDTH as usize, AREA_HEIGHT as usize)
}

/// The frame processor: the per-frame analyzer and the running counters.
pub struct FrameProcessor {
    /// The per-frame analyzer.
    pub analyzer: ImageAnalyzerInner,
    /// The processor's counters.
    pub stats: ProcessorStats,
}

impl FrameProcessor {
    /// Builds the processor with the template-matching recognizer, from the
    /// decoded template sources.  Fails exactly when no source yields a
    /// usable template; that failure is fatal at startup.
    pub fn new(template_sources: Vec<TemplateSource>) -> (r: Result<Self, OcrError>)
        ensures
            r is Ok <==> spec_load_templates(template_sources@).len() > 0,
            r is Ok ==> r->Ok_0.stats == (ProcessorStats {
                frame_count: 0,
                processed_count: 0,
                dropped_count: 0,
            }),
            r is Err ==> r->Err_0 == OcrError::NoTemplates,
    {
        match ImageAnalyzerInner::new(OCRModel::TemplateMatching, template_sources) {
            Ok(analyzer) => Ok(FrameProcessor { analyzer, stats: ProcessorStats::new() }),
            Err(e) => Err(e),
        }
    }

    /// One drain step of the consumer loop: takes the newest frame from the
    /// slot, if any, accounts it and the writes overwritten before it, and
    /// crops the working area.  `None` means nothing to recognize this
    /// cycle: either no new data arrived (nothing is accounted), or the
    /// frame could not be interpreted (it is accounted and skipped, never
    /// fatal).
    pub fn take_frame(&mut self, slot: &mut PixelBufWrapperWithDroppedFrames) -> (r: Option<
        (PixbufWrapper, RgbFrame),
    >)
        requires
            old(self).stats.frame_count < u64::MAX,
            old(self).stats.dropped_count + old(slot)@.written <= u32::MAX + 1,
        ensures
            final(self).analyzer == old(self).analyzer,
            final(self).stats.processed_count == old(self).stats.processed_count,
            old(slot)@.written == 0 ==> {
                &&& r is None
                &&& final(slot)@ == old(slot)@
                &&& final(self).stats == old(self).stats
            },
            old(slot)@.written > 0 ==> {
                &&& final(slot)@ == (SlotView { frame: old(slot)@.frame, written: 0 })
                &&& final(self).stats.frame_count == old(self).stats.frame_count + 1
                &&& final(self).stats.dropped_count == old(self).stats.dropped_count + old(
                    slot,
                )@.written - 1
                &&& (r is Some <==> spec_has_working_area(old(slot)@.frame))
                &&& (r is Some ==> r->Some_0.0@ == old(slot)@.frame)
                &&& (r is Some ==> r->Some_0.1.wf() && r->Some_0.1.width == AREA_WIDTH
                    && r->Some_0.1.height == AREA_HEIGHT)
            },
    {
        match slot.drain() {
            None => None,
            Some((frame, dropped)) => {
                self.stats.on_drained(dropped);
                match crop_working_area(&frame) {
                    None => None,
                    Some(rgb) => Some((frame, rgb)),
                }
            },
        }
    }

    /// Completes one frame: packages the icon decision, the per-region
    /// recognition results and the stage timings into an `AnalysisResult`,
    /// and forwards it downstream without blocking, dropping and counting it
    /// on a full channel.  Returns the analysis and whether it was sent.
    pub fn finish_frame(
        &mut self,
        tx: &tokio::sync::mpsc::Sender<GuiCommand>,
        original: PixbufWrapper,
        img_width: i32,
        img_height: i32,
        icon_scores: &Vec<Vec<u32>>,
        readings: &Vec<RegionReading>,
        icon_ms: u64,
        after_convert_ms: u64,
        total_ms: u64,
    ) -> (r: (AnalysisResult, bool))
        requires
            img_width >= 0,
            img_height >= 0,
            forall|i: int|
                0 <= i < readings@.len() ==> spec_reading_ok(
                    old(self).analyzer.ocr_engine,
                    #[trigger] readings@[i],
                ),
            old(self).stats.processed_count < u64::MAX,
            old(self).stats.dropped_count < u32::MAX,
        ensures
            final(self).analyzer == old(self).analyzer,
            final(self).stats.processed_count == old(self).stats.processed_count + 1,
            final(self).stats.frame_count == old(self).stats.frame_count,
            r.1 ==> final(self).stats.dropped_count == old(self).stats.dropped_count,
            !r.1 ==> final(self).stats.dropped_count == old(self).stats.dropped_count + 1,
            r.0.has_villager_icon == spec_icon_present(
                img_width as int,
                img_height as int,
                icon_scores@,
            ),
            r.0.detected_texts@.len() == readings@.len(),
            forall|i: int|
                0 <= i < readings@.len() ==> (#[trigger] r.0.detected_texts@[i])@
                    == spec_engine_region(old(self).analyzer.ocr_engine, readings@[i]),
            r.0.detect_villager_time_ms == icon_ms,
            r.0.convert_color_time_ms == spec_stage_ms(after_convert_ms, icon_ms),
            r.0.ocr_time_ms == spec_stage_ms(total_ms, after_convert_ms),
    {
        let analysis = self.analyzer.analyze(
            img_width,
            img_height,
            icon_scores,
            readings,
            icon_ms,
            after_convert_ms,
            total_ms,
        );
        let copy = duplicate_analysis(&analysis);
        let sent = submit_result(&mut self.stats, tx, original, analysis);
        (copy, sent)
    }
}

/// Copies an analysis result field by field.
pub fn duplicate_analysis(a: &AnalysisResult) -> (r: AnalysisResult)
    ensures
        r.detected_texts@ == a.detected_texts@,
        r.has_villager_icon == a.has_villager_icon,
        r.detect_villager_time_ms == a.detect_villager_time_ms,
        r.convert_color_time_ms == a.convert_color_time_ms,
        r.ocr_time_ms == a.ocr_time_ms,
{
    let mut detected_texts: Vec<Str8> = Vec::new();
    let mut i: usize = 0;
    while i < a.detected_texts.len()
        invariant
            0 <= i <= a.detected_texts@.len(),
            detected_texts@ == a.detected_texts@.take(i as int),
        decreases a.detected_texts@.len() - i,
    {
        detected_texts.push(a.detected_texts[i]);
        proof {
            assert(detected_texts@ =~= a.detected_texts@.take(i as int + 1));
        }
        i = i + 1;
    }
    proof {
        assert(a.detected_texts@.take(a.detected_texts@.len() as int) =~= a.detected_texts@);
    }
    AnalysisResult {
        detected_texts,
        has_villager_icon: a.has_villager_icon,
        detect_villager_time_ms: a.detect_villager_time_ms,
        convert_color_time_ms: a.convert_color_time_ms,
        ocr_time_ms: a.ocr_time_ms,
    }
}

} // verus!
