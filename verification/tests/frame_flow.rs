//! Tests of the frame handoff and the consumer side: drop accounting in the
//! single-slot buffer, working-area cropping, and the drop-on-full policy of
//! the result channel.

use aoe4_overlay::consts::{AREA_HEIGHT, AREA_WIDTH};
use aoe4_overlay::frame_processor::{
    crop_working_area, submit_result, FrameProcessor, GuiCommand, ProcessorStats,
};
use aoe4_overlay::image_analyzer::AnalysisResult;
use aoe4_overlay::image_ops::GrayFrame;
use aoe4_overlay::pixelbuf_wrapper::{PixbufWrapper, PixelBufWrapperWithDroppedFrames};
use aoe4_overlay::template_matching_ocr::TemplateSource;

fn frame_bytes(fill: u8, width: i32, height: i32, stride: i32) -> Vec<u8> {
    vec![fill; (stride * height) as usize]
}

fn empty_analysis() -> AnalysisResult {
    AnalysisResult {
        detected_texts: Vec::new(),
        has_villager_icon: false,
        detect_villager_time_ms: 0,
        convert_color_time_ms: 0,
        ocr_time_ms: 0,
    }
}

#[test]
fn drain_of_untouched_slot_is_empty() {
    let mut slot = PixelBufWrapperWithDroppedFrames::new();
    assert!(slot.drain().is_none());
    assert!(slot.drain().is_none());
}

#[test]
fn drain_after_one_write_drops_nothing() {
    let mut slot = PixelBufWrapperWithDroppedFrames::new();
    slot.write(&[1, 2, 3, 4], 1, 1, 4);
    let (frame, dropped) = slot.drain().unwrap();
    assert_eq!(frame.bgr_buffer, vec![1, 2, 3, 4]);
    assert_eq!(dropped, 0);
    assert!(slot.drain().is_none());
}

#[test]
fn three_writes_then_drain_returns_third_frame() {
    // Three writes between drains: the drain hands back the third frame's
    // bytes and reports the two overwritten frames.
    let mut slot = PixelBufWrapperWithDroppedFrames::new();
    slot.write(&[10, 10, 10, 10], 1, 1, 4);
    slot.write(&[20, 20, 20, 20], 1, 1, 4);
    slot.write(&[30, 31, 32, 33], 1, 1, 4);
    let (frame, dropped) = slot.drain().unwrap();
    assert_eq!(frame.bgr_buffer, vec![30, 31, 32, 33]);
    assert_eq!(frame.width, 1);
    assert_eq!(frame.height, 1);
    assert_eq!(frame.stride, 4);
    assert_eq!(dropped, 2);
    assert!(slot.drain().is_none());
}

#[test]
fn writes_between_drains_account_each_batch() {
    let mut slot = PixelBufWrapperWithDroppedFrames::new();
    for i in 0..5 {
        slot.write(&[i, i, i, i], 1, 1, 4);
    }
    let (_, dropped) = slot.drain().unwrap();
    assert_eq!(dropped, 4);
    slot.write(&[9, 9, 9, 9], 1, 1, 4);
    let (frame, dropped2) = slot.drain().unwrap();
    assert_eq!(dropped2, 0);
    assert_eq!(frame.bgr_buffer, vec![9, 9, 9, 9]);
}

#[test]
fn the_write_count_alone_governs_the_drain() {
    // Even a frame with no pixel bytes is handed out once it was written:
    // the drain goes by the write count, not by the frame's contents.
    let mut slot = PixelBufWrapperWithDroppedFrames::new();
    slot.write(&[], 0, 0, 0);
    slot.write(&[], 0, 0, 0);
    let (frame, dropped) = slot.drain().unwrap();
    assert!(frame.bgr_buffer.is_empty());
    assert_eq!(dropped, 1);
    assert!(slot.drain().is_none());
}

#[test]
fn copy_from_pixbuf_copies_everything() {
    let mut a = PixbufWrapper::default();
    a.copy_from_slice(&[5, 6, 7, 8], 1, 1, 4);
    let mut b = PixbufWrapper::default();
    b.copy_from_pixbuf(&a);
    assert_eq!(b.bgr_buffer, vec![5, 6, 7, 8]);
    assert_eq!(b.width, 1);
    assert_eq!(b.height, 1);
    assert_eq!(b.stride, 4);
}

#[test]
fn working_area_crop_refuses_small_frames() {
    let mut frame = PixbufWrapper::default();
    frame.copy_from_slice(&frame_bytes(0, 100, 100, 400), 100, 100, 400);
    assert!(crop_working_area(&frame).is_none());
}

#[test]
fn working_area_crop_takes_bottom_area() {
    let width = AREA_WIDTH + 10;
    let height = AREA_HEIGHT + 5;
    let stride = 4 * width;
    let mut bytes = frame_bytes(7, width, height, stride);
    // Mark the first pixel of the working area: row height - AREA_HEIGHT.
    let top = ((height - AREA_HEIGHT) * stride) as usize;
    bytes[top] = 1; // blue
    bytes[top + 1] = 2; // green
    bytes[top + 2] = 3; // red
    let mut frame = PixbufWrapper::default();
    frame.copy_from_slice(&bytes, width, height, stride);
    let rgb = crop_working_area(&frame).unwrap();
    assert_eq!(rgb.width as i32, AREA_WIDTH);
    assert_eq!(rgb.height as i32, AREA_HEIGHT);
    assert_eq!(&rgb.data[0..3], &[3, 2, 1]);
    assert_eq!(&rgb.data[3..6], &[7, 7, 7]);
}

#[test]
fn processor_counts_drained_and_dropped_frames() {
    let sources = vec![TemplateSource {
        stem: b"1-a".to_vec(),
        image: GrayFrame { width: 2, height: 2, data: vec![0, 0, 0, 0] },
    }];
    let mut processor = FrameProcessor::new(sources).unwrap();
    let mut slot = PixelBufWrapperWithDroppedFrames::new();
    assert!(processor.take_frame(&mut slot).is_none());
    assert_eq!(processor.stats.frame_count, 0);

    let width = AREA_WIDTH;
    let height = AREA_HEIGHT;
    let stride = 4 * width;
    let bytes = frame_bytes(9, width, height, stride);
    slot.write(&bytes, width, height, stride);
    slot.write(&bytes, width, height, stride);
    slot.write(&bytes, width, height, stride);
    let (original, rgb) = processor.take_frame(&mut slot).unwrap();
    assert_eq!(original.bgr_buffer.len(), bytes.len());
    assert_eq!(rgb.width as i32, AREA_WIDTH);
    assert_eq!(processor.stats.frame_count, 1);
    assert_eq!(processor.stats.dropped_count, 2);
}

#[test]
fn processor_construction_needs_templates() {
    assert!(FrameProcessor::new(Vec::new()).is_err());
}

#[test]
fn full_channel_drops_result_and_counts_it() {
    // Output channel of capacity 2, already full: completing a third result
    // drops it, counts it, and raises no error.
    let (tx, mut rx) = tokio::sync::mpsc::channel::<GuiCommand>(2);
    let mut stats = ProcessorStats::new();
    assert!(submit_result(&mut stats, &tx, PixbufWrapper::default(), empty_analysis()));
    assert!(submit_result(&mut stats, &tx, PixbufWrapper::default(), empty_analysis()));
    assert_eq!(stats.dropped_count, 0);
    assert_eq!(stats.processed_count, 2);

    let sent = submit_result(&mut stats, &tx, PixbufWrapper::default(), empty_analysis());
    assert!(!sent);
    assert_eq!(stats.dropped_count, 1);
    assert_eq!(stats.processed_count, 3);

    // Draining one slot makes room again.
    assert!(rx.try_recv().is_ok());
    assert!(submit_result(&mut stats, &tx, PixbufWrapper::default(), empty_analysis()));
    assert_eq!(stats.dropped_count, 1);
}

#[test]
fn closed_channel_also_drops_and_counts() {
    let (tx, rx) = tokio::sync::mpsc::channel::<GuiCommand>(2);
    drop(rx);
    let mut stats = ProcessorStats::new();
    let sent = submit_result(&mut stats, &tx, PixbufWrapper::default(), empty_analysis());
    assert!(!sent);
    assert_eq!(stats.dropped_count, 1);
    assert_eq!(stats.processed_count, 1);
}

#[test]
fn summary_period_is_every_hundred_frames() {
    let mut stats = ProcessorStats::new();
    stats.on_result_sent(true);
    assert!(!stats.should_log_summary());
    for _ in 0..99 {
        stats.on_result_sent(true);
    }
    assert!(stats.should_log_summary());
}
