//! The single-slot frame handoff.
//!
//! A producer overwrites the one held frame with [`PixelBufWrapperWithDroppedFrames::write`]
//! and never blocks; the consumer takes the newest frame with
//! [`PixelBufWrapperWithDroppedFrames::drain`], which also reports how many
//! writes were overwritten unseen.  The caller wraps the slot in its own
//! mutual exclusion; every operation here is a plain short critical section
//! body.

use vstd::prelude::*;

verus! {

/// A raw captured frame: a 4-bytes-per-pixel buffer with its dimensions and
/// row stride.
#[derive(Clone)]
pub struct PixbufWrapper {
    /// Pixel bytes, 4 per pixel, rows `stride` bytes apart.
    pub bgr_buffer: Vec<u8>,
    /// Frame width in pixels.
    pub width: i32,
    /// Frame height in pixels.
    pub height: i32,
    /// Bytes per row.
    pub stride: i32,
}

/// The value of a [`PixbufWrapper`] as plain mathematics.
pub ghost struct FrameView {
    /// The pixel bytes.
    pub bytes: Seq<u8>,
    /// Frame width in pixels.
    pub width: int,
    /// Frame height in pixels.
    pub height: int,
    /// Bytes per row.
    pub stride: int,
}

impl View for PixbufWrapper {
    type V = FrameView;

    open spec fn view(&self) -> FrameView {
        FrameView {
            bytes: self.bgr_buffer@,
            width: self.width as int,
            height: self.height as int,
            stride: self.stride as int,
        }
    }
}

impl PixbufWrapper {
    /// An empty frame.
    pub fn default() -> (r: PixbufWrapper)
        ensures
            r@.bytes == Seq::<u8>::empty(),
            r@.width == 0,
            r@.height == 0,
            r@.stride == 0,
    {
        PixbufWrapper { bgr_buffer: Vec::new(), width: 0, height: 0, stride: 0 }
    }

    /// Replaces the held pixels and dimensions with the given ones.
    pub fn copy_from_slice(&mut self, other: &[u8], width: i32, height: i32, stride: i32)
        ensures
            final(self)@ == (FrameView {
                bytes: other@,
                width: width as int,
                height: height as int,
                stride: stride as int,
            }),
    {
        self.bgr_buffer.clear();
        let mut i: usize = 0;
        while i < other.len()
            invariant
                i <= other@.len(),
                self.bgr_buffer@ == other@.take(i as int),
            decreases other@.len() - i,
        {
            self.bgr_buffer.push(other[i]);
            proof {
                assert(self.bgr_buffer@ =~= other@.take(i + 1 as int));
            }
            i = i + 1;
        }
        self.width = width;
        self.height = height;
        self.stride = stride;
        proof {
            assert(self.bgr_buffer@ =~= other@);
        }
    }

    /// Replaces this frame with a copy of `other`.
    pub fn copy_from_pixbuf(&mut self, other: &PixbufWrapper)
        ensures
            final(self)@ == other@,
    {
        let buf: &[u8] = other.bgr_buffer.as_slice();
        self.copy_from_slice(buf, other.width, other.height, other.stride);
    }
}

/// The frame slot: the most recent raw frame plus the count of producer
/// writes since the last drain.
pub struct PixelBufWrapperWithDroppedFrames {
    /// The most recently written frame.
    pub pixbuf: PixbufWrapper,
    /// Producer writes since the last drain.
    pub frames_written: u32,
}

/// The value of the slot as plain mathematics.
pub ghost struct SlotView {
    /// The held frame.
    pub frame: FrameView,
    /// Producer writes since the last drain.
    pub written: nat,
}

impl View for PixelBufWrapperWithDroppedFrames {
    type V = SlotView;

    open spec fn view(&self) -> SlotView {
        SlotView { frame: self.pixbuf@, written: self.frames_written as nat }
    }
}

/// The slot after one producer write of `frame`: the held frame is replaced
/// unconditionally and the write count grows by one.
pub open spec fn spec_write(s: SlotView, frame: FrameView) -> SlotView {
    SlotView { frame, written: s.written + 1 }
}

/// The slot after a sequence of producer writes, applied left to right.
pub open spec fn after_writes(s: SlotView, frames: Seq<FrameView>) -> SlotView
    decreases frames.len(),
{
    if frames.len() == 0 {
        s
    } else {
        spec_write(after_writes(s, frames.drop_last()), frames.last())
    }
}

/// The outcome of a drain on a slot value: with nothing written since the
/// last drain there is no new data and the slot is left alone; otherwise the
/// held frame comes out with the count of writes overwritten unseen, and the
/// counter is reset.
pub open spec fn spec_drain(v: SlotView) -> (Option<(FrameView, int)>, SlotView) {
    if v.written == 0 {
        (None, v)
    } else {
        (Some((v.frame, v.written - 1)), SlotView { frame: v.frame, written: 0 })
    }
}

impl PixelBufWrapperWithDroppedFrames {
    /// An empty slot with nothing written.
    pub fn new() -> (r: PixelBufWrapperWithDroppedFrames)
        ensures
            r@.written == 0,
            r@.frame.bytes == Seq::<u8>::empty(),
    {
        PixelBufWrapperWithDroppedFrames { pixbuf: PixbufWrapper::default(), frames_written: 0 }
    }

    /// Producer side: replaces the held frame unconditionally and counts the
    /// write.  Never fails; an undrained previous frame is simply overwritten.
    pub fn write(&mut self, pixel_bytes: &[u8], width: i32, height: i32, stride: i32)
        requires
            old(self)@.written < u32::MAX,
        ensures
            final(self)@ == spec_write(old(self)@, FrameView {
                bytes: pixel_bytes@,
                width: width as int,
                height: height as int,
                stride: stride as int,
            }),
    {
        self.pixbuf.copy_from_slice(pixel_bytes, width, height, stride);
        self.frames_written = self.frames_written + 1;
    }

    /// Consumer side: takes the newest frame, if any.
    ///
    /// With no write since the last drain (or nothing ever written) there is
    /// no new data: the result is `None` and the slot is untouched.
    /// Otherwise — the write count alone governs — the result carries a copy
    /// of the held frame together with `written - 1`, the number of frames
    /// overwritten unseen, and the write count is reset to zero in the same
    /// step as the copy-out.
    pub fn drain(&mut self) -> (r: Option<(PixbufWrapper, u32)>)
        ensures
            final(self)@ == spec_drain(old(self)@).1,
            r is None <==> spec_drain(old(self)@).0 is None,
            r is Some ==> {
                &&& r->Some_0.0@ == spec_drain(old(self)@).0->Some_0.0
                &&& r->Some_0.1 == spec_drain(old(self)@).0->Some_0.1
            },
    {
        if self.frames_written == 0 {
            return None;
        }
        let dropped = self.frames_written - 1;
        self.frames_written = 0;
        let mut frame = PixbufWrapper::default();
        frame.copy_from_pixbuf(&self.pixbuf);
        Some((frame, dropped))
    }
}

/// Drop accounting law: between two drains, a run of `n >= 1` producer
/// writes leaves the slot holding exactly the last written frame with a
/// write count of `n`, so the closing drain hands that frame out and reports
/// `n - 1` frames dropped; a run of zero writes leaves the counter at zero,
/// so the closing drain reports no new data.
pub proof fn lemma_slot_drop_accounting(s: SlotView, frames: Seq<FrameView>)
    requires
        s.written == 0,
    ensures
        frames.len() == 0 ==> spec_drain(after_writes(s, frames)).0 is None,
        frames.len() >= 1 ==> after_writes(s, frames) == (SlotView {
            frame: frames.last(),
            written: frames.len() as nat,
        }),
        frames.len() >= 1 ==> spec_drain(after_writes(s, frames)).0 == Some(
            (frames.last(), frames.len() - 1),
        ),
    decreases frames.len(),
{
    if frames.len() >= 1 {
        let front = frames.drop_last();
        if front.len() == 0 {
            assert(after_writes(s, front) == s);
        } else {
            lemma_slot_drop_accounting(s, front);
        }
    }
}

} // verus!
