//! Bookkeeping of the frame decoder: output size, frames delivered since the
//! last seek, and turning decoded bytes into frames.
use vstd::prelude::*;
use crate::model::NUM_FRAMES_TO_TRACK_FPS;
use crate::update::SeekPoint;
use crate::view::Frame;

verus! {

/// Bytes per pixel of decoded frames.
pub const NUM_COLOR_CHANNELS: i32 = 3;

/// The plain-value state of the frame decoder.
pub struct FrameIterator {
    /// The video being decoded.
    pub video_path: String,
    /// Output width in pixels.
    pub render_width: i32,
    /// Output height in pixels.
    pub render_height: i32,
    /// Frames delivered since the last seek.
    pub num_frames_rendered: u32,
    /// Where decoding was last (re)started.
    pub last_seek: SeekPoint,
}

impl FrameIterator {
    /// Non-negative output size whose byte count fits in `i32`.
    pub open spec fn size_ok(w: i32, h: i32) -> bool {
        w >= 0 && h >= 0 && w * h * 3 <= i32::MAX
    }

    /// Starts decoding `path` at the beginning, at `w` x `h` pixels.
    pub fn new(path: String, w: i32, h: i32) -> (it: FrameIterator)
        requires
            Self::size_ok(w, h),
        ensures
            it.video_path@ == path@,
            it.render_width == w && it.render_height == h,
            it.num_frames_rendered == 0,
            it.last_seek == SeekPoint::Micros(0),
    {
        FrameIterator {
            video_path: path,
            render_width: w,
            render_height: h,
            num_frames_rendered: 0,
            last_seek: SeekPoint::Micros(0),
        }
    }

    /// Bytes in one decoded frame.
    pub fn frame_len(&self) -> (n: usize)
        requires
            Self::size_ok(self.render_width, self.render_height),
        ensures
            n == self.render_width * self.render_height * 3,
    {
        (self.render_width * self.render_height * NUM_COLOR_CHANNELS) as usize
    }

    /// The output size in pixels.
    pub fn render_size(&self) -> (r: (i32, i32))
        ensures
            r == (self.render_width, self.render_height),
    {
        (self.render_width, self.render_height)
    }

    /// Changes the output size; decoding must restart at `last_seek`.
    pub fn resize(&mut self, w: i32, h: i32)
        requires
            Self::size_ok(w, h),
        ensures
            final(self).render_width == w && final(self).render_height == h,
            final(self).num_frames_rendered == old(self).num_frames_rendered,
            final(self).last_seek == old(self).last_seek,
            final(self).video_path == old(self).video_path,
    {
        self.render_width = w;
        self.render_height = h;
    }

    /// Records that decoding restarted at `at`: the frame count starts over.
    pub fn restarted(&mut self, at: SeekPoint)
        ensures
            final(self).num_frames_rendered == 0,
            final(self).last_seek == at,
            final(self).render_width == old(self).render_width,
            final(self).render_height == old(self).render_height,
            final(self).video_path == old(self).video_path,
    {
        self.num_frames_rendered = 0;
        self.last_seek = at;
    }

    /// Whether the rendering rate is due to be sampled: a positive multiple
    /// of `NUM_FRAMES_TO_TRACK_FPS` frames has been delivered since the last seek.
    pub fn fps_sample_due(&self) -> (b: bool)
        ensures
            b == (self.num_frames_rendered > 0 && (self.num_frames_rendered as int) % (NUM_FRAMES_TO_TRACK_FPS as int) == 0),
    {
        self.num_frames_rendered > 0 && self.num_frames_rendered % (NUM_FRAMES_TO_TRACK_FPS as u32) == 0
    }

    /// Turns one frame's decoded bytes into a frame, counting it when it is
    /// one (`data` holds at least a whole frame).
    pub fn take_frame(&mut self, data: Vec<u8>) -> (r: Option<Frame>)
        requires
            Self::size_ok(old(self).render_width, old(self).render_height),
            old(self).num_frames_rendered < u32::MAX,
        ensures
            final(self).num_frames_rendered == old(self).num_frames_rendered + if r is Some { 1int } else { 0int },
            r is Some <==> 3 * old(self).render_width * old(self).render_height <= data@.len(),
            r matches Some(f) ==> f.spec_width() == old(self).render_width && f.spec_height()
                == old(self).render_height && f.spec_data() == data@ && f.wf(),
            final(self).last_seek == old(self).last_seek,
            final(self).render_width == old(self).render_width,
            final(self).render_height == old(self).render_height,
            final(self).video_path == old(self).video_path,
    {
        let r = Frame::from_raw(self.render_width as u32, self.render_height as u32, data);
        if r.is_some() {
            self.num_frames_rendered = self.num_frames_rendered + 1;
        }
        r
    }
}

} // verus!
