//! Event handling: how each key and terminal event changes the editor state,
//! and which effects (seeking, audio control, frame reads) it asks the
//! caller to perform.
use vstd::prelude::*;
use crate::audio::clamp_volume;
use crate::model::{
    count_le, count_lt, elapsed_units, frame_at, frame_at_micros, frame_len_units, frames_for_seconds,
    frames_in_seconds, included_spec, lemma_count_le, lemma_count_lt, lemma_count_lt_unique,
    max_frame, next_included_spec, sat_i32, sat_u32, speed_at, speed_quarters, strictly_sorted,
    total_frames, DisplayMode, HoverMode, Hovering, Model, ModelView, NUM_SPEEDS,
};
use crate::view::{calculate_render_size, render_size_spec};

verus! {

/// A point of the video to seek to.
#[derive(Clone, Copy, PartialEq, Eq, Structural, Debug)]
pub enum SeekPoint {
    /// The start of a frame.
    Frame(u32),
    /// A time in microseconds from the start.
    Micros(u64),
}

/// Work that only the caller can do (decoder, audio device, clock), in the
/// order it must be done.
#[derive(Clone, Copy, PartialEq, Eq, Structural, Debug)]
pub enum Effect {
    /// Pause audio output.
    PauseAudio,
    /// Apply a playback volume (percent) to the audio output.
    SetVolume(u32),
    /// Apply a playback speed (quarters of normal speed) to the audio output.
    SetSpeed(u32),
    /// Restart video decoding and audio at a point, audio paused or playing;
    /// the frame decoded there becomes the current frame, and the playback
    /// clock restarts.
    Seek { to: SeekPoint, paused: bool },
    /// Change the decoder's output size.
    Resize { width: i32, height: i32 },
    /// Read the next frame; if one is read it becomes the current frame and
    /// `Model::frame_advanced` must be called.
    ReadNextFrame,
}

/// Hover position after the playhead moved forward to `frame`: past every
/// marker strictly before it.
pub open spec fn seg_fwd_spec(markers: Seq<u32>, pos: usize, frame: u32) -> usize {
    let c = count_lt(markers, frame as int);
    if pos >= c {
        pos
    } else {
        c as usize
    }
}

/// Hover position after the playhead moved back to `frame`: before every
/// marker strictly after it.
pub open spec fn seg_back_spec(markers: Seq<u32>, pos: usize, frame: u32) -> usize {
    let c = count_le(markers, frame as int);
    if pos <= c {
        pos
    } else {
        c as usize
    }
}

/// State and effects after a seek: the drift accumulator restarts.
pub open spec fn seek_spec(s: ModelView, to: SeekPoint) -> (ModelView, Seq<Effect>) {
    (ModelView { drift: 0, ..s }, seq![Effect::Seek { to, paused: s.paused }])
}

/// Toggling the marker under the playhead: a marker on the current frame is
/// removed and its two segments merge (keeping the first one's flag);
/// otherwise a marker is added there, splitting its segment into two with
/// the same flag.
pub open spec fn toggle_marker_spec(s: ModelView) -> ModelView {
    let p = count_lt(s.markers, s.frame as int) as int;
    if p < s.markers.len() && s.markers[p] == s.frame {
        ModelView {
            markers: s.markers.remove(p),
            segments: s.segments.remove(p + 1),
            hover: Hovering { mode: HoverMode::Segments, position: p as usize },
            needs_to_clear: true,
            ..s
        }
    } else {
        let markers = s.markers.insert(p, s.frame);
        ModelView {
            markers,
            segments: s.segments.insert(p, included_spec(s.segments, p)),
            hover: Hovering {
                mode: HoverMode::Segments,
                position: seg_fwd_spec(markers, s.hover.position, s.frame),
            },
            needs_to_clear: true,
            ..s
        }
    }
}

/// Toggling the hovered segment's inclusion. If playback is running inside
/// the segment just excluded, it jumps to the next included segment, or stops
/// when there is none.
pub open spec fn toggle_segment_spec(s: ModelView) -> (ModelView, Seq<Effect>) {
    let p = s.hover.position as int;
    let s1 = ModelView { hover: Hovering { mode: HoverMode::Segments, ..s.hover }, ..s };
    if p < s.segments.len() {
        let segs = s.segments.update(p, !s.segments[p]);
        let s2 = ModelView { segments: segs, needs_to_clear: true, ..s1 };
        if !s.paused && s.segments[p] && s.segment_at(s.frame as int) == p {
            match next_included_spec(s.markers, segs, p) {
                Some((_, start)) => seek_spec(s2, SeekPoint::Frame(start)),
                None => (ModelView { paused: true, ..s2 }, seq![Effect::PauseAudio]),
            }
        } else {
            (s2, Seq::empty())
        }
    } else {
        (s1, Seq::empty())
    }
}

/// Removing the marker at index `p` keeps a sequence sorted.
proof fn lemma_sorted_remove(s: Seq<u32>, p: int)
    requires
        strictly_sorted(s),
        0 <= p < s.len(),
    ensures
        strictly_sorted(s.remove(p)),
{
    let r = s.remove(p);
    assert forall|i: int, j: int| 0 <= i < j < r.len() implies r[i] < r[j] by {
        let a = if i < p { i } else { i + 1 };
        let b = if j < p { j } else { j + 1 };
        assert(r[i] == s[a] && r[j] == s[b]);
    }
}

/// Inserting a new frame at its `count_lt` position keeps a sequence sorted.
proof fn lemma_sorted_insert(s: Seq<u32>, f: u32)
    requires
        strictly_sorted(s),
        !(count_lt(s, f as int) < s.len() && s[count_lt(s, f as int) as int] == f),
    ensures
        count_lt(s, f as int) <= s.len(),
        strictly_sorted(s.insert(count_lt(s, f as int) as int, f)),
{
    lemma_count_lt(s, f as int);
    let p = count_lt(s, f as int) as int;
    let r = s.insert(p, f);
    assert forall|i: int, j: int| 0 <= i < j < r.len() implies r[i] < r[j] by {
        if i < p && j < p {
            assert(r[i] == s[i] && r[j] == s[j]);
        } else if i < p && j == p {
            assert(r[i] == s[i]);
        } else if i < p {
            assert(r[i] == s[i] && r[j] == s[j - 1]);
        } else if i == p {
            assert(r[j] == s[j - 1]);
            assert(s[p] >= f);
            if j - 1 > p {
                assert(s[p] < s[j - 1]);
            }
        } else {
            assert(r[i] == s[i - 1] && r[j] == s[j - 1]);
        }
    }
}

impl Model {
    /// Advances the hovered segment past markers the playhead has passed.
    pub fn update_segment_fwd(&mut self)
        requires
            old(self)@.wf(),
        ensures
            final(self)@ == (ModelView {
                hover: Hovering {
                    position: seg_fwd_spec(old(self)@.markers, old(self)@.hover.position, old(self)@.frame),
                    ..old(self)@.hover
                },
                ..old(self)@
            }),
            final(self)@.wf(),
            final(self).current_frame == old(self).current_frame,
            final(self).terminal_state == old(self).terminal_state,
    {
        let frame = self.frame_number;
        let n = self.markers.len();
        let ghost pos0 = self.hovered_item.position;
        let mut pos = self.hovered_item.position;
        proof {
            lemma_count_lt(self.markers@, frame as int);
        }
        while pos < n && frame > self.markers[pos]
            invariant
                n == self.markers@.len(),
                pos0 <= pos <= n,
                strictly_sorted(self.markers@),
                forall|k: int| pos0 <= k < pos ==> self.markers@[k] < frame,
                count_lt(self.markers@, frame as int) <= n,
                forall|i: int|
                    count_lt(self.markers@, frame as int) <= i < n ==> self.markers@[i] >= frame,
                pos0 >= count_lt(self.markers@, frame as int) ==> pos == pos0,
            decreases n - pos,
        {
            pos = pos + 1;
        }
        proof {
            let c = count_lt(self.markers@, frame as int) as int;
            lemma_count_lt(self.markers@, frame as int);
            if pos0 < c {
                if pos < c {
                    assert(self.markers@[pos as int] < frame);
                }
                if pos > c {
                    assert(self.markers@[c] < frame);
                }
            }
        }
        self.hovered_item.position = pos;
    }

    /// Moves the hovered segment back before markers the playhead is now before.
    pub fn update_segment_back(&mut self)
        requires
            old(self)@.wf(),
        ensures
            final(self)@ == (ModelView {
                hover: Hovering {
                    position: seg_back_spec(old(self)@.markers, old(self)@.hover.position, old(self)@.frame),
                    ..old(self)@.hover
                },
                ..old(self)@
            }),
            final(self)@.wf(),
            final(self).current_frame == old(self).current_frame,
            final(self).terminal_state == old(self).terminal_state,
    {
        let frame = self.frame_number;
        let ghost pos0 = self.hovered_item.position;
        let mut pos = self.hovered_item.position;
        proof {
            lemma_count_le(self.markers@, frame as int);
        }
        while pos > 0 && frame < self.markers[pos - 1]
            invariant
                pos <= pos0 <= self.markers@.len(),
                strictly_sorted(self.markers@),
                forall|k: int| pos <= k < pos0 ==> self.markers@[k] > frame,
                count_le(self.markers@, frame as int) <= self.markers@.len(),
                forall|i: int|
                    0 <= i < count_le(self.markers@, frame as int) ==> self.markers@[i] <= frame,
                pos0 <= count_le(self.markers@, frame as int) ==> pos == pos0,
            decreases pos,
        {
            pos = pos - 1;
        }
        proof {
            let c = count_le(self.markers@, frame as int) as int;
            if pos0 > c {
                if pos > c {
                    assert(self.markers@[pos - 1] <= frame);
                }
                if pos < c {
                    assert(self.markers@[pos as int] > frame);
                }
            }
        }
        self.hovered_item.position = pos;
    }

    /// Restarts decoding and audio at `to`, resetting the drift accumulator.
    pub fn seek_to(&mut self, to: SeekPoint, effects: &mut Vec<Effect>)
        ensures
            final(self)@ == seek_spec(old(self)@, to).0,
            final(effects)@ == old(effects)@ + seek_spec(old(self)@, to).1,
            final(self).current_frame == old(self).current_frame,
            final(self).terminal_state == old(self).terminal_state,
    {
        self.accumulated_time = 0;
        effects.push(Effect::Seek { to, paused: self.paused });
    }

    /// Returns `count_lt(markers, frame)`: where a marker on `frame` sits or would go.
    fn marker_slot(&self, frame: u32) -> (p: usize)
        requires
            strictly_sorted(self.markers@),
        ensures
            p == count_lt(self.markers@, frame as int),
            p <= self.markers@.len(),
    {
        let n = self.markers.len();
        let mut i: usize = 0;
        while i < n && self.markers[i] < frame
            invariant
                n == self.markers@.len(),
                i <= n,
                forall|k: int| 0 <= k < i ==> self.markers@[k] < frame,
            decreases n - i,
        {
            i = i + 1;
        }
        proof {
            lemma_count_lt(self.markers@, frame as int);
            lemma_count_lt_unique(self.markers@, frame as int, i as int);
        }
        i
    }

    /// Removes the marker at index `p`, merging its two segments into the first.
    fn remove_marker(&mut self, p: usize)
        requires
            old(self)@.wf(),
            p < old(self)@.markers.len(),
        ensures
            final(self)@ == (ModelView {
                markers: old(self)@.markers.remove(p as int),
                segments: old(self)@.segments.remove(p + 1),
                hover: Hovering { mode: HoverMode::Segments, position: p },
                ..old(self)@
            }),
            final(self)@.wf(),
            final(self).current_frame == old(self).current_frame,
            final(self).terminal_state == old(self).terminal_state,
    {
        proof {
            lemma_sorted_remove(self.markers@, p as int);
        }
        let n = self.segments_included.len();
        assert(p + 1 < n);
        self.markers.remove(p);
        self.segments_included.remove(p + 1);
        self.hovered_item = Hovering { mode: HoverMode::Segments, position: p };
    }

    /// Inserts a marker on `frame` at its slot `p`, splitting segment `p` in two.
    #[verifier::rlimit(25)]
    fn insert_marker(&mut self, p: usize, frame: u32)
        requires
            old(self)@.wf(),
            p == count_lt(old(self)@.markers, frame as int),
            !(p < old(self)@.markers.len() && old(self)@.markers[p as int] == frame),
            frame == old(self)@.frame,
        ensures
            final(self)@ == (ModelView {
                markers: old(self)@.markers.insert(p as int, frame),
                segments: old(self)@.segments.insert(p as int, included_spec(old(self)@.segments, p as int)),
                hover: Hovering {
                    mode: HoverMode::Segments,
                    position: seg_fwd_spec(old(self)@.markers.insert(p as int, frame), old(self)@.hover.position, frame),
                },
                ..old(self)@
            }),
            final(self)@.wf(),
            final(self).current_frame == old(self).current_frame,
            final(self).terminal_state == old(self).terminal_state,
    {
        proof {
            lemma_sorted_insert(self.markers@, frame);
        }
        let status = self.is_segment_included(p);
        self.markers.insert(p, frame);
        self.segments_included.insert(p, status);
        assert(self@.wf()) by {
            assert(self.segments_included.len() == self.markers@.len() + 1);
        }
        self.update_segment_fwd();
        self.hovered_item.mode = HoverMode::Segments;
    }

    /// Toggles a split marker at the current frame (see `toggle_marker_spec`).
    #[verifier::rlimit(30)]
    pub fn toggle_marker(&mut self)
        requires
            old(self)@.wf(),
        ensures
            final(self)@ == toggle_marker_spec(old(self)@),
            final(self)@.wf(),
            final(self).current_frame == old(self).current_frame,
            final(self).terminal_state == old(self).terminal_state,
    {
        let frame = self.frame_number;
        let p = self.marker_slot(frame);
        if p < self.markers.len() && self.markers[p] == frame {
            self.remove_marker(p);
        } else {
            self.insert_marker(p, frame);
        }
        self.needs_to_clear = true;
    }

    /// Toggles inclusion of the hovered segment (see `toggle_segment_spec`).
    pub fn toggle_segment(&mut self, effects: &mut Vec<Effect>)
        requires
            old(self)@.wf(),
        ensures
            final(self)@ == toggle_segment_spec(old(self)@).0,
            final(effects)@ == old(effects)@ + toggle_segment_spec(old(self)@).1,
            final(self)@.wf(),
            final(self).current_frame == old(self).current_frame,
            final(self).terminal_state == old(self).terminal_state,
    {
        self.hovered_item.mode = HoverMode::Segments;
        let seg_idx = self.hovered_item.position;
        if seg_idx < self.segments_included.len() {
            let was = self.segments_included[seg_idx];
            self.segments_included.set(seg_idx, !was);
            self.needs_to_clear = true;
            if !self.paused && was {
                let cur = self.segment_at_frame(self.frame_number);
                if cur == seg_idx {
                    match self.find_next_included_segment_start(seg_idx) {
                        Some((_next_seg, start)) => {
                            self.seek_to(SeekPoint::Frame(start), effects);
                        },
                        None => {
                            self.paused = true;
                            effects.push(Effect::PauseAudio);
                        },
                    }
                    return;
                }
            }
        }
        proof {
            assert(old(effects)@ + Seq::<Effect>::empty() =~= old(effects)@);
        }
    }
}

} // verus!

verus! {

/// Seeking by a signed number of seconds: the playhead moves by the
/// rounded frame count, clamped to `0..=max_frame`, and the hovered segment
/// follows it.
pub open spec fn seek_by_seconds_spec(s: ModelView, seconds: int) -> (ModelView, Seq<Effect>) {
    let fts = sat_i32(frames_for_seconds(s.meta, seconds));
    let nf0 = s.frame + fts;
    let nf1 = if nf0 < 0 { 0 } else { nf0 };
    let mf = max_frame(s.meta) as int;
    let nf = (if nf1 < mf { nf1 } else { mf }) as u32;
    let (s2, e) = seek_spec(ModelView { frame: nf, ..s }, SeekPoint::Frame(nf));
    let pos = if fts > 0 {
        seg_fwd_spec(s.markers, s.hover.position, nf)
    } else {
        seg_back_spec(s.markers, s.hover.position, nf)
    };
    (ModelView { hover: Hovering { mode: HoverMode::Segments, position: pos }, ..s2 }, e)
}

/// Stepping one frame: forward asks for the next frame to be read (see
/// `frame_advanced_spec`); backward moves the playhead one frame back (not
/// below 0) and seeks there.
pub open spec fn advance_spec(s: ModelView, direction: i32) -> (ModelView, Seq<Effect>) {
    if direction > 0 {
        (s, seq![Effect::ReadNextFrame])
    } else if direction < 0 {
        let nf: u32 = if s.frame > 0 { (s.frame - 1) as u32 } else { 0 };
        let (s2, e) = seek_spec(ModelView { frame: nf, ..s }, SeekPoint::Frame(nf));
        (
            ModelView {
                hover: Hovering {
                    mode: HoverMode::Segments,
                    position: seg_back_spec(s.markers, s.hover.position, nf),
                },
                ..s2
            },
            e,
        )
    } else {
        (s, Seq::empty())
    }
}

/// After a forward step read a frame: the playhead moves one frame on, not
/// past the last frame, and the hovered segment follows it.
pub open spec fn frame_advanced_spec(s: ModelView) -> ModelView {
    let mf = max_frame(s.meta);
    let nf: u32 = if s.frame + 1 < mf { (s.frame + 1) as u32 } else { mf };
    ModelView {
        frame: nf,
        hover: Hovering {
            mode: HoverMode::Segments,
            position: seg_fwd_spec(s.markers, s.hover.position, nf),
        },
        ..s
    }
}

/// Clamps a non-negative integer into `u64`'s range.
pub open spec fn sat_u64(x: int) -> u64 {
    if x > u64::MAX { u64::MAX } else { x as u64 }
}

/// Jumping to `pct` percent of the duration (past the end for more than
/// 100%; a seek time beyond `u64::MAX` microseconds saturates).
pub open spec fn skip_to_spec(s: ModelView, pct: u32) -> (ModelView, Seq<Effect>) {
    let nf = sat_u32(
        (s.meta.duration_us * pct * s.meta.fps_num) / (100 * s.meta.fps_den * 1_000_000int),
    );
    let us = sat_u64((s.meta.duration_us * pct) / 100);
    let (s2, e) = seek_spec(ModelView { frame: nf, ..s }, SeekPoint::Micros(us));
    let pos = if nf > s.frame {
        seg_fwd_spec(s.markers, s.hover.position, nf)
    } else {
        seg_back_spec(s.markers, s.hover.position, nf)
    };
    (ModelView { hover: Hovering { mode: HoverMode::Segments, position: pos }, ..s2 }, e)
}

/// Jumping to the marker before the hovered item, or to the start when the
/// first segment is hovered; playback pauses.
pub open spec fn nav_marker_prev_spec(s: ModelView) -> (ModelView, Seq<Effect>) {
    if s.hover.position == 0 {
        let (s2, e) = seek_spec(ModelView { frame: 0, paused: true, ..s }, SeekPoint::Frame(0));
        (ModelView { hover: Hovering { mode: HoverMode::Segments, position: 0 }, ..s2 }, e)
    } else {
        let p = (s.hover.position - 1) as usize;
        let f = s.markers[p as int];
        let (s2, e) = seek_spec(
            ModelView { hover: Hovering { mode: HoverMode::Markers, position: p }, frame: f, paused: true, ..s },
            SeekPoint::Frame(f),
        );
        (s2, e)
    }
}

/// Jumping to the marker that starts the next segment, or to the end of the
/// video from the last segment; playback pauses.
pub open spec fn nav_marker_next_spec(s: ModelView) -> (ModelView, Seq<Effect>) {
    let n = s.markers.len();
    let target: int = if s.hover.mode == HoverMode::Markers {
        if s.hover.position < usize::MAX { s.hover.position + 1 } else { usize::MAX as int }
    } else {
        s.hover.position as int
    };
    if target >= n {
        let f = frame_at_micros(s.meta, s.meta.duration_us as int);
        let (s2, e) = seek_spec(ModelView { frame: f, paused: true, ..s }, SeekPoint::Micros(s.meta.duration_us));
        (ModelView { hover: Hovering { mode: HoverMode::Segments, position: n as usize }, ..s2 }, e)
    } else {
        let f = s.markers[target];
        seek_spec(
            ModelView {
                hover: Hovering { mode: HoverMode::Markers, position: target as usize },
                frame: f,
                paused: true,
                ..s
            },
            SeekPoint::Frame(f),
        )
    }
}

/// Moving one speed preset up or down (staying within the presets); a
/// running playback restarts at the current frame.
pub open spec fn adjust_speed_spec(s: ModelView, increase: bool) -> (ModelView, Seq<Effect>) {
    let idx: usize = if increase {
        if s.speed_index + 1 < NUM_SPEEDS { (s.speed_index + 1) as usize } else { (NUM_SPEEDS - 1) as usize }
    } else {
        if s.speed_index > 0 { (s.speed_index - 1) as usize } else { 0 }
    };
    let s1 = ModelView { speed_index: idx, ..s };
    let e1 = seq![Effect::SetSpeed(speed_quarters(idx as int))];
    if !s.paused {
        let (s2, e2) = seek_spec(s1, SeekPoint::Frame(s.frame));
        (s2, e1 + e2)
    } else {
        (s1, e1)
    }
}

/// Play/pause. Resuming inside an excluded segment jumps to the next
/// included one, or stays paused when there is none.
pub open spec fn toggle_play_spec(s: ModelView) -> (ModelView, Seq<Effect>) {
    if !s.paused {
        (ModelView { paused: true, ..s }, seq![Effect::PauseAudio])
    } else {
        let s1 = ModelView { paused: false, hover: Hovering { mode: HoverMode::Segments, ..s.hover }, ..s };
        let seg = s.segment_at(s.frame as int) as int;
        if !included_spec(s.segments, seg) {
            match next_included_spec(s.markers, s.segments, seg) {
                Some((_, start)) => seek_spec(s1, SeekPoint::Frame(start)),
                None => (ModelView { paused: true, ..s1 }, seq![Effect::PauseAudio]),
            }
        } else {
            seek_spec(s1, SeekPoint::Frame(s.frame))
        }
    }
}

/// Changing the playback volume by `delta` percent, clamped to `0..=200`.
pub open spec fn volume_spec(s: ModelView, delta: int) -> (ModelView, Seq<Effect>) {
    let v = clamp_volume(s.volume + delta);
    (ModelView { volume: v, ..s }, seq![Effect::SetVolume(v)])
}

/// The other display mode.
pub open spec fn other_mode(m: DisplayMode) -> DisplayMode {
    match m {
        DisplayMode::LowResBlock => DisplayMode::HighResPixel,
        DisplayMode::HighResPixel => DisplayMode::LowResBlock,
    }
}

/// Switching display mode when high-resolution output is available; the
/// decoder is resized for the new mode.
pub open spec fn toggle_res_spec(s: ModelView) -> (ModelView, Seq<Effect>) {
    if s.high_res_available {
        let mode = other_mode(s.display_mode);
        let (w, h) = render_size_spec(s.cols, s.rows, s.meta, mode);
        (ModelView { display_mode: mode, needs_to_clear: true, ..s }, seq![Effect::Resize { width: w, height: h }])
    } else {
        (s, Seq::empty())
    }
}

/// A terminal resize: the new size is stored, the decoder is resized and
/// restarted at the current frame.
pub open spec fn resize_spec(s: ModelView, cols: u16, rows: u16) -> (ModelView, Seq<Effect>) {
    let s1 = ModelView { cols, rows, needs_to_clear: true, ..s };
    let (w, h) = render_size_spec(cols, rows, s.meta, s.display_mode);
    let (s2, e2) = seek_spec(s1, SeekPoint::Frame(s.frame));
    (s2, seq![Effect::Resize { width: w, height: h }] + e2)
}

/// The frame and the microsecond at `pct` percent of the duration.
fn percent_point(meta: &crate::model::VideoMetadata, pct: u32) -> (r: (u32, u64))
    requires
        meta.wf(),
    ensures
        r.0 == sat_u32((meta.duration_us * pct * meta.fps_num) / (100 * meta.fps_den * 1_000_000int)),
        r.1 == sat_u64((meta.duration_us * pct) / 100),
{
    let d = meta.duration_us as u128;
    let pc = pct as u128;
    assert(d * pc <= 0xffff_ffff_ffff_ffffu128 * 0xffff_ffffu128) by (nonlinear_arith)
        requires d <= 0xffff_ffff_ffff_ffffu128, pc <= 0xffff_ffffu128;
    let x: u128 = d * pc;
    let us: u128 = x / 100;
    let us64: u64 = if us > u64::MAX as u128 { u64::MAX } else { us as u64 };
    let num = meta.fps_num as u128;
    let b: u128 = 100 * (meta.fps_den as u128) * 1_000_000;
    assert(b > 0 && b <= 100 * 0xffff_ffffu128 * 1_000_000);
    let nf: u32 = if x > u128::MAX / num {
        assert(x * num > u128::MAX) by (nonlinear_arith)
            requires x > u128::MAX / num, num > 0;
        assert((x * num) / (b as int) > u32::MAX) by (nonlinear_arith)
            requires x * num > u128::MAX, b > 0, b <= 100 * 0xffff_ffffu128 * 1_000_000;
        u32::MAX
    } else {
        assert(x * num <= u128::MAX) by (nonlinear_arith)
            requires x <= u128::MAX / num, num > 0;
        let q: u128 = (x * num) / b;
        if q > u32::MAX as u128 { u32::MAX } else { q as u32 }
    };
    (nf, us64)
}

impl Model {
    /// Seeks the playhead by `seconds` (see `seek_by_seconds_spec`).
    #[verifier::rlimit(20)]
    pub fn seek_by_seconds(&mut self, seconds: i64, effects: &mut Vec<Effect>)
        requires
            old(self)@.wf(),
        ensures
            final(self)@ == seek_by_seconds_spec(old(self)@, seconds as int).0,
            final(effects)@ == old(effects)@ + seek_by_seconds_spec(old(self)@, seconds as int).1,
            final(self)@.wf(),
            final(self).current_frame == old(self).current_frame,
            final(self).terminal_state == old(self).terminal_state,
    {
        let mf = total_frames(&self.video_metadata);
        let fts = frames_in_seconds(&self.video_metadata, seconds);
        let nf0: i64 = self.frame_number as i64 + fts as i64;
        let nf1: i64 = if nf0 < 0 { 0 } else { nf0 };
        let nf: u32 = if nf1 < mf as i64 { nf1 as u32 } else { mf };
        self.frame_number = nf;
        self.seek_to(SeekPoint::Frame(nf), effects);
        if fts > 0 {
            self.update_segment_fwd();
        } else {
            self.update_segment_back();
        }
        self.hovered_item.mode = HoverMode::Segments;
    }

    /// Steps one frame forward or back (see `advance_spec`).
    pub fn advance(&mut self, direction: i32, effects: &mut Vec<Effect>)
        requires
            old(self)@.wf(),
        ensures
            final(self)@ == advance_spec(old(self)@, direction).0,
            final(effects)@ == old(effects)@ + advance_spec(old(self)@, direction).1,
            final(self)@.wf(),
            final(self).current_frame == old(self).current_frame,
            final(self).terminal_state == old(self).terminal_state,
    {
        if direction > 0 {
            effects.push(Effect::ReadNextFrame);
        } else if direction < 0 {
            self.frame_number = self.frame_number.saturating_sub(1);
            let f = self.frame_number;
            self.seek_to(SeekPoint::Frame(f), effects);
            self.update_segment_back();
            self.hovered_item.mode = HoverMode::Segments;
        } else {
            proof {
                assert(old(effects)@ + Seq::<Effect>::empty() =~= old(effects)@);
            }
        }
    }

    /// Records that a forward step read the next frame (see `frame_advanced_spec`).
    pub fn frame_advanced(&mut self)
        requires
            old(self)@.wf(),
            old(self).frame_number < u32::MAX,
        ensures
            final(self)@ == frame_advanced_spec(old(self)@),
            final(self)@.wf(),
            final(self).current_frame == old(self).current_frame,
            final(self).terminal_state == old(self).terminal_state,
    {
        let mf = total_frames(&self.video_metadata);
        let next = self.frame_number + 1;
        self.frame_number = if next < mf { next } else { mf };
        self.update_segment_fwd();
        self.hovered_item.mode = HoverMode::Segments;
    }

    /// Jumps to `pct` percent of the video (see `skip_to_spec`).
    #[verifier::rlimit(30)]
    pub fn skip_to(&mut self, pct: u32, effects: &mut Vec<Effect>)
        requires
            old(self)@.wf(),
        ensures
            final(self)@ == skip_to_spec(old(self)@, pct).0,
            final(effects)@ == old(effects)@ + skip_to_spec(old(self)@, pct).1,
            final(self)@.wf(),
            final(self).current_frame == old(self).current_frame,
            final(self).terminal_state == old(self).terminal_state,
    {
        let (nf, us) = percent_point(&self.video_metadata, pct);
        let old_frame = self.frame_number;
        self.frame_number = nf;
        self.seek_to(SeekPoint::Micros(us), effects);
        if nf > old_frame {
            self.update_segment_fwd();
        } else {
            self.update_segment_back();
        }
        self.hovered_item.mode = HoverMode::Segments;
    }

    /// Jumps to the previous marker or the start (see `nav_marker_prev_spec`).
    pub fn nav_marker_prev(&mut self, effects: &mut Vec<Effect>)
        requires
            old(self)@.wf(),
        ensures
            final(self)@ == nav_marker_prev_spec(old(self)@).0,
            final(effects)@ == old(effects)@ + nav_marker_prev_spec(old(self)@).1,
            final(self)@.wf(),
            final(self).current_frame == old(self).current_frame,
            final(self).terminal_state == old(self).terminal_state,
    {
        if self.hovered_item.position == 0 {
            self.frame_number = 0;
            self.paused = true;
            self.seek_to(SeekPoint::Frame(0), effects);
            self.hovered_item = Hovering { mode: HoverMode::Segments, position: 0 };
            return;
        }
        let pos = self.hovered_item.position - 1;
        self.hovered_item = Hovering { mode: HoverMode::Markers, position: pos };
        let f = self.markers[pos];
        self.frame_number = f;
        self.paused = true;
        self.seek_to(SeekPoint::Frame(f), effects);
    }

    /// Jumps to the next marker or the end (see `nav_marker_next_spec`).
    pub fn nav_marker_next(&mut self, effects: &mut Vec<Effect>)
        requires
            old(self)@.wf(),
        ensures
            final(self)@ == nav_marker_next_spec(old(self)@).0,
            final(effects)@ == old(effects)@ + nav_marker_next_spec(old(self)@).1,
            final(self)@.wf(),
            final(self).current_frame == old(self).current_frame,
            final(self).terminal_state == old(self).terminal_state,
    {
        let num_markers = self.markers.len();
        let current_pos = self.hovered_item.position;
        let target_index = match self.hovered_item.mode {
            HoverMode::Markers => current_pos.saturating_add(1),
            HoverMode::Segments => current_pos,
        };
        if target_index >= num_markers {
            let dur = self.video_metadata.duration_us;
            self.frame_number = frame_at(&self.video_metadata, dur as u128);
            self.paused = true;
            self.seek_to(SeekPoint::Micros(dur), effects);
            self.hovered_item.position = num_markers;
            self.hovered_item.mode = HoverMode::Segments;
            return;
        }
        self.hovered_item = Hovering { mode: HoverMode::Markers, position: target_index };
        let f = self.markers[target_index];
        self.frame_number = f;
        self.paused = true;
        self.seek_to(SeekPoint::Frame(f), effects);
    }

    /// Moves one speed preset up or down (see `adjust_speed_spec`).
    pub fn adjust_speed(&mut self, increase: bool, effects: &mut Vec<Effect>)
        requires
            old(self)@.wf(),
        ensures
            final(self)@ == adjust_speed_spec(old(self)@, increase).0,
            final(effects)@ == old(effects)@ + adjust_speed_spec(old(self)@, increase).1,
            final(self)@.wf(),
            final(self).current_frame == old(self).current_frame,
            final(self).terminal_state == old(self).terminal_state,
    {
        let idx = self.speed_index;
        let new_idx = if increase {
            if idx + 1 < NUM_SPEEDS { idx + 1 } else { NUM_SPEEDS - 1 }
        } else {
            idx.saturating_sub(1)
        };
        self.speed_index = new_idx;
        effects.push(Effect::SetSpeed(speed_at(new_idx)));
        if !self.paused {
            let f = self.frame_number;
            self.seek_to(SeekPoint::Frame(f), effects);
        }
        proof {
            assert(final(effects)@ =~= old(effects)@ + adjust_speed_spec(old(self)@, increase).1);
        }
    }

    /// Toggles playback (see `toggle_play_spec`).
    pub fn toggle_play(&mut self, effects: &mut Vec<Effect>)
        requires
            old(self)@.wf(),
        ensures
            final(self)@ == toggle_play_spec(old(self)@).0,
            final(effects)@ == old(effects)@ + toggle_play_spec(old(self)@).1,
            final(self)@.wf(),
            final(self).current_frame == old(self).current_frame,
            final(self).terminal_state == old(self).terminal_state,
    {
        self.paused = !self.paused;
        if self.paused {
            effects.push(Effect::PauseAudio);
        } else {
            self.hovered_item.mode = HoverMode::Segments;
            let f = self.frame_number;
            let seg = self.segment_at_frame(f);
            if !self.is_segment_included(seg) {
                match self.find_next_included_segment_start(seg) {
                    Some((_next_seg, start)) => self.seek_to(SeekPoint::Frame(start), effects),
                    None => {
                        self.paused = true;
                        effects.push(Effect::PauseAudio);
                    },
                }
            } else {
                self.seek_to(SeekPoint::Frame(f), effects);
            }
        }
    }

    /// Changes the playback volume by `delta` percent (see `volume_spec`).
    pub fn change_volume(&mut self, delta: i64, effects: &mut Vec<Effect>)
        requires
            old(self)@.wf(),
            -200 <= delta <= 200,
        ensures
            final(self)@ == volume_spec(old(self)@, delta as int).0,
            final(effects)@ == old(effects)@ + volume_spec(old(self)@, delta as int).1,
            final(self)@.wf(),
            final(self).current_frame == old(self).current_frame,
            final(self).terminal_state == old(self).terminal_state,
    {
        let v = self.audio_player.volume as i64 + delta;
        self.audio_player.set_volume(v);
        effects.push(Effect::SetVolume(self.audio_player.volume));
    }

    /// Switches display mode when available (see `toggle_res_spec`).
    pub fn toggle_res(&mut self, effects: &mut Vec<Effect>)
        requires
            old(self)@.wf(),
        ensures
            final(self)@ == toggle_res_spec(old(self)@).0,
            final(effects)@ == old(effects)@ + toggle_res_spec(old(self)@).1,
            final(self)@.wf(),
            final(self).current_frame == old(self).current_frame,
            final(self).terminal_state == old(self).terminal_state,
    {
        if self.high_res_available {
            self.display_mode = match self.display_mode {
                DisplayMode::LowResBlock => DisplayMode::HighResPixel,
                DisplayMode::HighResPixel => DisplayMode::LowResBlock,
            };
            let (w, h) = calculate_render_size(
                self.terminal_cols,
                self.terminal_rows,
                &self.video_metadata,
                self.display_mode,
            );
            effects.push(Effect::Resize { width: w, height: h });
            self.needs_to_clear = true;
        } else {
            proof {
                assert(old(effects)@ + Seq::<Effect>::empty() =~= old(effects)@);
            }
        }
    }

    /// Handles a terminal resize (see `resize_spec`).
    pub fn resize_terminal(&mut self, cols: u16, rows: u16, effects: &mut Vec<Effect>)
        requires
            old(self)@.wf(),
        ensures
            final(self)@ == resize_spec(old(self)@, cols, rows).0,
            final(effects)@ == old(effects)@ + resize_spec(old(self)@, cols, rows).1,
            final(self)@.wf(),
            final(self).current_frame == old(self).current_frame,
            final(self).terminal_state == old(self).terminal_state,
    {
        self.terminal_cols = cols;
        self.terminal_rows = rows;
        self.needs_to_clear = true;
        let (w, h) = calculate_render_size(cols, rows, &self.video_metadata, self.display_mode);
        effects.push(Effect::Resize { width: w, height: h });
        let f = self.frame_number;
        self.seek_to(SeekPoint::Frame(f), effects);
        proof {
            assert(final(effects)@ =~= old(effects)@ + resize_spec(old(self)@, cols, rows).1);
        }
    }
}

} // verus!

verus! {

/// Frames to advance for `us` elapsed microseconds at the current speed,
/// and the new drift: whole frames elapsed, plus one more once the
/// accumulated leftover exceeds a frame.
pub open spec fn calc_frames_spec(s: ModelView, us: int) -> (int, u128) {
    let d = frame_len_units(s.meta, speed_quarters(s.speed_index as int) as int);
    let t = elapsed_units(s.meta, us);
    let n0 = t / d;
    let acc = s.drift + t % d;
    if acc > d {
        (n0 + 1, (acc - d) as u128)
    } else {
        (n0, acc as u128)
    }
}

/// What a playback step decided.
#[derive(Clone, Copy, PartialEq, Eq, Structural, Debug)]
pub enum Playback {
    /// Playback is paused; nothing to do.
    Paused,
    /// Less than a frame has elapsed.
    Waiting,
    /// The target frame lies in an excluded segment: playback jumped (a seek
    /// effect was issued) to the next included segment.
    Jumped,
    /// The target frame lies in an excluded segment and no included segment
    /// follows: playback stopped (audio pause issued).
    Stopped,
    /// Skip `frames` frames in the decoder; on success call
    /// `Model::finish_skip(target, segment)`, otherwise `Model::stop_playback`.
    Skip { frames: u32, target: u32, segment: usize },
    /// The frame counter would pass `u32::MAX`.
    Overflow,
}

/// One playback step after `us` microseconds of wall-clock time.
pub open spec fn playback_spec(s: ModelView, us: int) -> (ModelView, Seq<Effect>, Playback) {
    if s.paused {
        (ModelView { drift: 0, ..s }, Seq::empty(), Playback::Paused)
    } else {
        let (n, dr) = calc_frames_spec(s, us);
        let s1 = ModelView { drift: dr, ..s };
        if n == 0 {
            (s1, Seq::empty(), Playback::Waiting)
        } else if s.frame + n > u32::MAX {
            (s1, Seq::empty(), Playback::Overflow)
        } else {
            let target = (s.frame + n) as u32;
            let seg = s.segment_at(target as int);
            if !included_spec(s.segments, seg as int) {
                match next_included_spec(s.markers, s.segments, seg as int) {
                    Some((_, start)) => {
                        let (s2, e) = seek_spec(s1, SeekPoint::Frame(start));
                        (s2, e, Playback::Jumped)
                    },
                    None => (ModelView { paused: true, ..s1 }, seq![Effect::PauseAudio], Playback::Stopped),
                }
            } else {
                (s1, Seq::empty(), Playback::Skip { frames: n as u32, target, segment: seg as usize })
            }
        }
    }
}

impl Model {
    /// Counts the frames to advance for `elapsed_us` microseconds, tracking
    /// the sub-frame leftover in the drift accumulator (see `calc_frames_spec`).
    pub fn calc_frames(&mut self, elapsed_us: u64) -> (n: u128)
        requires
            old(self)@.wf(),
        ensures
            (n as int, final(self)@.drift) == calc_frames_spec(old(self)@, elapsed_us as int),
            final(self)@ == (ModelView { drift: final(self)@.drift, ..old(self)@ }),
            final(self)@.wf(),
            final(self).current_frame == old(self).current_frame,
            final(self).terminal_state == old(self).terminal_state,
    {
        let q = speed_at(self.speed_index) as u128;
        let den = self.video_metadata.fps_den as u128;
        let num = self.video_metadata.fps_num as u128;
        let per = 480_000_000u128 / q;
        assert(per <= 480_000_000 && per >= 60_000_000);
        assert(den * per <= 0xffff_ffffu128 * 480_000_000) by (nonlinear_arith)
            requires den <= 0xffff_ffffu128, per <= 480_000_000;
        assert(den * per <= den * 480_000_000) by (nonlinear_arith)
            requires per <= 480_000_000;
        assert(den * per > 0) by (nonlinear_arith)
            requires den > 0, per > 0;
        assert(den * 480_000_000 <= 0xffff_ffffu128 * 480_000_000) by (nonlinear_arith)
            requires den <= 0xffff_ffffu128;
        let d: u128 = den * per;
        let u = elapsed_us as u128;
        assert(u * num <= 0xffff_ffff_ffff_ffffu128 * 0xffff_ffffu128) by (nonlinear_arith)
            requires u <= 0xffff_ffff_ffff_ffffu128, num <= 0xffff_ffffu128;
        let t: u128 = u * num * 120;
        let n0 = t / d;
        let acc: u128 = self.accumulated_time + t % d;
        if acc > d {
            self.accumulated_time = acc - d;
            n0 + 1
        } else {
            self.accumulated_time = acc;
            n0
        }
    }

    /// Runs one playback step (see `playback_spec`).
    pub fn advance_playback(&mut self, elapsed_us: u64, effects: &mut Vec<Effect>) -> (r: Playback)
        requires
            old(self)@.wf(),
        ensures
            (final(self)@, final(effects)@.skip(old(effects)@.len() as int), r) == playback_spec(
                old(self)@,
                elapsed_us as int,
            ),
            final(effects)@.take(old(effects)@.len() as int) == old(effects)@,
            final(self)@.wf(),
            final(self).current_frame == old(self).current_frame,
            final(self).terminal_state == old(self).terminal_state,
    {
        let ghost e0 = effects@;
        if self.paused {
            self.accumulated_time = 0;
            proof {
                assert(effects@.skip(e0.len() as int) =~= Seq::<Effect>::empty());
                assert(effects@.take(e0.len() as int) =~= e0);
            }
            return Playback::Paused;
        }
        let n = self.calc_frames(elapsed_us);
        if n == 0 {
            proof {
                assert(effects@.skip(e0.len() as int) =~= Seq::<Effect>::empty());
                assert(effects@.take(e0.len() as int) =~= e0);
            }
            return Playback::Waiting;
        }
        if n > (u32::MAX - self.frame_number) as u128 {
            proof {
                assert(effects@.skip(e0.len() as int) =~= Seq::<Effect>::empty());
                assert(effects@.take(e0.len() as int) =~= e0);
            }
            return Playback::Overflow;
        }
        let target: u32 = self.frame_number + n as u32;
        let seg = self.segment_at_frame(target);
        if !self.is_segment_included(seg) {
            match self.find_next_included_segment_start(seg) {
                Some((_next, start)) => {
                    self.seek_to(SeekPoint::Frame(start), effects);
                    proof {
                        assert(effects@.skip(e0.len() as int) =~= seq![Effect::Seek { to: SeekPoint::Frame(start), paused: false }]);
                        assert(effects@.take(e0.len() as int) =~= e0);
                    }
                    Playback::Jumped
                },
                None => {
                    self.paused = true;
                    effects.push(Effect::PauseAudio);
                    proof {
                        assert(effects@.skip(e0.len() as int) =~= seq![Effect::PauseAudio]);
                        assert(effects@.take(e0.len() as int) =~= e0);
                    }
                    Playback::Stopped
                },
            }
        } else {
            proof {
                assert(effects@.skip(e0.len() as int) =~= Seq::<Effect>::empty());
                assert(effects@.take(e0.len() as int) =~= e0);
            }
            Playback::Skip { frames: n as u32, target, segment: seg }
        }
    }

    /// Records a successful skip: the playhead is on `target`, hovering `segment`.
    pub fn finish_skip(&mut self, target: u32, segment: usize)
        requires
            old(self)@.wf(),
            segment <= old(self)@.markers.len(),
        ensures
            final(self)@ == (ModelView {
                frame: target,
                hover: Hovering { position: segment, ..old(self)@.hover },
                ..old(self)@
            }),
            final(self)@.wf(),
            final(self).current_frame == old(self).current_frame,
            final(self).terminal_state == old(self).terminal_state,
    {
        self.frame_number = target;
        self.hovered_item.position = segment;
    }

    /// Stops playback because the decoder ran out of frames.
    pub fn stop_playback(&mut self, effects: &mut Vec<Effect>)
        requires
            old(self)@.wf(),
        ensures
            final(self)@ == (ModelView { paused: true, ..old(self)@ }),
            final(effects)@ == old(effects)@.push(Effect::PauseAudio),
            final(self)@.wf(),
            final(self).current_frame == old(self).current_frame,
            final(self).terminal_state == old(self).terminal_state,
    {
        self.paused = true;
        effects.push(Effect::PauseAudio);
    }
}

} // verus!

verus! {

/// A key, as far as the editor distinguishes keys.
#[derive(Clone, Copy, PartialEq, Eq, Structural, Debug)]
pub enum KeyCode {
    Char(char),
    Esc,
    Left,
    Right,
    /// No key: a tick of the playback clock.
    Null,
    /// Any other key.
    Other,
}

/// Modifier keys held with a key.
#[derive(Clone, Copy, PartialEq, Eq, Structural, Debug)]
pub struct KeyModifiers {
    pub shift: bool,
    pub control: bool,
    pub alt: bool,
    /// Super, hyper or meta.
    pub other: bool,
}

impl KeyModifiers {
    /// Control alone.
    pub open spec fn control_only(self) -> bool {
        self.control && !self.shift && !self.alt && !self.other
    }

    /// No modifier.
    pub fn none() -> (m: KeyModifiers)
        ensures
            !m.shift && !m.control && !m.alt && !m.other,
    {
        KeyModifiers { shift: false, control: false, alt: false, other: false }
    }
}

/// A key press.
#[derive(Clone, Copy, PartialEq, Eq, Structural, Debug)]
pub struct KeyEvent {
    pub code: KeyCode,
    pub modifiers: KeyModifiers,
}

/// An input event.
#[derive(Clone, Copy, PartialEq, Eq, Structural, Debug)]
pub enum Event {
    Key(KeyEvent),
    /// The terminal now has this many columns and rows.
    Resize(u16, u16),
    /// Any other input.
    Other,
}

/// The result of handling an event.
#[derive(Clone, Copy, PartialEq, Eq, Structural, Debug)]
pub struct Outcome {
    /// Whether the screen must be redrawn.
    pub redraw: bool,
    /// Whether handling is complete: no frame refill or playback step follows.
    pub done: bool,
}

/// The digit a key stands for, if it is one.
pub open spec fn digit_of(c: KeyCode) -> Option<u32> {
    match c {
        KeyCode::Char(ch) => if '0' <= ch <= '9' { Some((ch as u32 - 48) as u32) } else { None },
        _ => None,
    }
}

/// The keymap once no prompt is open and the key is not a quit key.
pub open spec fn command_spec(s: ModelView, k: KeyEvent) -> (ModelView, Seq<Effect>, Outcome) {
    let c = k.code;
    let go = Outcome { redraw: true, done: false };
    if c == KeyCode::Char(' ') {
        let (t, e) = toggle_play_spec(s); (t, e, go)
    } else if c == KeyCode::Char('+') || c == KeyCode::Char('=') {
        let (t, e) = volume_spec(s, 10); (t, e, go)
    } else if c == KeyCode::Char('-') || c == KeyCode::Char('_') {
        let (t, e) = volume_spec(s, -10); (t, e, go)
    } else if (c == KeyCode::Char('<') || c == KeyCode::Char(',')) && k.modifiers.shift {
        let (t, e) = adjust_speed_spec(s, false); (t, e, go)
    } else if (c == KeyCode::Char('>') || c == KeyCode::Char('.')) && k.modifiers.shift {
        let (t, e) = adjust_speed_spec(s, true); (t, e, go)
    } else if c == KeyCode::Char('<') {
        let (t, e) = adjust_speed_spec(s, false); (t, e, go)
    } else if c == KeyCode::Char('>') {
        let (t, e) = adjust_speed_spec(s, true); (t, e, go)
    } else if c == KeyCode::Char('a') {
        (ModelView { export_volume: clamp_volume(s.export_volume + 10), ..s }, Seq::empty(), go)
    } else if c == KeyCode::Char('A') {
        (ModelView { export_volume: clamp_volume(s.export_volume - 10), ..s }, Seq::empty(), go)
    } else if c == KeyCode::Char('?') {
        (ModelView { hide_controls: !s.hide_controls, ..s }, Seq::empty(), go)
    } else if c == KeyCode::Char('r') {
        let (t, e) = toggle_res_spec(s); (t, e, go)
    } else if c == KeyCode::Char('v') {
        (toggle_marker_spec(s), Seq::empty(), go)
    } else if c == KeyCode::Char('t') {
        let (t, e) = toggle_segment_spec(s); (t, e, go)
    } else if c == KeyCode::Char('i') {
        (ModelView { single_output: !s.single_output, needs_to_clear: true, ..s }, Seq::empty(), go)
    } else if c == KeyCode::Char('s') {
        (ModelView { is_saving: true, ..s }, Seq::empty(), Outcome { redraw: true, done: true })
    } else if c == KeyCode::Char('[') {
        let (t, e) = nav_marker_prev_spec(s); (t, e, go)
    } else if c == KeyCode::Char(']') {
        let (t, e) = nav_marker_next_spec(s); (t, e, go)
    } else if c == KeyCode::Char('.') {
        if s.paused { let (t, e) = advance_spec(s, 1i32); (t, e, go) } else { (s, Seq::empty(), go) }
    } else if c == KeyCode::Char(',') {
        if s.paused { let (t, e) = advance_spec(s, -1i32); (t, e, go) } else { (s, Seq::empty(), go) }
    } else if digit_of(c) is Some {
        let (t, e) = skip_to_spec(s, (digit_of(c)->0 * 10) as u32); (t, e, go)
    } else if c == KeyCode::Left || c == KeyCode::Right {
        let mag: int = if k.modifiers.control { 60 } else if k.modifiers.alt { 30 } else { 5 };
        let secs = if c == KeyCode::Left { -mag } else { mag };
        let (t, e) = seek_by_seconds_spec(s, secs); (t, e, go)
    } else {
        (s, Seq::empty(), Outcome { redraw: false, done: false })
    }
}

/// Handling a key: the exit prompt takes `y`/`n` only; a quit key (`q`, Esc,
/// Ctrl-C) opens the prompt and pauses; any other key goes to the keymap.
pub open spec fn key_spec(s: ModelView, k: KeyEvent) -> (ModelView, Seq<Effect>, Outcome) {
    let c = k.code;
    if s.exit_prompt {
        if c == KeyCode::Char('y') || c == KeyCode::Char('Y') {
            (ModelView { should_exit: true, ..s }, Seq::empty(), Outcome { redraw: true, done: true })
        } else if c == KeyCode::Char('n') || c == KeyCode::Char('N') || c == KeyCode::Esc {
            (
                ModelView { exit_prompt: false, needs_to_clear: true, ..s },
                Seq::empty(),
                Outcome { redraw: true, done: true },
            )
        } else {
            (s, Seq::empty(), Outcome { redraw: false, done: true })
        }
    } else if (k.modifiers.control_only() && c == KeyCode::Char('c')) || c == KeyCode::Esc || c
        == KeyCode::Char('q') {
        (
            ModelView { exit_prompt: true, needs_to_clear: true, paused: true, ..s },
            seq![Effect::PauseAudio],
            Outcome { redraw: true, done: true },
        )
    } else {
        command_spec(s, k)
    }
}

/// Handling an input event; the current frame is first remembered as the previous one.
pub open spec fn update_spec(s: ModelView, evt: Event) -> (ModelView, Seq<Effect>, Outcome) {
    let s0 = ModelView { prev_frame: s.frame, ..s };
    match evt {
        Event::Key(k) => key_spec(s0, k),
        Event::Resize(c, r) => {
            let (t, e) = resize_spec(s0, c, r);
            (t, e, Outcome { redraw: true, done: false })
        },
        Event::Other => (s0, Seq::empty(), Outcome { redraw: false, done: false }),
    }
}

/// Keys that change playback or display settings (the first part of the keymap).
pub open spec fn settings_key(k: KeyEvent) -> bool {
    let c = k.code;
    ||| c == KeyCode::Char(' ')
    ||| c == KeyCode::Char('+') || c == KeyCode::Char('=')
    ||| c == KeyCode::Char('-') || c == KeyCode::Char('_')
    ||| (c == KeyCode::Char('<') || c == KeyCode::Char(',')) && k.modifiers.shift
    ||| (c == KeyCode::Char('>') || c == KeyCode::Char('.')) && k.modifiers.shift
    ||| c == KeyCode::Char('<') || c == KeyCode::Char('>')
    ||| c == KeyCode::Char('a') || c == KeyCode::Char('A')
    ||| c == KeyCode::Char('?') || c == KeyCode::Char('r')
}

impl Model {
    /// Handles a settings key (see `command_spec`).
    fn handle_settings_key(&mut self, k: KeyEvent, effects: &mut Vec<Effect>) -> (r: Outcome)
        requires
            old(self)@.wf(),
            settings_key(k),
        ensures
            final(self)@ == command_spec(old(self)@, k).0,
            final(effects)@ == old(effects)@ + command_spec(old(self)@, k).1,
            r == command_spec(old(self)@, k).2,
            final(self)@.wf(),
            final(self).current_frame == old(self).current_frame,
            final(self).terminal_state == old(self).terminal_state,
    {
        let c = k.code;
        let ghost e0 = effects@;
        if c == KeyCode::Char(' ') {
            self.toggle_play(effects);
        } else if c == KeyCode::Char('+') || c == KeyCode::Char('=') {
            self.change_volume(10, effects);
        } else if c == KeyCode::Char('-') || c == KeyCode::Char('_') {
            self.change_volume(-10, effects);
        } else if (c == KeyCode::Char('<') || c == KeyCode::Char(',')) && k.modifiers.shift {
            self.adjust_speed(false, effects);
        } else if (c == KeyCode::Char('>') || c == KeyCode::Char('.')) && k.modifiers.shift {
            self.adjust_speed(true, effects);
        } else if c == KeyCode::Char('<') {
            self.adjust_speed(false, effects);
        } else if c == KeyCode::Char('>') {
            self.adjust_speed(true, effects);
        } else if c == KeyCode::Char('a') {
            let v = self.audio_player.export_volume as i64 + 10;
            self.audio_player.set_export_volume(v);
        } else if c == KeyCode::Char('A') {
            let v = self.audio_player.export_volume as i64 - 10;
            self.audio_player.set_export_volume(v);
        } else if c == KeyCode::Char('?') {
            self.hide_controls = !self.hide_controls;
        } else {
            self.toggle_res(effects);
        }
        proof {
            assert(effects@ =~= e0 + command_spec(old(self)@, k).1);
        }
        Outcome { redraw: true, done: false }
    }

    /// Handles a timeline or navigation key, or an unbound key (see `command_spec`).
    fn handle_timeline_key(&mut self, k: KeyEvent, effects: &mut Vec<Effect>) -> (r: Outcome)
        requires
            old(self)@.wf(),
            !settings_key(k),
        ensures
            final(self)@ == command_spec(old(self)@, k).0,
            final(effects)@ == old(effects)@ + command_spec(old(self)@, k).1,
            r == command_spec(old(self)@, k).2,
            final(self)@.wf(),
            final(self).current_frame == old(self).current_frame,
            final(self).terminal_state == old(self).terminal_state,
    {
        let c = k.code;
        let go = Outcome { redraw: true, done: false };
        let ghost e0 = effects@;
        if c == KeyCode::Char('v') {
            self.toggle_marker();
        } else if c == KeyCode::Char('t') {
            self.toggle_segment(effects);
        } else if c == KeyCode::Char('i') {
            self.single_output = !self.single_output;
            self.needs_to_clear = true;
        } else if c == KeyCode::Char('s') {
            self.is_saving = true;
            proof {
                assert(effects@ =~= e0 + Seq::<Effect>::empty());
            }
            return Outcome { redraw: true, done: true };
        } else if c == KeyCode::Char('[') {
            self.nav_marker_prev(effects);
        } else if c == KeyCode::Char(']') {
            self.nav_marker_next(effects);
        } else if c == KeyCode::Char('.') {
            if self.paused {
                self.advance(1, effects);
            }
        } else if c == KeyCode::Char(',') {
            if self.paused {
                self.advance(-1, effects);
            }
        } else if let KeyCode::Char(ch) = c {
            if '0' <= ch && ch <= '9' {
                let d = ch as u32 - 48;
                self.skip_to(d * 10, effects);
            } else {
                proof {
                    assert(effects@ =~= e0 + Seq::<Effect>::empty());
                }
                return Outcome { redraw: false, done: false };
            }
        } else if c == KeyCode::Left || c == KeyCode::Right {
            let mag: i64 = if k.modifiers.control {
                60
            } else if k.modifiers.alt {
                30
            } else {
                5
            };
            let secs = if c == KeyCode::Left { -mag } else { mag };
            self.seek_by_seconds(secs, effects);
        } else {
            proof {
                assert(effects@ =~= e0 + Seq::<Effect>::empty());
            }
            return Outcome { redraw: false, done: false };
        }
        proof {
            assert(effects@ =~= e0 + command_spec(old(self)@, k).1);
        }
        go
    }

    /// Handles a key once no prompt is open and it is not a quit key (see `command_spec`).
    fn handle_command(&mut self, k: KeyEvent, effects: &mut Vec<Effect>) -> (r: Outcome)
        requires
            old(self)@.wf(),
        ensures
            final(self)@ == command_spec(old(self)@, k).0,
            final(effects)@ == old(effects)@ + command_spec(old(self)@, k).1,
            r == command_spec(old(self)@, k).2,
            final(self)@.wf(),
            final(self).current_frame == old(self).current_frame,
            final(self).terminal_state == old(self).terminal_state,
    {
        let c = k.code;
        let shift = k.modifiers.shift;
        if c == KeyCode::Char(' ') || c == KeyCode::Char('+') || c == KeyCode::Char('=') || c == KeyCode::Char('-')
            || c == KeyCode::Char('_') || ((c == KeyCode::Char('<') || c == KeyCode::Char(',')) && shift)
            || ((c == KeyCode::Char('>') || c == KeyCode::Char('.')) && shift) || c == KeyCode::Char('<')
            || c == KeyCode::Char('>') || c == KeyCode::Char('a') || c == KeyCode::Char('A') || c
            == KeyCode::Char('?') || c == KeyCode::Char('r') {
            self.handle_settings_key(k, effects)
        } else {
            self.handle_timeline_key(k, effects)
        }
    }
}

/// Handles an input event (see `update_spec`). Unless the outcome is
/// `done`, the caller then refills a missing current frame and runs
/// `Model::advance_playback`.
pub fn update(m: &mut Model, evt: Event, effects: &mut Vec<Effect>) -> (r: Outcome)
    requires
        old(m)@.wf(),
    ensures
        final(m)@ == update_spec(old(m)@, evt).0,
        final(effects)@ == old(effects)@ + update_spec(old(m)@, evt).1,
        r == update_spec(old(m)@, evt).2,
        final(m)@.wf(),
        final(m).current_frame == old(m).current_frame,
        final(m).terminal_state == old(m).terminal_state,
{
    let ghost e0 = effects@;
    m.prev_frame_number = m.frame_number;
    match evt {
        Event::Key(k) => {
            let c = k.code;
            if m.exit_prompt {
                proof {
                    assert(effects@ =~= e0 + Seq::<Effect>::empty());
                }
                if c == KeyCode::Char('y') || c == KeyCode::Char('Y') {
                    m.should_exit = true;
                    return Outcome { redraw: true, done: true };
                } else if c == KeyCode::Char('n') || c == KeyCode::Char('N') || c == KeyCode::Esc {
                    m.exit_prompt = false;
                    m.needs_to_clear = true;
                    return Outcome { redraw: true, done: true };
                } else {
                    return Outcome { redraw: false, done: true };
                }
            }
            let md = k.modifiers;
            if (md.control && !md.shift && !md.alt && !md.other && c == KeyCode::Char('c'))
                || c == KeyCode::Esc || c == KeyCode::Char('q') {
                m.exit_prompt = true;
                m.needs_to_clear = true;
                m.paused = true;
                effects.push(Effect::PauseAudio);
                return Outcome { redraw: true, done: true };
            }
            m.handle_command(k, effects)
        },
        Event::Resize(c, r) => {
            m.resize_terminal(c, r, effects);
            Outcome { redraw: true, done: false }
        },
        Event::Other => {
            proof {
                assert(effects@ =~= e0 + Seq::<Effect>::empty());
            }
            Outcome { redraw: false, done: false }
        },
    }
}

} // verus!
