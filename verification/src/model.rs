//! Application state: the timeline of markers and segments, playback
//! position, display settings, and the exact time arithmetic they rest on.
//!
//! Time is held exactly: a frame rate is the rational `fps_num / fps_den`
//! frames per second (as ffprobe reports it), a duration is a whole number
//! of microseconds, and markers are frame indices (a marker is always
//! placed on the frame under the playhead).
use vstd::prelude::*;
use crate::audio::AudioPlayer;
use crate::view::{Frame, TerminalState};

verus! {

/// Number of frames tracked for calculating moving average FPS.
pub const NUM_FRAMES_TO_TRACK_FPS: u8 = 10;

/// Total row height reserved for the UI interface below the video canvas.
pub const UI_HEIGHT: u16 = 8;

/// Relative row offset for the timeline bar within the UI.
pub const TIMELINE_ROW: u16 = 2;

/// Maximum pixel width for high-resolution graphics protocol rendering.
pub const MAX_HR_WIDTH: u32 = 1280;

/// Video display resolution mode.
#[derive(Clone, Copy, PartialEq, Eq, Structural, Debug)]
pub enum DisplayMode {
    /// Low-resolution half-block character rendering.
    LowResBlock,
    /// High-resolution pixel graphics protocol rendering (e.g. Kitty).
    HighResPixel,
}

/// Active selection target type on the timeline.
#[derive(Clone, Copy, PartialEq, Eq, Structural, Debug)]
pub enum HoverMode {
    /// Targeting a split marker.
    Markers,
    /// Targeting a video segment between markers.
    Segments,
}

/// Current hover target and position on the timeline.
#[derive(Clone, Copy, PartialEq, Eq, Structural, Debug)]
pub struct Hovering {
    /// Target mode (marker or segment).
    pub mode: HoverMode,
    /// Zero-based index of the hovered marker or segment.
    pub position: usize,
}

/// Basic metadata properties of the input video file.
#[derive(Clone, Copy, PartialEq, Eq, Structural, Debug)]
pub struct VideoMetadata {
    /// Native pixel width.
    pub width: i32,
    /// Native pixel height.
    pub height: i32,
    /// Frame rate numerator (frames).
    pub fps_num: u32,
    /// Frame rate denominator (seconds).
    pub fps_den: u32,
    /// Total duration in microseconds.
    pub duration_us: u64,
}

/// The largest `k` with `2 * k <= i32::MAX`.
pub open spec fn half_i32_max() -> int {
    1073741823
}

impl VideoMetadata {
    /// Positive dimensions and frame rate, and an aspect ratio for which every
    /// terminal size gives a representable render height.
    pub open spec fn wf(self) -> bool {
        &&& self.width > 0
        &&& self.height > 0
        &&& self.fps_num > 0
        &&& self.fps_den > 0
        &&& (65535 * self.height + self.width) / (2 * self.width as int) <= half_i32_max()
    }

    /// Checks `wf`.
    pub fn is_valid(&self) -> (b: bool)
        ensures
            b == self.wf(),
    {
        if self.width <= 0 || self.height <= 0 || self.fps_num == 0 || self.fps_den == 0 {
            return false;
        }
        let h = self.height as u64;
        let w = self.width as u64;
        (65535 * h + w) / (2 * w) <= 1073741823
    }
}

/// Rounds the non-negative fraction `a / b` to the nearest integer, halves away from zero.
pub open spec fn round_div(a: int, b: int) -> int {
    (2 * a + b) / (2 * b)
}

/// Clamps an integer into `u32`'s range (the float-to-integer cast).
pub open spec fn sat_u32(x: int) -> u32 {
    if x < 0 {
        0
    } else if x > u32::MAX {
        u32::MAX
    } else {
        x as u32
    }
}

/// Number of the frame shown at `us` microseconds: `floor(us * fps)`, saturated.
pub open spec fn frame_at_micros(meta: VideoMetadata, us: int) -> u32 {
    sat_u32((us * meta.fps_num) / (meta.fps_den * 1_000_000))
}

/// Total number of frames: the duration times the frame rate, rounded.
pub open spec fn max_frame(meta: VideoMetadata) -> u32 {
    sat_u32(round_div(meta.duration_us * meta.fps_num, meta.fps_den * 1_000_000))
}

/// Whole seconds elapsed at the start of frame `f`: `floor(f / fps)`.
pub open spec fn frame_seconds(meta: VideoMetadata, f: int) -> int {
    (f * meta.fps_den) / (meta.fps_num as int)
}

/// Signed frame count covering `seconds`: `seconds * fps`, rounded half away from zero.
pub open spec fn frames_for_seconds(meta: VideoMetadata, seconds: int) -> int {
    if seconds >= 0 {
        round_div(seconds * meta.fps_num, meta.fps_den as int)
    } else {
        -round_div(-seconds * meta.fps_num, meta.fps_den as int)
    }
}

/// Playback speeds in quarters of normal speed: 0.25x, 0.5x, 0.75x, 1x, 1.25x, 1.5x, 2x.
pub open spec fn speed_quarters(i: int) -> u32 {
    if i == 0 {
        1
    } else if i == 1 {
        2
    } else if i == 2 {
        3
    } else if i == 3 {
        4
    } else if i == 4 {
        5
    } else if i == 5 {
        6
    } else {
        8
    }
}

/// Number of speed presets.
pub const NUM_SPEEDS: usize = 7;

/// Index of normal (1x) speed among the presets.
pub const NORMAL_SPEED_INDEX: usize = 3;

/// Returns the speed preset `i` in quarters of normal speed.
pub fn speed_at(i: usize) -> (q: u32)
    requires
        i < NUM_SPEEDS,
    ensures
        q == speed_quarters(i as int),
{
    if i == 0 {
        1
    } else if i == 1 {
        2
    } else if i == 2 {
        3
    } else if i == 3 {
        4
    } else if i == 4 {
        5
    } else if i == 5 {
        6
    } else {
        8
    }
}

/// Length of one frame at speed preset `q`, in drift units
/// (`1 / (1_000_000 * fps_num * 120)` of a second).
pub open spec fn frame_len_units(meta: VideoMetadata, q: int) -> int {
    meta.fps_den * (480_000_000int / q)
}

/// Elapsed microseconds expressed in drift units.
pub open spec fn elapsed_units(meta: VideoMetadata, us: int) -> int {
    us * meta.fps_num * 120
}

/// Whether `s` is strictly increasing.
pub open spec fn strictly_sorted(s: Seq<u32>) -> bool {
    forall|i: int, j: int| 0 <= i < j < s.len() ==> s[i] < s[j]
}

/// Number of markers strictly before frame `f` (the index at which a marker
/// on `f` belongs).
pub open spec fn count_lt(s: Seq<u32>, f: int) -> nat
    decreases s.len(),
{
    if s.len() == 0 {
        0
    } else {
        count_lt(s.drop_last(), f) + if s.last() < f { 1nat } else { 0nat }
    }
}

/// Number of markers at or before frame `f` (the segment that holds `f`).
pub open spec fn count_le(s: Seq<u32>, f: int) -> nat
    decreases s.len(),
{
    if s.len() == 0 {
        0
    } else {
        count_le(s.drop_last(), f) + if s.last() <= f { 1nat } else { 0nat }
    }
}

/// In a sorted sequence, `count_lt` splits the elements below `f` from the rest.
pub proof fn lemma_count_lt(s: Seq<u32>, f: int)
    requires
        strictly_sorted(s),
    ensures
        count_lt(s, f) <= s.len(),
        forall|i: int| 0 <= i < count_lt(s, f) ==> s[i] < f,
        forall|i: int| count_lt(s, f) <= i < s.len() ==> s[i] >= f,
    decreases s.len(),
{
    if s.len() > 0 {
        let d = s.drop_last();
        assert(strictly_sorted(d));
        lemma_count_lt(d, f);
        let c = count_lt(d, f) as int;
        if s.last() < f {
            if c < d.len() {
                assert(d[c] < s.last());
            }
            assert(c == d.len());
        }
        assert forall|i: int| 0 <= i < count_lt(s, f) implies s[i] < f by {
            if i < d.len() {
                assert(s[i] == d[i]);
            }
        }
        assert forall|i: int| count_lt(s, f) <= i < s.len() implies !(s[i] < f) by {
            if i < d.len() {
                assert(s[i] == d[i]);
            }
        }
    }
}

/// In a sorted sequence, `count_le` splits the elements at or below `f` from the rest.
pub proof fn lemma_count_le(s: Seq<u32>, f: int)
    requires
        strictly_sorted(s),
    ensures
        count_le(s, f) <= s.len(),
        forall|i: int| 0 <= i < count_le(s, f) ==> s[i] <= f,
        forall|i: int| count_le(s, f) <= i < s.len() ==> s[i] > f,
    decreases s.len(),
{
    if s.len() > 0 {
        let d = s.drop_last();
        assert(strictly_sorted(d));
        lemma_count_le(d, f);
        let c = count_le(d, f) as int;
        if s.last() <= f {
            if c < d.len() {
                assert(d[c] < s.last());
            }
            assert(c == d.len());
        }
        assert forall|i: int| 0 <= i < count_le(s, f) implies s[i] <= f by {
            if i < d.len() {
                assert(s[i] == d[i]);
            }
        }
        assert forall|i: int| count_le(s, f) <= i < s.len() implies !(s[i] <= f) by {
            if i < d.len() {
                assert(s[i] == d[i]);
            }
        }
    }
}

/// A split point of a sorted sequence is its `count_lt`.
pub proof fn lemma_count_lt_unique(s: Seq<u32>, f: int, k: int)
    requires
        strictly_sorted(s),
        0 <= k <= s.len(),
        forall|i: int| 0 <= i < k ==> s[i] < f,
        forall|i: int| k <= i < s.len() ==> s[i] >= f,
    ensures
        count_lt(s, f) == k,
{
    lemma_count_lt(s, f);
    let c = count_lt(s, f) as int;
    if c < k {
        assert(s[c] >= f);
    }
    if c > k {
        assert(s[k] < f);
    }
}

/// A split point of a sorted sequence is its `count_le`.
pub proof fn lemma_count_le_unique(s: Seq<u32>, f: int, k: int)
    requires
        strictly_sorted(s),
        0 <= k <= s.len(),
        forall|i: int| 0 <= i < k ==> s[i] <= f,
        forall|i: int| k <= i < s.len() ==> s[i] > f,
    ensures
        count_le(s, f) == k,
{
    lemma_count_le(s, f);
    let c = count_le(s, f) as int;
    if c < k {
        assert(s[c] > f);
    }
    if c > k {
        assert(s[k] <= f);
    }
}

/// Whether segment `seg` is included; segments past the end count as included.
pub open spec fn included_spec(segs: Seq<bool>, seg: int) -> bool {
    if 0 <= seg < segs.len() {
        segs[seg]
    } else {
        true
    }
}

/// The first included segment after `seg`, with the frame at which it starts.
pub open spec fn next_included_spec(markers: Seq<u32>, segs: Seq<bool>, seg: int) -> Option<(usize, u32)> {
    if exists|j: int| seg < j < segs.len() && 1 <= j <= markers.len() && segs[j] {
        let j = choose|j: int|
            seg < j < segs.len() && 1 <= j <= markers.len() && segs[j] && forall|k: int|
                seg < k < j ==> !segs[k];
        Some((j as usize, markers[j - 1]))
    } else {
        None
    }
}

/// The plain-value state of the editor.
pub struct Model {
    /// Width of the terminal window in character columns.
    pub terminal_cols: u16,
    /// Height of the terminal window in character rows.
    pub terminal_rows: u16,
    /// Extracted metadata of the input video file.
    pub video_metadata: VideoMetadata,
    /// Audio volume levels.
    pub audio_player: AudioPlayer,
    /// Currently displayed video frame image.
    pub current_frame: Option<Frame>,
    /// Current zero-based frame index.
    pub frame_number: u32,
    /// Frame index from the previous render cycle.
    pub prev_frame_number: u32,
    /// Whether video playback is currently paused.
    pub paused: bool,
    /// Frames at which markers are placed, strictly increasing.
    pub markers: Vec<u32>,
    /// Inclusion flags for each timeline segment between markers.
    pub segments_included: Vec<bool>,
    /// Currently hovered timeline item.
    pub hovered_item: Hovering,
    /// Whether shortcut key legends are hidden.
    pub hide_controls: bool,
    /// Whether a full screen clear is required on next frame.
    pub needs_to_clear: bool,
    /// Accumulated frame-timing drift, in drift units (see `frame_len_units`).
    pub accumulated_time: u128,
    /// Index of the current playback speed preset.
    pub speed_index: usize,
    /// Whether to concatenate exported segments into a single file.
    pub single_output: bool,
    /// Current display rendering mode.
    pub display_mode: DisplayMode,
    /// Whether the terminal supports high-resolution graphics.
    pub high_res_available: bool,
    /// Whether the quit confirmation prompt is currently active.
    pub exit_prompt: bool,
    /// Flag indicating an export operation has been triggered.
    pub is_saving: bool,
    /// Flag indicating the application should exit the main loop.
    pub should_exit: bool,
    /// Terminal differential buffer cache.
    pub terminal_state: TerminalState,
}

/// The mathematical view of a `Model`'s editing and playback state.
pub struct ModelView {
    pub cols: u16,
    pub rows: u16,
    pub meta: VideoMetadata,
    pub volume: u32,
    pub export_volume: u32,
    pub frame: u32,
    pub prev_frame: u32,
    pub paused: bool,
    pub markers: Seq<u32>,
    pub segments: Seq<bool>,
    pub hover: Hovering,
    pub hide_controls: bool,
    pub needs_to_clear: bool,
    pub drift: u128,
    pub speed_index: usize,
    pub single_output: bool,
    pub display_mode: DisplayMode,
    pub high_res_available: bool,
    pub exit_prompt: bool,
    pub is_saving: bool,
    pub should_exit: bool,
}

impl View for Model {
    type V = ModelView;

    open spec fn view(&self) -> ModelView {
        ModelView {
            cols: self.terminal_cols,
            rows: self.terminal_rows,
            meta: self.video_metadata,
            volume: self.audio_player.volume,
            export_volume: self.audio_player.export_volume,
            frame: self.frame_number,
            prev_frame: self.prev_frame_number,
            paused: self.paused,
            markers: self.markers@,
            segments: self.segments_included@,
            hover: self.hovered_item,
            hide_controls: self.hide_controls,
            needs_to_clear: self.needs_to_clear,
            drift: self.accumulated_time,
            speed_index: self.speed_index,
            single_output: self.single_output,
            display_mode: self.display_mode,
            high_res_available: self.high_res_available,
            exit_prompt: self.exit_prompt,
            is_saving: self.is_saving,
            should_exit: self.should_exit,
        }
    }
}

impl ModelView {
    /// The state invariant: sane metadata, sorted markers with one segment
    /// more than markers, a hover position on the timeline, a valid speed
    /// preset, volumes in range and bounded drift.
    pub open spec fn wf(self) -> bool {
        &&& self.meta.wf()
        &&& strictly_sorted(self.markers)
        &&& self.segments.len() == self.markers.len() + 1
        &&& self.segments.len() <= usize::MAX
        &&& self.hover.position <= self.markers.len()
        &&& self.speed_index < NUM_SPEEDS
        &&& self.volume <= 200
        &&& self.export_volume <= 200
        &&& self.drift <= frame_len_units(self.meta, 1)
    }

    /// The segment that holds frame `f`.
    pub open spec fn segment_at(self, f: int) -> nat {
        count_le(self.markers, f)
    }
}

impl Model {
    /// Creates the state for a freshly opened video: paused at frame 0, no
    /// markers, one included segment.
    pub fn new(
        video_metadata: VideoMetadata,
        cols: u16,
        rows: u16,
        initial_mode: DisplayMode,
        single_output: bool,
        high_res_available: bool,
    ) -> (m: Model)
        requires
            video_metadata.wf(),
        ensures
            m@.wf(),
            m@.meta == video_metadata,
            m@.cols == cols,
            m@.rows == rows,
            m@.display_mode == initial_mode,
            m@.single_output == single_output,
            m@.high_res_available == high_res_available,
            m@.paused,
            m@.frame == 0 && m@.prev_frame == 0,
            m@.markers == Seq::<u32>::empty(),
            m@.segments == seq![true],
            m@.hover == (Hovering { mode: HoverMode::Segments, position: 0 }),
            !m@.hide_controls,
            m@.needs_to_clear,
            m@.drift == 0,
            m@.speed_index == NORMAL_SPEED_INDEX,
            m@.volume == 100 && m@.export_volume == 100,
            !m@.exit_prompt && !m@.is_saving && !m@.should_exit,
            m.current_frame.is_none(),
    {
        let mut segments_included = Vec::new();
        segments_included.push(true);
        let m = Model {
            terminal_cols: cols,
            terminal_rows: rows,
            video_metadata,
            audio_player: AudioPlayer::new(),
            current_frame: None,
            frame_number: 0,
            prev_frame_number: 0,
            paused: true,
            markers: Vec::new(),
            segments_included,
            hovered_item: Hovering { mode: HoverMode::Segments, position: 0 },
            hide_controls: false,
            needs_to_clear: true,
            accumulated_time: 0,
            speed_index: NORMAL_SPEED_INDEX,
            single_output,
            display_mode: initial_mode,
            high_res_available,
            exit_prompt: false,
            is_saving: false,
            should_exit: false,
            terminal_state: TerminalState::new(),
        };
        assert(m@.segments =~= seq![true]);
        m
    }

    /// Returns the segment that holds frame `frame`: the number of markers at or before it.
    pub fn segment_at_frame(&self, frame: u32) -> (seg: usize)
        requires
            self@.wf(),
        ensures
            seg == self@.segment_at(frame as int),
            seg <= self.markers@.len(),
    {
        let n = self.markers.len();
        let mut i: usize = 0;
        while i < n && self.markers[i] <= frame
            invariant
                n == self.markers@.len(),
                i <= n,
                strictly_sorted(self.markers@),
                forall|k: int| 0 <= k < i ==> self.markers@[k] <= frame,
            decreases n - i,
        {
            i = i + 1;
        }
        proof {
            lemma_count_le_unique(self.markers@, frame as int, i as int);
        }
        i
    }

    /// Whether segment `seg` is included in the export (segments past the end count as included).
    pub fn is_segment_included(&self, seg: usize) -> (b: bool)
        ensures
            b == included_spec(self.segments_included@, seg as int),
    {
        if seg < self.segments_included.len() {
            self.segments_included[seg]
        } else {
            true
        }
    }

    /// The first included segment after `seg` and the frame of the marker that starts it.
    pub fn find_next_included_segment_start(&self, seg: usize) -> (r: Option<(usize, u32)>)
        requires
            self@.wf(),
        ensures
            r == next_included_spec(self.markers@, self.segments_included@, seg as int),
    {
        let n = self.segments_included.len();
        if seg >= n {
            return None;
        }
        let mut j: usize = seg + 1;
        while j < n
            invariant
                n == self.segments_included@.len(),
                n == self.markers@.len() + 1,
                seg < j <= n,
                forall|k: int| seg < k < j ==> !self.segments_included@[k],
            decreases n - j,
        {
            if self.segments_included[j] {
                let start = self.markers[j - 1];
                proof {
                    let segs = self.segments_included@;
                    let w = choose|w: int|
                        seg < w < segs.len() && 1 <= w <= self.markers@.len() && segs[w] && forall|
                            k: int,
                        | seg < k < w ==> !segs[k];
                    assert(seg < j < segs.len() && 1 <= j <= self.markers@.len() && segs[j as int]
                        && forall|k: int| seg < k < j ==> !segs[k]);
                    if w < j {
                        assert(!segs[w]);
                    }
                    if w > j {
                        assert(!segs[j as int]);
                    }
                }
                return Some((j, start));
            }
            j = j + 1;
        }
        None
    }
}

/// Clamps an integer into `i32`'s range (the float-to-integer cast).
pub open spec fn sat_i32(x: int) -> i32 {
    if x < i32::MIN {
        i32::MIN
    } else if x > i32::MAX {
        i32::MAX
    } else {
        x as i32
    }
}

/// Returns the total number of frames (see `max_frame`).
pub fn total_frames(meta: &VideoMetadata) -> (f: u32)
    requires
        meta.wf(),
    ensures
        f == max_frame(*meta),
{
    let d = meta.duration_us as u128;
    let n = meta.fps_num as u128;
    assert(d * n <= 0xffff_ffff_ffff_ffff * 0xffff_ffffu128) by (nonlinear_arith)
        requires d <= 0xffff_ffff_ffff_ffffu128, n <= 0xffff_ffffu128;
    let a: u128 = d * n;
    let b: u128 = (meta.fps_den as u128) * 1_000_000;
    let r = (2 * a + b) / (2 * b);
    if r > u32::MAX as u128 {
        u32::MAX
    } else {
        r as u32
    }
}

/// Returns the frame shown at `us` microseconds (see `frame_at_micros`).
pub fn frame_at(meta: &VideoMetadata, us: u128) -> (f: u32)
    requires
        meta.wf(),
        us <= 0xffff_ffff_ffff_ffff * 100,
    ensures
        f == frame_at_micros(*meta, us as int),
{
    let n = meta.fps_num as u128;
    assert(us * n <= 0xffff_ffff_ffff_ffff * 100 * 0xffff_ffffu128) by (nonlinear_arith)
        requires n <= 0xffff_ffffu128, us <= 0xffff_ffff_ffff_ffff * 100;
    let a: u128 = us * n;
    let b: u128 = (meta.fps_den as u128) * 1_000_000;
    let r = a / b;
    if r > u32::MAX as u128 {
        u32::MAX
    } else {
        r as u32
    }
}

/// Returns `seconds * fps` rounded half away from zero and saturated to `i32`.
pub fn frames_in_seconds(meta: &VideoMetadata, seconds: i64) -> (f: i32)
    requires
        meta.wf(),
    ensures
        f == sat_i32(frames_for_seconds(*meta, seconds as int)),
{
    let neg = seconds < 0;
    let mag: u128 = if neg { (0i128 - seconds as i128) as u128 } else { seconds as u128 };
    let n = meta.fps_num as u128;
    assert(mag * n <= 0x8000_0000_0000_0000u128 * 0xffff_ffffu128) by (nonlinear_arith)
        requires n <= 0xffff_ffffu128, mag <= 0x8000_0000_0000_0000u128;
    let a: u128 = mag * n;
    let b: u128 = meta.fps_den as u128;
    let r: u128 = (2 * a + b) / (2 * b);
    if neg {
        if r > 2147483648 {
            i32::MIN
        } else {
            (0i128 - r as i128) as i32
        }
    } else {
        if r > i32::MAX as u128 {
            i32::MAX
        } else {
            r as i32
        }
    }
}

} // verus!
