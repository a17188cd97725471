//! The whole screen: video area, status line, timeline bar with markers and
//! playhead, segment information, key legend and exit prompt, as a list of
//! drawing commands.
use vstd::prelude::*;
use vstd::utf8::encode_utf8;
use crate::export::{span_at, units};
use crate::kitty::{kitty_spec, render_kitty};
use crate::model::{
    frame_seconds, included_spec, max_frame, round_div, sat_u32, total_frames, DisplayMode, HoverMode,
    Model, ModelView, TIMELINE_ROW,
};
use crate::text::{decimal, push_char, push_decimal, push_str};
use crate::update::SeekPoint;
use crate::view::{
    calculate_render_size, cmd_views, differential_spec, render_differential, render_size_spec, Attribute,
    Color, DrawCmd, DrawCmdView, Rgb,
};

verus! {

/// `n` spaces.
pub open spec fn spaces(n: nat) -> Seq<char> {
    Seq::new(n, |i: int| ' ')
}

/// Length in bytes of the UTF-8 encoding of `s` (as `str::len` reports it).
pub open spec fn byte_len(s: Seq<char>) -> usize {
    encode_utf8(s).len() as usize
}

pub open spec fn sat_sub(a: int, b: int) -> int {
    if a > b { a - b } else { 0 }
}

/// `m:ss` for a whole number of seconds (minutes saturate at `u32::MAX`).
pub open spec fn fmt_time_spec(secs: int) -> Seq<char> {
    let sec = secs % 60;
    decimal(sat_u32(secs / 60) as nat) + ":"@ + (if sec < 10 { "0"@ + decimal(sec as nat) } else { decimal(sec as nat) })
}

/// The time status: playhead time and duration, frame counter and play state.
pub open spec fn time_text(s: ModelView) -> Seq<char> {
    " "@ + fmt_time_spec(frame_seconds(s.meta, s.frame as int)) + " / "@ + fmt_time_spec(
        s.meta.duration_us as int / 1_000_000,
    ) + " ["@ + decimal(s.frame as nat) + "/"@ + decimal(max_frame(s.meta) as nat) + "] "@ + (if s.paused {
        "||"@
    } else {
        ">>"@
    })
}

/// Character-cell size of the video area and its left offset.
pub open spec fn layout(s: ModelView) -> (u16, u16, u16) {
    let (rw, rh) = render_size_spec(s.cols, s.rows, s.meta, DisplayMode::LowResBlock);
    let cw = rw as u16;
    let ch = (rh / 2) as u16;
    (cw, ch, (sat_sub(s.cols as int, cw as int) / 2) as u16)
}

/// Column of the timeline bar at time `a / b` of the video, rounded and
/// saturated (the end of a zero-length video is the last column).
pub open spec fn bar_pos(cols: u16, a: int, b: int) -> u16 {
    if b == 0 {
        if a > 0 { u16::MAX } else { 0 }
    } else {
        let r = round_div(cols * a, b);
        if r > u16::MAX { u16::MAX } else { r as u16 }
    }
}

/// Column of a time point on the bar.
pub open spec fn point_pos(s: ModelView, p: SeekPoint) -> u16 {
    bar_pos(s.cols, units(s, p), units(s, SeekPoint::Micros(s.meta.duration_us)))
}

pub open spec fn included_color() -> Rgb {
    Rgb { r: 50, g: 200, b: 50 }
}

pub open spec fn excluded_color() -> Rgb {
    Rgb { r: 200, g: 50, b: 50 }
}

pub open spec fn min_u16(a: u16, b: int) -> u16 {
    if a <= b { a } else { b as u16 }
}

/// Segment `i` on the bar row: a run of spaces on its inclusion color.
pub open spec fn segment_cmds(s: ModelView, i: int, row: u16) -> Seq<DrawCmdView> {
    let sp = point_pos(s, span_at(s, i).start);
    let ep = point_pos(s, span_at(s, i).end);
    let len = sat_sub(ep as int, sp as int);
    if len > 0 {
        seq![
            DrawCmdView::MoveTo(min_u16(sp, sat_sub(s.cols as int, 1)), row),
            DrawCmdView::SetBackground(Color::Rgb(if included_spec(s.segments, i) { included_color() } else { excluded_color() })),
            DrawCmdView::Print(spaces((if len <= sat_sub(s.cols as int, sp as int) { len } else { sat_sub(s.cols as int, sp as int) }) as nat)),
        ]
    } else {
        Seq::empty()
    }
}

/// The first `k` segments on the bar row.
pub open spec fn segments_cmds(s: ModelView, k: nat, row: u16) -> Seq<DrawCmdView>
    decreases k,
{
    if k == 0 {
        Seq::empty()
    } else {
        segments_cmds(s, (k - 1) as nat, row) + segment_cmds(s, k - 1, row)
    }
}

/// Marker `j` on the bar row: a white `|`.
pub open spec fn marker_cmds(s: ModelView, j: int, row: u16) -> Seq<DrawCmdView> {
    let p = point_pos(s, SeekPoint::Frame(s.markers[j]));
    seq![
        DrawCmdView::MoveTo(min_u16(p, sat_sub(s.cols as int, 1)), row),
        DrawCmdView::SetForeground(Color::White),
        DrawCmdView::Print("|"@),
        DrawCmdView::SetForeground(Color::Reset),
    ]
}

/// The first `k` markers.
pub open spec fn markers_cmds(s: ModelView, k: nat, row: u16) -> Seq<DrawCmdView>
    decreases k,
{
    if k == 0 {
        Seq::empty()
    } else {
        markers_cmds(s, (k - 1) as nat, row) + marker_cmds(s, k - 1, row)
    }
}

/// The timeline: optional clearing of its two rows, the segments, the
/// markers, and the playhead `v` above the bar (erasing the old one when it
/// moved), colored by the hovered segment's inclusion.
pub open spec fn timeline_cmds(s: ModelView, row: u16) -> Seq<DrawCmdView> {
    let above = sat_sub(row as int, 1) as u16;
    let clear = if s.needs_to_clear {
        seq![
            DrawCmdView::MoveTo(0, above),
            DrawCmdView::Print(spaces(s.cols as nat)),
            DrawCmdView::MoveTo(0, row),
            DrawCmdView::Print(spaces(s.cols as nat)),
        ]
    } else {
        Seq::empty()
    };
    let head = min_u16(point_pos(s, SeekPoint::Frame(s.frame)), sat_sub(s.cols as int, 1));
    let prev = min_u16(point_pos(s, SeekPoint::Frame(s.prev_frame)), sat_sub(s.cols as int, 1));
    let color = if included_spec(s.segments, s.hover.position as int) { included_color() } else { excluded_color() };
    let erase = if s.frame != s.prev_frame || s.needs_to_clear {
        seq![DrawCmdView::MoveTo(prev, above), DrawCmdView::Print(" "@)]
    } else {
        Seq::empty()
    };
    clear + segments_cmds(s, (s.markers.len() + 1) as nat, row) + seq![DrawCmdView::SetBackground(Color::Reset)]
        + markers_cmds(s, s.markers.len(), row) + erase + seq![
        DrawCmdView::MoveTo(head, above),
        DrawCmdView::SetForeground(Color::Rgb(color)),
        DrawCmdView::Print("v"@),
        DrawCmdView::SetForeground(Color::Reset),
    ]
}

/// The segment (or marker) information line, before padding.
pub open spec fn info_text(s: ModelView) -> Seq<char> {
    let output = if s.single_output { "Single-File"@ } else { "Multi-File"@ };
    let res = if s.display_mode == DisplayMode::LowResBlock {
        "Low-Res (Block)"@
    } else if s.high_res_available {
        "High-Res (Pixel)"@
    } else {
        "Low-Res (Block)"@
    };
    let tail = " | Output: "@ + output + " | Display: "@ + res + " | Vol: "@ + decimal(s.volume as nat) + "%"@
        + " | Export Vol: "@ + decimal(s.export_volume as nat) + "%"@;
    match s.hover.mode {
        HoverMode::Segments => "Segment "@ + decimal((s.hover.position + 1) as nat) + " of "@ + decimal(
            (s.markers.len() + 1) as nat,
        ) + " ["@ + (if included_spec(s.segments, s.hover.position as int) {
            "INCLUDED"@
        } else {
            "EXCLUDED"@
        }) + "]"@ + tail,
        HoverMode::Markers => "Marker "@ + decimal((s.hover.position + 1) as nat) + " of "@ + decimal(
            s.markers.len(),
        ) + tail,
    }
}

/// The information line padded to the terminal width less 8, then `help ?`
/// at the right edge.
pub open spec fn info_cmds(s: ModelView) -> Seq<DrawCmdView> {
    let t = info_text(s);
    let w = sat_sub(s.cols as int, 8);
    let padded = if t.len() < w { t + spaces((w - t.len()) as nat) } else { t };
    let pad = sat_sub(s.cols as int, (byte_len(padded) + 6) as int);
    seq![
        DrawCmdView::Print(padded),
        DrawCmdView::Print(spaces(pad as nat)),
        DrawCmdView::Print("help ?"@),
        DrawCmdView::MoveToNextLine(1),
    ]
}

pub open spec fn seg_legend(high_res: bool) -> Seq<char> {
    if high_res {
        "v mark/unmark • t toggle segment • i toggle output • +/- vol • a/A export vol • s save/output • r toggle res"@
    } else {
        "v mark/unmark • t toggle segment • i toggle output • +/- vol • a/A export vol • s save/output"@
    }
}

pub open spec fn nav_legend(has_markers: bool) -> Seq<char> {
    if has_markers {
        "[ ] jump • ←/→ 5s • Alt + ←/→ 30s • Ctrl + ←/→ 1m • ,/. skip frame • 0-9 jump • Esc/q quit"@
    } else {
        "←/→ 5s • Alt + ←/→ 30s • Ctrl + ←/→ 1m • ,/. skip frame • 0-9 jump • Esc/q quit"@
    }
}

/// One centred, dimmed legend line (centred by its byte length).
pub open spec fn legend_line(cols: u16, text: Seq<char>) -> Seq<DrawCmdView> {
    let n = byte_len(text) as int;
    let pad = if cols > n { (cols - n) / 2 } else { 0 };
    seq![
        DrawCmdView::MoveToColumn(0),
        DrawCmdView::Print(spaces(pad as nat)),
        DrawCmdView::SetAttribute(Attribute::Dim),
        DrawCmdView::Print(text),
        DrawCmdView::SetAttribute(Attribute::Reset),
        DrawCmdView::Print(spaces(sat_sub(cols as int, pad + n) as nat)),
        DrawCmdView::MoveToNextLine(1),
    ]
}

/// The key legend, or two blank lines when it is hidden.
pub open spec fn legend_cmds(s: ModelView) -> Seq<DrawCmdView> {
    if !s.hide_controls {
        legend_line(s.cols, seg_legend(s.high_res_available)) + legend_line(s.cols, nav_legend(s.markers.len() > 0))
    } else {
        seq![
            DrawCmdView::MoveToColumn(0),
            DrawCmdView::Print(spaces(s.cols as nat)),
            DrawCmdView::MoveToNextLine(1),
            DrawCmdView::MoveToColumn(0),
            DrawCmdView::Print(spaces(s.cols as nat)),
            DrawCmdView::MoveToNextLine(1),
        ]
    }
}

/// The escape sequence that deletes all Kitty images.
pub open spec fn kitty_clear() -> Seq<char> {
    "\x1b_Ga=d,d=A\x1b\\"@
}

/// The exit confirmation box, centred in the video area.
pub open spec fn prompt_cmds(s: ModelView, ui_start_row: u16) -> Seq<DrawCmdView> {
    if s.exit_prompt {
        let center = ui_start_row / 2;
        let pad1 = (sat_sub(s.cols as int, 36) / 2) as u16;
        let pad2 = (sat_sub(s.cols as int, 12) / 2) as u16;
        (if s.display_mode == DisplayMode::HighResPixel { seq![DrawCmdView::Raw(kitty_clear())] } else { Seq::empty() })
            + seq![
            DrawCmdView::MoveTo(pad1, sat_sub(center as int, 1) as u16),
            DrawCmdView::SetBackground(Color::Red),
            DrawCmdView::SetForeground(Color::White),
            DrawCmdView::SetAttribute(Attribute::Bold),
            DrawCmdView::Print(" Confirm exit? (make sure you save) "@),
            DrawCmdView::MoveTo(pad2, center),
            DrawCmdView::SetBackground(Color::Red),
            DrawCmdView::SetForeground(Color::White),
            DrawCmdView::SetAttribute(Attribute::Bold),
            DrawCmdView::Print(" [Y]es/[N]o "@),
            DrawCmdView::SetAttribute(Attribute::Reset),
            DrawCmdView::SetBackground(Color::Reset),
            DrawCmdView::SetForeground(Color::Reset),
        ]
    } else {
        Seq::empty()
    }
}

/// The status line at row `ch`: the fps text at the left, the time status
/// at the right.
pub open spec fn status_cmds(s: ModelView, fps: Seq<char>, fps_bytes: usize, ch: u16) -> Seq<DrawCmdView> {
    let t = time_text(s);
    let pad = sat_sub(s.cols as int, (byte_len(t) + fps_bytes) as int);
    seq![
        DrawCmdView::MoveTo(0, ch),
        DrawCmdView::Print(fps),
        DrawCmdView::Print(spaces(pad as nat)),
        DrawCmdView::Print(t),
        DrawCmdView::MoveToNextLine(1),
    ]
}

/// Everything below the video area, given the fps text (and its byte length).
pub open spec fn ui_cmds(s: ModelView, fps: Seq<char>, fps_bytes: usize) -> Seq<DrawCmdView> {
    let (cw, ch, x) = layout(s);
    status_cmds(s, fps, fps_bytes, ch) + timeline_cmds(s, (ch + TIMELINE_ROW) as u16) + seq![
        DrawCmdView::MoveTo(0, (ch + 4) as u16),
    ] + info_cmds(s) + legend_cmds(s) + prompt_cmds(s, ch)
}

/// A string of `n` spaces.
fn spaces_string(n: usize) -> (r: String)
    ensures
        r@ == spaces(n as nat),
{
    let mut r = String::new();
    let mut i: usize = 0;
    while i < n
        invariant
            i <= n,
            r@ == spaces(i as nat),
        decreases n - i,
    {
        push_char(&mut r, ' ');
        i = i + 1;
        assert(r@ =~= spaces(i as nat));
    }
    r
}

/// Appends `m:ss` for `secs` whole seconds (see `fmt_time_spec`).
fn push_time(s: &mut String, secs: u64)
    ensures
        final(s)@ == old(s)@ + fmt_time_spec(secs as int),
{
    let m = secs / 60;
    let m32: u64 = if m > u32::MAX as u64 { u32::MAX as u64 } else { m };
    let sec = secs % 60;
    let ghost s0 = s@;
    push_decimal(s, m32);
    push_str(s, ":");
    if sec < 10 {
        push_str(s, "0");
    }
    push_decimal(s, sec);
    proof {
        assert(s@ =~= s0 + fmt_time_spec(secs as int));
    }
}

/// The time status text (see `time_text`).
pub fn time_line(m: &Model) -> (r: String)
    requires
        m@.wf(),
    ensures
        r@ == time_text(m@),
{
    let mut r = String::new();
    push_str(&mut r, " ");
    let f = m.frame_number as u64;
    let den = m.video_metadata.fps_den as u64;
    assert(f * den <= 0xffff_ffff * 0xffff_ffff) by (nonlinear_arith)
        requires f <= 0xffff_ffff, den <= 0xffff_ffff;
    push_time(&mut r, (f * den) / (m.video_metadata.fps_num as u64));
    push_str(&mut r, " / ");
    push_time(&mut r, m.video_metadata.duration_us / 1_000_000);
    push_str(&mut r, " [");
    push_decimal(&mut r, m.frame_number as u64);
    push_str(&mut r, "/");
    push_decimal(&mut r, total_frames(&m.video_metadata) as u64);
    push_str(&mut r, "] ");
    if m.paused {
        push_str(&mut r, "||");
    } else {
        push_str(&mut r, ">>");
    }
    proof {
        assert(r@ =~= time_text(m@));
    }
    r
}

/// A time point in exact units (see `units`).
fn units_of(m: &Model, p: SeekPoint) -> (r: u128)
    ensures
        r == units(m@, p),
        r <= 0xffff_ffff_ffff_ffffint * 0xffff_ffffint,
{
    match p {
        SeekPoint::Frame(f) => {
            let a = f as u128;
            let b = m.video_metadata.fps_den as u128;
            assert(a * b <= 0xffff_ffffint * 0xffff_ffffint) by (nonlinear_arith)
                requires a <= 0xffff_ffff, b <= 0xffff_ffff;
            a * b * 1_000_000
        },
        SeekPoint::Micros(us) => {
            let a = us as u128;
            let b = m.video_metadata.fps_num as u128;
            assert(a * b <= 0xffff_ffff_ffff_ffffint * 0xffff_ffffint) by (nonlinear_arith)
                requires a <= 0xffff_ffff_ffff_ffff, b <= 0xffff_ffff;
            a * b
        },
    }
}

/// The bar column of a time point (see `point_pos`).
fn pos_of(m: &Model, p: SeekPoint) -> (r: u16)
    ensures
        r == point_pos(m@, p),
{
    let a = units_of(m, p);
    let b = units_of(m, SeekPoint::Micros(m.video_metadata.duration_us));
    if b == 0 {
        if a > 0 {
            u16::MAX
        } else {
            0
        }
    } else {
        let c = m.terminal_cols as u128;
        assert(c * a <= 0xffffint * (0xffff_ffff_ffff_ffffint * 0xffff_ffffint)) by (nonlinear_arith)
            requires c <= 0xffff, a <= 0xffff_ffff_ffff_ffffint * 0xffff_ffffint;
        let r = (2 * (c * a) + b) / (2 * b);
        if r > u16::MAX as u128 {
            u16::MAX
        } else {
            r as u16
        }
    }
}

fn min16(a: u16, b: u16) -> (r: u16)
    ensures
        r == min_u16(a, b as int),
{
    if a <= b {
        a
    } else {
        b
    }
}

/// Appends the commands of segment `i` (see `segment_cmds`).
fn push_segment(m: &Model, i: usize, row: u16, out: &mut Vec<DrawCmd>)
    requires
        m@.wf(),
        i <= m@.markers.len(),
    ensures
        cmd_views(final(out)@) == cmd_views(old(out)@) + segment_cmds(m@, i as int, row),
{
    let start = if i == 0 { SeekPoint::Frame(0) } else { SeekPoint::Frame(m.markers[i - 1]) };
    let end = if i == m.markers.len() {
        SeekPoint::Micros(m.video_metadata.duration_us)
    } else {
        SeekPoint::Frame(m.markers[i])
    };
    assert(start == span_at(m@, i as int).start && end == span_at(m@, i as int).end);
    let sp = pos_of(m, start);
    let ep = pos_of(m, end);
    let len = ep.saturating_sub(sp);
    let ghost before = cmd_views(out@);
    if len > 0 {
        let cols = m.terminal_cols;
        let color = if m.is_segment_included(i) {
            Rgb { r: 50, g: 200, b: 50 }
        } else {
            Rgb { r: 200, g: 50, b: 50 }
        };
        let room = cols.saturating_sub(sp);
        let n = if len <= room { len } else { room };
        out.push(DrawCmd::MoveTo(min16(sp, cols.saturating_sub(1)), row));
        out.push(DrawCmd::SetBackground(Color::Rgb(color)));
        out.push(DrawCmd::Print(spaces_string(n as usize)));
        proof {
            assert(cmd_views(out@) =~= before + segment_cmds(m@, i as int, row));
        }
    } else {
        proof {
            assert(cmd_views(out@) =~= before + segment_cmds(m@, i as int, row));
        }
    }
}

/// Appends the timeline (see `timeline_cmds`).
#[verifier::rlimit(30)]
fn push_timeline(m: &Model, row: u16, out: &mut Vec<DrawCmd>)
    requires
        m@.wf(),
    ensures
        cmd_views(final(out)@) == cmd_views(old(out)@) + timeline_cmds(m@, row),
{
    let ghost s = m@;
    let ghost out0 = cmd_views(out@);
    let cols = m.terminal_cols;
    let above = row.saturating_sub(1);
    if m.needs_to_clear {
        out.push(DrawCmd::MoveTo(0, above));
        out.push(DrawCmd::Print(spaces_string(cols as usize)));
        out.push(DrawCmd::MoveTo(0, row));
        out.push(DrawCmd::Print(spaces_string(cols as usize)));
    }
    let ghost out1 = cmd_views(out@);
    let n = m.markers.len();
    let mut i: usize = 0;
    while i <= n
        invariant
            s == m@,
            s.wf(),
            n == s.markers.len(),
            i <= n + 1,
            cmd_views(out@) == out1 + segments_cmds(s, i as nat, row),
        decreases n + 1 - i,
    {
        push_segment(m, i, row, out);
        i = i + 1;
    }
    out.push(DrawCmd::SetBackground(Color::Reset));
    let ghost out2 = cmd_views(out@);
    let mut j: usize = 0;
    while j < n
        invariant
            s == m@,
            s.wf(),
            n == s.markers.len(),
            j <= n,
            cols == m.terminal_cols,
            cmd_views(out@) == out2 + markers_cmds(s, j as nat, row),
        decreases n - j,
    {
        let p = pos_of(m, SeekPoint::Frame(m.markers[j]));
        let ghost b = cmd_views(out@);
        let mv = min16(p, cols.saturating_sub(1));
        out.push(DrawCmd::MoveTo(mv, row));
        out.push(DrawCmd::SetForeground(Color::White));
        let mut bar = String::new();
        push_str(&mut bar, "|");
        assert(bar@ =~= "|"@);
        out.push(DrawCmd::Print(bar));
        out.push(DrawCmd::SetForeground(Color::Reset));
        proof {
            assert(cmd_views(out@) =~= b + seq![
                DrawCmdView::MoveTo(mv, row),
                DrawCmdView::SetForeground(Color::White),
                DrawCmdView::Print("|"@),
                DrawCmdView::SetForeground(Color::Reset),
            ]);
            assert(marker_cmds(s, j as int, row) =~= seq![
                DrawCmdView::MoveTo(mv, row),
                DrawCmdView::SetForeground(Color::White),
                DrawCmdView::Print("|"@),
                DrawCmdView::SetForeground(Color::Reset),
            ]);
            assert(cmd_views(out@) =~= b + marker_cmds(s, j as int, row));
        }
        j = j + 1;
    }
    let ghost out3 = cmd_views(out@);
    let head = min16(pos_of(m, SeekPoint::Frame(m.frame_number)), cols.saturating_sub(1));
    let prev = min16(pos_of(m, SeekPoint::Frame(m.prev_frame_number)), cols.saturating_sub(1));
    let color = if m.is_segment_included(m.hovered_item.position) {
        Rgb { r: 50, g: 200, b: 50 }
    } else {
        Rgb { r: 200, g: 50, b: 50 }
    };
    if m.frame_number != m.prev_frame_number || m.needs_to_clear {
        out.push(DrawCmd::MoveTo(prev, above));
        let mut sp = String::new();
        push_str(&mut sp, " ");
        assert(sp@ =~= " "@);
        out.push(DrawCmd::Print(sp));
    }
    let ghost out4 = cmd_views(out@);
    proof {
        let erase = if s.frame != s.prev_frame || s.needs_to_clear {
            seq![DrawCmdView::MoveTo(prev, above), DrawCmdView::Print(" "@)]
        } else {
            Seq::empty()
        };
        assert(out4 =~= out3 + erase);
    }
    out.push(DrawCmd::MoveTo(head, above));
    out.push(DrawCmd::SetForeground(Color::Rgb(color)));
    let mut v = String::new();
    push_str(&mut v, "v");
    assert(v@ =~= "v"@);
    out.push(DrawCmd::Print(v));
    out.push(DrawCmd::SetForeground(Color::Reset));
    proof {
        let clear = if s.needs_to_clear {
            seq![
                DrawCmdView::MoveTo(0, above),
                DrawCmdView::Print(spaces(s.cols as nat)),
                DrawCmdView::MoveTo(0, row),
                DrawCmdView::Print(spaces(s.cols as nat)),
            ]
        } else {
            Seq::empty()
        };
        assert(out1 =~= out0 + clear);
        assert(out2 =~= out0 + clear + segments_cmds(s, (n + 1) as nat, row) + seq![DrawCmdView::SetBackground(Color::Reset)]);
        assert(out3 == out2 + markers_cmds(s, n as nat, row));
        assert(cmd_views(out@) =~= out4 + seq![
            DrawCmdView::MoveTo(head, above),
            DrawCmdView::SetForeground(Color::Rgb(color)),
            DrawCmdView::Print("v"@),
            DrawCmdView::SetForeground(Color::Reset),
        ]);
        assert(cmd_views(out@) =~= out0 + timeline_cmds(s, row));
    }
}

/// Appends `n` in decimal.
fn push_usize(s: &mut String, n: usize)
    ensures
        final(s)@ == old(s)@ + decimal(n as nat),
{
    push_decimal(s, n as u64);
}

/// The information text (see `info_text`).
fn info_line(m: &Model) -> (r: String)
    requires
        m@.wf(),
    ensures
        r@ == info_text(m@),
{
    let mut tail = String::new();
    push_str(&mut tail, " | Output: ");
    if m.single_output {
        push_str(&mut tail, "Single-File");
    } else {
        push_str(&mut tail, "Multi-File");
    }
    push_str(&mut tail, " | Display: ");
    if m.display_mode == DisplayMode::LowResBlock {
        push_str(&mut tail, "Low-Res (Block)");
    } else if m.high_res_available {
        push_str(&mut tail, "High-Res (Pixel)");
    } else {
        push_str(&mut tail, "Low-Res (Block)");
    }
    push_str(&mut tail, " | Vol: ");
    push_decimal(&mut tail, m.audio_player.volume as u64);
    push_str(&mut tail, "%");
    push_str(&mut tail, " | Export Vol: ");
    push_decimal(&mut tail, m.audio_player.export_volume as u64);
    push_str(&mut tail, "%");
    let mut r = String::new();
    let pos = m.hovered_item.position;
    let nm = m.markers.len();
    match m.hovered_item.mode {
        HoverMode::Segments => {
            push_str(&mut r, "Segment ");
            push_usize(&mut r, pos + 1);
            push_str(&mut r, " of ");
            push_usize(&mut r, nm + 1);
            push_str(&mut r, " [");
            if m.is_segment_included(pos) {
                push_str(&mut r, "INCLUDED");
            } else {
                push_str(&mut r, "EXCLUDED");
            }
            push_str(&mut r, "]");
        },
        HoverMode::Markers => {
            push_str(&mut r, "Marker ");
            push_usize(&mut r, pos + 1);
            push_str(&mut r, " of ");
            push_usize(&mut r, nm);
        },
    }
    push_str(&mut r, tail.as_str());
    proof {
        assert(r@ =~= info_text(m@));
    }
    r
}

/// Appends the information line (see `info_cmds`).
fn push_info(m: &Model, out: &mut Vec<DrawCmd>)
    requires
        m@.wf(),
    ensures
        cmd_views(final(out)@) == cmd_views(old(out)@) + info_cmds(m@),
{
    let mut t = info_line(m);
    let w = m.terminal_cols.saturating_sub(8) as usize;
    let n = t.unicode_len();
    if n < w {
        let sp = spaces_string(w - n);
        push_str(&mut t, sp.as_str());
    }
    let used = t.as_str().len() as u128 + 6;
    let pad = if (m.terminal_cols as u128) > used { (m.terminal_cols as u128 - used) as usize } else { 0 };
    let ghost b = cmd_views(out@);
    let ghost tv = t@;
    out.push(DrawCmd::Print(t));
    out.push(DrawCmd::Print(spaces_string(pad)));
    let mut h = String::new();
    push_str(&mut h, "help ?");
    assert(h@ =~= "help ?"@);
    out.push(DrawCmd::Print(h));
    out.push(DrawCmd::MoveToNextLine(1));
    proof {
        assert(cmd_views(out@) =~= b + info_cmds(m@));
    }
}

/// Appends one legend line (see `legend_line`).
fn push_legend_line(cols: u16, text: String, out: &mut Vec<DrawCmd>)
    ensures
        cmd_views(final(out)@) == cmd_views(old(out)@) + legend_line(cols, text@),
{
    let n = text.as_str().len();
    let pad = if (cols as usize) > n { (cols as usize - n) / 2 } else { 0 };
    let used = pad as u128 + n as u128;
    let rest = if (cols as u128) > used { (cols as u128 - used) as usize } else { 0 };
    let ghost b = cmd_views(out@);
    let ghost tv = text@;
    out.push(DrawCmd::MoveToColumn(0));
    out.push(DrawCmd::Print(spaces_string(pad)));
    out.push(DrawCmd::SetAttribute(Attribute::Dim));
    out.push(DrawCmd::Print(text));
    out.push(DrawCmd::SetAttribute(Attribute::Reset));
    out.push(DrawCmd::Print(spaces_string(rest)));
    out.push(DrawCmd::MoveToNextLine(1));
    proof {
        assert(cmd_views(out@) =~= b + legend_line(cols, tv));
    }
}

/// Appends the key legend (see `legend_cmds`).
fn push_legend(m: &Model, out: &mut Vec<DrawCmd>)
    requires
        m@.wf(),
    ensures
        cmd_views(final(out)@) == cmd_views(old(out)@) + legend_cmds(m@),
{
    let ghost b = cmd_views(out@);
    if !m.hide_controls {
        let mut seg = String::new();
        if m.high_res_available {
            push_str(&mut seg, "v mark/unmark • t toggle segment • i toggle output • +/- vol • a/A export vol • s save/output • r toggle res");
        } else {
            push_str(&mut seg, "v mark/unmark • t toggle segment • i toggle output • +/- vol • a/A export vol • s save/output");
        }
        assert(seg@ =~= seg_legend(m.high_res_available));
        let mut nav = String::new();
        if m.markers.len() > 0 {
            push_str(&mut nav, "[ ] jump • ←/→ 5s • Alt + ←/→ 30s • Ctrl + ←/→ 1m • ,/. skip frame • 0-9 jump • Esc/q quit");
        } else {
            push_str(&mut nav, "←/→ 5s • Alt + ←/→ 30s • Ctrl + ←/→ 1m • ,/. skip frame • 0-9 jump • Esc/q quit");
        }
        assert(nav@ =~= nav_legend(m.markers.len() > 0));
        push_legend_line(m.terminal_cols, seg, out);
        push_legend_line(m.terminal_cols, nav, out);
    } else {
        let c = m.terminal_cols as usize;
        out.push(DrawCmd::MoveToColumn(0));
        out.push(DrawCmd::Print(spaces_string(c)));
        out.push(DrawCmd::MoveToNextLine(1));
        out.push(DrawCmd::MoveToColumn(0));
        out.push(DrawCmd::Print(spaces_string(c)));
        out.push(DrawCmd::MoveToNextLine(1));
    }
    proof {
        assert(cmd_views(out@) =~= b + legend_cmds(m@));
    }
}

/// A `String` holding `t`.
fn string_of(t: &str) -> (r: String)
    ensures
        r@ == t@,
{
    let mut r = String::new();
    push_str(&mut r, t);
    assert(r@ =~= t@);
    r
}

/// Appends the exit prompt (see `prompt_cmds`).
fn push_prompt(m: &Model, ui_start_row: u16, out: &mut Vec<DrawCmd>)
    ensures
        cmd_views(final(out)@) == cmd_views(old(out)@) + prompt_cmds(m@, ui_start_row),
{
    let ghost b = cmd_views(out@);
    if m.exit_prompt {
        if m.display_mode == DisplayMode::HighResPixel {
            out.push(DrawCmd::Raw(string_of("\x1b_Ga=d,d=A\x1b\\")));
        }
        let center = ui_start_row / 2;
        let pad1 = m.terminal_cols.saturating_sub(36) / 2;
        let pad2 = m.terminal_cols.saturating_sub(12) / 2;
        out.push(DrawCmd::MoveTo(pad1, center.saturating_sub(1)));
        out.push(DrawCmd::SetBackground(Color::Red));
        out.push(DrawCmd::SetForeground(Color::White));
        out.push(DrawCmd::SetAttribute(Attribute::Bold));
        out.push(DrawCmd::Print(string_of(" Confirm exit? (make sure you save) ")));
        out.push(DrawCmd::MoveTo(pad2, center));
        out.push(DrawCmd::SetBackground(Color::Red));
        out.push(DrawCmd::SetForeground(Color::White));
        out.push(DrawCmd::SetAttribute(Attribute::Bold));
        out.push(DrawCmd::Print(string_of(" [Y]es/[N]o ")));
        out.push(DrawCmd::SetAttribute(Attribute::Reset));
        out.push(DrawCmd::SetBackground(Color::Reset));
        out.push(DrawCmd::SetForeground(Color::Reset));
    }
    proof {
        assert(cmd_views(out@) =~= b + prompt_cmds(m@, ui_start_row));
    }
}

/// Clearing the screen (and any Kitty image) when a full redraw is due.
pub open spec fn clear_cmds(s: ModelView) -> Seq<DrawCmdView> {
    if s.needs_to_clear {
        seq![DrawCmdView::ClearAll, DrawCmdView::Raw(kitty_clear())]
    } else {
        Seq::empty()
    }
}

/// The current frame drawn into the video area: as a Kitty image in pixel
/// mode, or by the differential half-block renderer.
pub open spec fn frame_cmds(m: &Model) -> Seq<DrawCmdView> {
    let s = m@;
    let (cw, ch, x) = layout(s);
    match m.current_frame {
        None => Seq::empty(),
        Some(img) => if s.display_mode == DisplayMode::HighResPixel {
            kitty_spec(&img, x, 0, cw, ch)
        } else {
            differential_spec(&m.terminal_state, s.needs_to_clear, &img, x, cw, ch).cmds
        },
    }
}

/// Draws the whole screen; `fps_text` is the frame-rate label shown at the
/// left of the status line. Only the differential renderer's cache changes.
pub fn view(m: &mut Model, fps_text: &str, out: &mut Vec<DrawCmd>)
    requires
        old(m)@.wf(),
    ensures
        cmd_views(final(out)@) == cmd_views(old(out)@) + clear_cmds(old(m)@) + frame_cmds(old(m)) + ui_cmds(
            old(m)@,
            fps_text@,
            byte_len(fps_text@),
        ),
        final(m)@ == old(m)@,
        final(m).current_frame == old(m).current_frame,
        ({
            let (cw, ch, x) = layout(old(m)@);
            match old(m).current_frame {
                Some(img) => if old(m)@.display_mode == DisplayMode::LowResBlock {
                    final(m).terminal_state.blocks@ == differential_spec(&old(m).terminal_state, old(m)@.needs_to_clear, &img, x, cw, ch).blocks
                } else {
                    final(m).terminal_state == old(m).terminal_state
                },
                None => final(m).terminal_state == old(m).terminal_state,
            }
        }),
{
    let ghost s = m@;
    let ghost out0 = cmd_views(out@);
    if m.needs_to_clear {
        out.push(DrawCmd::ClearAll);
        out.push(DrawCmd::Raw(string_of("\x1b_Ga=d,d=A\x1b\\")));
    }
    let ghost out1 = cmd_views(out@);
    proof {
        assert(out1 =~= out0 + clear_cmds(s));
        crate::laws::law_block_render_fits(s.cols, s.rows, s.meta);
    }
    let (render_w, render_h) = calculate_render_size(
        m.terminal_cols,
        m.terminal_rows,
        &m.video_metadata,
        DisplayMode::LowResBlock,
    );
    let char_w = render_w as u16;
    let char_h = (render_h / 2) as u16;
    let x_offset = m.terminal_cols.saturating_sub(char_w) / 2;
    let ui_start_row = char_h;
    assert((char_w, char_h, x_offset) == layout(s));
    match &m.current_frame {
        Some(img) => {
            if m.display_mode == DisplayMode::HighResPixel {
                render_kitty(img, x_offset, 0, char_w, char_h, out);
            } else {
                proof {
                    crate::view::lemma_area_fits(&m.terminal_state, m.needs_to_clear, img, x_offset, char_w, char_h);
                }
                render_differential(&mut m.terminal_state, m.needs_to_clear, out, img, x_offset, char_w, char_h);
            }
        },
        None => {},
    }
    let ghost out2 = cmd_views(out@);
    proof {
        assert(out2 =~= out1 + frame_cmds(old(m)));
    }
    push_ui(m, fps_text, out);
    proof {
        assert(cmd_views(out@) =~= out0 + clear_cmds(s) + frame_cmds(old(m)) + ui_cmds(s, fps_text@, byte_len(fps_text@)));
    }
}

/// Appends the status line at row `ch` (see `status_cmds`).
fn push_status(m: &Model, fps_text: &str, ch: u16, out: &mut Vec<DrawCmd>)
    requires
        m@.wf(),
    ensures
        cmd_views(final(out)@) == cmd_views(old(out)@) + status_cmds(m@, fps_text@, byte_len(fps_text@), ch),
{
    let ghost b = cmd_views(out@);
    let t = time_line(m);
    let used = t.as_str().len() as u128 + fps_text.len() as u128;
    let pad = if (m.terminal_cols as u128) > used { (m.terminal_cols as u128 - used) as usize } else { 0 };
    let ghost tv = t@;
    out.push(DrawCmd::MoveTo(0, ch));
    out.push(DrawCmd::Print(string_of(fps_text)));
    out.push(DrawCmd::Print(spaces_string(pad)));
    out.push(DrawCmd::Print(t));
    out.push(DrawCmd::MoveToNextLine(1));
    proof {
        assert(cmd_views(out@) =~= b + status_cmds(m@, fps_text@, byte_len(fps_text@), ch));
    }
}

/// Appends everything below the video area (see `ui_cmds`).
fn push_ui(m: &Model, fps_text: &str, out: &mut Vec<DrawCmd>)
    requires
        m@.wf(),
    ensures
        cmd_views(final(out)@) == cmd_views(old(out)@) + ui_cmds(m@, fps_text@, byte_len(fps_text@)),
{
    let ghost s = m@;
    let ghost out2 = cmd_views(out@);
    proof {
        crate::laws::law_block_render_fits(s.cols, s.rows, s.meta);
    }
    let (render_w, render_h) = calculate_render_size(
        m.terminal_cols,
        m.terminal_rows,
        &m.video_metadata,
        DisplayMode::LowResBlock,
    );
    let char_h = (render_h / 2) as u16;
    assert(char_h == layout(s).1);
    assert(render_h / 2 <= 65527);
    push_status(m, fps_text, char_h, out);
    let ghost out3 = cmd_views(out@);
    push_timeline(m, char_h + TIMELINE_ROW, out);
    let ghost out4 = cmd_views(out@);
    out.push(DrawCmd::MoveTo(0, char_h + 4));
    let ghost out45 = cmd_views(out@);
    push_info(m, out);
    let ghost out5 = cmd_views(out@);
    push_legend(m, out);
    let ghost out6 = cmd_views(out@);
    push_prompt(m, char_h, out);
    proof {
        assert(out45 =~= out4 + seq![DrawCmdView::MoveTo(0, (char_h + 4) as u16)]);
        lemma_append6(
            out2,
            status_cmds(s, fps_text@, byte_len(fps_text@), char_h),
            timeline_cmds(s, (char_h + TIMELINE_ROW) as u16),
            seq![DrawCmdView::MoveTo(0, (char_h + 4) as u16)],
            info_cmds(s),
            legend_cmds(s),
            prompt_cmds(s, char_h),
        );
    }
}

proof fn lemma_append6<A>(o: Seq<A>, a: Seq<A>, b: Seq<A>, c: Seq<A>, d: Seq<A>, e: Seq<A>, f: Seq<A>)
    ensures
        o + a + b + c + d + e + f == o + (a + b + c + d + e + f),
{
    assert(o + a + b + c + d + e + f =~= o + (a + b + c + d + e + f));
}

} // verus!
