//! Properties of the editor that span several operations.
use vstd::prelude::*;
use crate::model::{
    count_le, count_lt, elapsed_units, frame_len_units, included_spec, lemma_count_le, lemma_count_lt,
    max_frame, speed_quarters, strictly_sorted, DisplayMode, ModelView, VideoMetadata, UI_HEIGHT,
};
use crate::update::{
    adjust_speed_spec, calc_frames_spec, key_spec, playback_spec, seek_by_seconds_spec,
    toggle_marker_spec, toggle_segment_spec, KeyCode, KeyEvent, Playback,
};
use crate::view::render_size_spec;
use crate::update::SeekPoint;

verus! {

/// Adding a marker and removing it again (two marker toggles on the same
/// frame, starting where there is none) restores the markers and the
/// segments' inclusion flags.
pub proof fn law_marker_toggle_round_trip(s: ModelView)
    requires
        s.wf(),
        !s.markers.contains(s.frame),
    ensures
        toggle_marker_spec(toggle_marker_spec(s)).markers == s.markers,
        toggle_marker_spec(toggle_marker_spec(s)).segments == s.segments,
{
    lemma_count_lt(s.markers, s.frame as int);
    let p = count_lt(s.markers, s.frame as int) as int;
    if p < s.markers.len() && s.markers[p] == s.frame {
        assert(s.markers.contains(s.frame));
    }
    let t = toggle_marker_spec(s);
    assert(t.markers == s.markers.insert(p, s.frame));
    assert(t.markers[p] == s.frame);
    assert forall|i: int| 0 <= i < p implies t.markers[i] < s.frame by {
        assert(t.markers[i] == s.markers[i]);
    }
    assert forall|i: int| p <= i < t.markers.len() implies t.markers[i] >= s.frame by {
        if i > p {
            assert(t.markers[i] == s.markers[i - 1]);
        }
    }
    lemma_sorted_after_insert(s);
    crate::model::lemma_count_lt_unique(t.markers, s.frame as int, p);
    assert(t.markers.remove(p) =~= s.markers);
    assert(t.segments.remove(p + 1) =~= s.segments);
}

proof fn lemma_sorted_after_insert(s: ModelView)
    requires
        s.wf(),
        !s.markers.contains(s.frame),
    ensures
        strictly_sorted(toggle_marker_spec(s).markers),
{
    lemma_count_lt(s.markers, s.frame as int);
    let p = count_lt(s.markers, s.frame as int) as int;
    if p < s.markers.len() && s.markers[p] == s.frame {
        assert(s.markers.contains(s.frame));
    }
    let r = s.markers.insert(p, s.frame);
    assert forall|i: int, j: int| 0 <= i < j < r.len() implies r[i] < r[j] by {
        if j < p {
            assert(r[i] == s.markers[i] && r[j] == s.markers[j]);
        } else if j == p {
            assert(r[i] == s.markers[i]);
        } else if i < p {
            assert(r[i] == s.markers[i] && r[j] == s.markers[j - 1]);
        } else if i == p {
            assert(r[j] == s.markers[j - 1]);
            assert(s.markers[p] >= s.frame);
            if j - 1 > p {
                assert(s.markers[p] < s.markers[j - 1]);
            }
            assert(s.markers[p] != s.frame) by {
                if s.markers[p] == s.frame {
                    assert(s.markers.contains(s.frame));
                }
            }
        } else {
            assert(r[i] == s.markers[i - 1] && r[j] == s.markers[j - 1]);
        }
    }
}

/// Toggling the same segment twice restores every inclusion flag.
pub proof fn law_segment_toggle_involution(s: ModelView)
    requires
        s.wf(),
    ensures
        toggle_segment_spec(toggle_segment_spec(s).0).0.segments == s.segments,
{
    let t = toggle_segment_spec(s).0;
    let p = s.hover.position as int;
    if p < s.segments.len() {
        assert(t.segments == s.segments.update(p, !s.segments[p]));
        assert(t.hover.position == s.hover.position);
        assert(t.segments.update(p, !t.segments[p]) =~= s.segments);
    }
}

/// Seeking by any number of seconds leaves the playhead within the video.
pub proof fn law_seek_stays_in_video(s: ModelView, seconds: int)
    requires
        s.wf(),
    ensures
        seek_by_seconds_spec(s, seconds).0.frame <= max_frame(s.meta),
{
}

/// Raising the speed one preset and lowering it again restores the speed,
/// unless it was already the fastest preset.
pub proof fn law_speed_up_down(s: ModelView)
    requires
        s.wf(),
        s.speed_index + 1 < crate::model::NUM_SPEEDS,
    ensures
        adjust_speed_spec(adjust_speed_spec(s, true).0, false).0.speed_index == s.speed_index,
{
}

/// Frame timing loses no time: the frames counted plus the leftover drift
/// account exactly for the old drift plus the elapsed time.
pub proof fn law_frame_timing_conserves_time(s: ModelView, us: nat)
    requires
        s.wf(),
    ensures
        ({
            let (n, dr) = calc_frames_spec(s, us as int);
            n * frame_len_units(s.meta, speed_quarters(s.speed_index as int) as int) + dr
                == s.drift + elapsed_units(s.meta, us as int)
        }),
{
    let d = frame_len_units(s.meta, speed_quarters(s.speed_index as int) as int);
    let t = elapsed_units(s.meta, us as int);
    assert(480_000_000int / speed_quarters(s.speed_index as int) as int >= 60_000_000);
    assert(d > 0) by (nonlinear_arith)
        requires d == s.meta.fps_den * (480_000_000int / speed_quarters(s.speed_index as int) as int),
            s.meta.fps_den > 0, 480_000_000int / speed_quarters(s.speed_index as int) as int >= 60_000_000;
    assert(t >= 0) by (nonlinear_arith)
        requires t == us * s.meta.fps_num * 120;
    assert((t / d) * d + t % d == t && 0 <= t % d < d) by (nonlinear_arith)
        requires d > 0;
    assert((t / d + 1) * d == (t / d) * d + d) by (nonlinear_arith);
    assert(d <= s.meta.fps_den * 480_000_000int) by (nonlinear_arith)
        requires d == s.meta.fps_den * (480_000_000int / speed_quarters(s.speed_index as int) as int),
            s.meta.fps_den > 0, 480_000_000int / speed_quarters(s.speed_index as int) as int <= 480_000_000;
    assert(s.meta.fps_den * 480_000_000int <= 0xffff_ffffint * 480_000_000) by (nonlinear_arith)
        requires s.meta.fps_den <= 0xffff_ffff;
}

/// Playback only ever advances onto a frame of an included segment, and
/// reports the segment that holds it.
pub proof fn law_playback_skips_excluded(s: ModelView, us: nat)
    requires
        s.wf(),
    ensures
        playback_spec(s, us as int).2 matches Playback::Skip { target, segment, .. } ==> {
            &&& segment == s.segment_at(target as int)
            &&& included_spec(s.segments, segment as int)
            &&& target > s.frame
        },
{
    let d = frame_len_units(s.meta, speed_quarters(s.speed_index as int) as int);
    let t = elapsed_units(s.meta, us as int);
    assert(480_000_000int / speed_quarters(s.speed_index as int) as int >= 60_000_000);
    assert(d > 0) by (nonlinear_arith)
        requires d == s.meta.fps_den * (480_000_000int / speed_quarters(s.speed_index as int) as int),
            s.meta.fps_den > 0, 480_000_000int / speed_quarters(s.speed_index as int) as int >= 60_000_000;
    if us >= 0 {
        assert(t >= 0) by (nonlinear_arith)
            requires t == us * s.meta.fps_num * 120, us >= 0;
        assert(t / d >= 0) by (nonlinear_arith)
            requires t >= 0, d > 0;
    }
    lemma_count_le(s.markers, s.frame as int);
    if playback_spec(s, us as int).2 is Skip {
        let target = playback_spec(s, us as int).2->target;
        lemma_count_le(s.markers, target as int);
    }
}

/// While the exit prompt is open, a key other than y/Y/n/N/Esc changes
/// nothing and asks for nothing.
pub proof fn law_exit_prompt_ignores_keys(s: ModelView, k: KeyEvent)
    requires
        s.exit_prompt,
        k.code != KeyCode::Char('y'),
        k.code != KeyCode::Char('Y'),
        k.code != KeyCode::Char('n'),
        k.code != KeyCode::Char('N'),
        k.code != KeyCode::Esc,
    ensures
        key_spec(s, k).0 == s,
        key_spec(s, k).1 == Seq::<crate::update::Effect>::empty(),
        !key_spec(s, k).2.redraw,
{
}

/// A quit key followed by `n` closes the prompt again: playback stays paused
/// and the timeline is untouched.
pub proof fn law_quit_then_cancel(s: ModelView, q: KeyEvent, n: KeyEvent)
    requires
        s.wf(),
        !s.exit_prompt,
        q.code == KeyCode::Char('q'),
        n.code == KeyCode::Char('n'),
    ensures
        ({
            let t = key_spec(key_spec(s, q).0, n).0;
            &&& !t.exit_prompt
            &&& t.paused
            &&& t.markers == s.markers
            &&& t.segments == s.segments
            &&& t.frame == s.frame
        }),
{
}

/// In block mode the video fits the area above the UI: its width is at most
/// the terminal width, its height is even and at most twice the free rows.
pub proof fn law_block_render_fits(cols: u16, rows: u16, meta: VideoMetadata)
    requires
        meta.wf(),
    ensures
        ({
            let (w, h) = render_size_spec(cols, rows, meta, DisplayMode::LowResBlock);
            let rv: int = if rows >= UI_HEIGHT { rows - UI_HEIGHT } else { 0 };
            &&& 0 <= w <= cols
            &&& 0 <= h <= 2 * rv
            &&& h % 2 == 0
        }),
{
    let rv: int = if rows >= UI_HEIGHT { rows - UI_HEIGHT } else { 0 };
    let ph = 2 * rv;
    let pw = cols as int;
    let w = meta.width as int;
    let h = meta.height as int;
    if pw * h > ph * w {
        let rw = (2 * (ph * w) + h) / (2 * h);
        assert(0 <= rw <= pw) by (nonlinear_arith)
            requires pw * h > ph * w, h > 0, w > 0, ph >= 0, rw == (2 * (ph * w) + h) / (2 * h);
    } else {
        let half = (pw * h + w) / (2 * w);
        assert(0 <= half <= rv) by (nonlinear_arith)
            requires pw * h <= ph * w, w > 0, h > 0, pw >= 0, ph == 2 * rv, half == (pw * h + w) / (2 * w);
    }
}

} // verus!

verus! {

/// The differential renderer's progress after `k` cells: the first `k`
/// cache entries hold the frame's colors, the rest are untouched.
proof fn lemma_diff_run_blocks(
    init: crate::view::DiffProgress,
    img: &crate::view::Frame,
    clear: bool,
    x: u16,
    width: u16,
    n: nat,
    k: nat,
)
    requires
        width > 0,
        init.blocks.len() == n,
        k <= n,
    ensures
        ({
            let r = crate::view::diff_run(init, img, clear, x, width, k);
            &&& r.blocks.len() == n
            &&& forall|j: int| 0 <= j < k ==> r.blocks[j] == crate::view::cell_colors(img, j % (width as int), j / (width as int))
            &&& forall|j: int| k <= j < n ==> r.blocks[j] == init.blocks[j]
        }),
    decreases k,
{
    if k > 0 {
        lemma_diff_run_blocks(init, img, clear, x, width, n, (k - 1) as nat);
    }
}

/// After drawing a frame, the renderer's cache holds exactly the colors of
/// every cell of that frame.
pub proof fn law_differential_cache_matches_frame(
    state: &crate::view::TerminalState,
    clear: bool,
    img: &crate::view::Frame,
    x: u16,
    width: u16,
    height: u16,
)
    requires
        width > 0,
    ensures
        ({
            let r = crate::view::differential_spec(state, clear, img, x, width, height);
            &&& r.blocks.len() == width * height
            &&& forall|j: int| 0 <= j < width * height ==> r.blocks[j] == crate::view::cell_colors(img, j % (width as int), j / (width as int))
        }),
{
    let init = crate::view::DiffProgress {
        cmds: Seq::empty(),
        blocks: crate::view::diff_start_blocks(state, clear, width, height),
        fg: None,
        bg: None,
        moved: false,
    };
    lemma_diff_run_blocks(
        init,
        img,
        crate::view::diff_resets(state, clear, width, height),
        x,
        width,
        (width * height) as nat,
        (width * height) as nat,
    );
}

proof fn lemma_diff_run_quiet(
    init: crate::view::DiffProgress,
    img: &crate::view::Frame,
    x: u16,
    width: u16,
    n: nat,
    k: nat,
)
    requires
        width > 0,
        init.blocks.len() == n,
        k <= n,
        forall|j: int| 0 <= j < n ==> init.blocks[j] == crate::view::cell_colors(img, j % (width as int), j / (width as int)),
    ensures
        crate::view::diff_run(init, img, false, x, width, k).cmds == init.cmds,
        crate::view::diff_run(init, img, false, x, width, k).blocks == init.blocks,
    decreases k,
{
    if k > 0 {
        lemma_diff_run_quiet(init, img, x, width, n, (k - 1) as nat);
    }
}

/// Drawing the frame already on screen again (same size, no forced redraw)
/// prints no cell: only the closing color reset is emitted.
pub proof fn law_differential_redraw_is_quiet(
    state: &crate::view::TerminalState,
    img: &crate::view::Frame,
    x: u16,
    width: u16,
    height: u16,
)
    requires
        width > 0,
        state.width == width,
        state.blocks@.len() == width * height,
        forall|j: int| 0 <= j < width * height ==> state.blocks@[j] == crate::view::cell_colors(img, j % (width as int), j / (width as int)),
    ensures
        crate::view::differential_spec(state, false, img, x, width, height).cmds == seq![
            crate::view::DrawCmdView::SetForeground(crate::view::Color::Reset),
            crate::view::DrawCmdView::SetBackground(crate::view::Color::Reset),
        ],
{
    let init = crate::view::DiffProgress {
        cmds: Seq::empty(),
        blocks: state.blocks@,
        fg: None,
        bg: None,
        moved: false,
    };
    lemma_diff_run_quiet(init, img, x, width, (width * height) as nat, (width * height) as nat);
    assert(Seq::<crate::view::DrawCmdView>::empty() + seq![
        crate::view::DrawCmdView::SetForeground(crate::view::Color::Reset),
        crate::view::DrawCmdView::SetBackground(crate::view::Color::Reset),
    ] =~= seq![
        crate::view::DrawCmdView::SetForeground(crate::view::Color::Reset),
        crate::view::DrawCmdView::SetBackground(crate::view::Color::Reset),
    ]);
}

/// The included spans of a prefix of the timeline, when every segment is
/// included, are the whole prefix, and their lengths add up to the prefix's end.
proof fn lemma_all_included_total(s: ModelView, k: nat)
    requires
        s.wf(),
        1 <= k <= s.markers.len() + 1,
        forall|i: int| 0 <= i < s.segments.len() ==> s.segments[i],
    ensures
        crate::export::spans_with(crate::export::spans(s).take(k as int), true) == crate::export::spans(s).take(k as int),
        crate::export::total_len(s, crate::export::spans(s).take(k as int)) == crate::export::units(s, crate::export::span_at(s, k - 1).end),
    decreases k,
{
    let all = crate::export::spans(s);
    let t = all.take(k as int);
    assert(t.drop_last() =~= all.take(k - 1));
    assert(t.last() == crate::export::span_at(s, k - 1));
    assert(s.segments[k - 1]);
    assert(t.last().included);
    assert(crate::export::spans_with(t, true) == crate::export::spans_with(t.drop_last(), true).push(t.last()));
    assert(crate::export::total_len(s, t) == crate::export::total_len(s, t.drop_last()) + crate::export::units(s, t.last().end) - crate::export::units(s, t.last().start));
    if k == 1 {
        assert(crate::export::span_at(s, 0).start == SeekPoint::Frame(0));
        assert(crate::export::units(s, SeekPoint::Frame(0)) == 0) by (nonlinear_arith);
        assert(all.take(0) =~= Seq::<crate::export::Span>::empty());
        assert(crate::export::spans_with(Seq::<crate::export::Span>::empty(), true) == Seq::<crate::export::Span>::empty());
        assert(crate::export::total_len(s, Seq::<crate::export::Span>::empty()) == 0);
        assert(Seq::<crate::export::Span>::empty().push(t.last()) =~= t);
    } else {
        lemma_all_included_total(s, (k - 1) as nat);
        assert(crate::export::span_at(s, k - 1).start == crate::export::span_at(s, k - 2).end);
        assert(all.take(k - 1).push(t.last()) =~= t);
    }
}

/// When every segment is included and single-file output is selected, an
/// export would reproduce the input and is skipped.
pub proof fn law_export_all_included_single_is_identity(s: ModelView)
    requires
        s.wf(),
        s.single_output,
        forall|i: int| 0 <= i < s.segments.len() ==> s.segments[i],
    ensures
        crate::export::plan_spec(s) is SameAsInput,
{
    let k = (s.markers.len() + 1) as nat;
    lemma_all_included_total(s, k);
    assert(crate::export::spans(s).take(k as int) =~= crate::export::spans(s));
    assert(s.segments[0]);
}

} // verus!

verus! {

/// The first `k` chunks of a payload are its first `4096 * k` characters
/// (all of it once `k` reaches the number of chunks).
proof fn lemma_payloads_prefix(b: Seq<char>, k: nat)
    requires
        k <= crate::kitty::num_chunks(b.len()),
    ensures
        crate::kitty::payloads(b, k) == b.take(crate::kitty::chunk_end(b.len(), k - 1)),
        k == 0 ==> crate::kitty::payloads(b, k) == Seq::<char>::empty(),
    decreases k,
{
    if k > 0 {
        lemma_payloads_prefix(b, (k - 1) as nat);
        assert(4096 * (k - 1) < b.len()) by (nonlinear_arith)
            requires k <= (b.len() + 4095) / 4096, k >= 1;
        if k == 1 {
            assert(b.take(0) =~= Seq::<char>::empty());
        } else {
            assert(crate::kitty::chunk_end(b.len(), k - 2) == 4096 * (k - 1));
        }
        assert(crate::kitty::payloads(b, k) =~= b.take(crate::kitty::chunk_end(b.len(), k - 1)));
    }
}

/// Sending a frame in Kitty chunks loses nothing: the chunks' payloads, in
/// order, are the frame's base64 encoding, each chunk carries between 1 and
/// 4096 characters, and only the last one says no more follow.
pub proof fn law_kitty_chunks_reassemble(b: Seq<char>)
    ensures
        crate::kitty::payloads(b, crate::kitty::num_chunks(b.len())) == b,
        forall|j: int| 0 <= j < crate::kitty::num_chunks(b.len()) ==> {
            &&& 1 <= #[trigger] crate::kitty::chunk_payload(b, j).len() <= 4096
            &&& (crate::kitty::chunk_end(b.len(), j) == b.len() <==> j == crate::kitty::num_chunks(b.len()) - 1)
        },
{
    let n = crate::kitty::num_chunks(b.len());
    lemma_payloads_prefix(b, n);
    if n > 0 {
        assert(4096 * (n - 1) < b.len() <= 4096 * n) by (nonlinear_arith)
            requires n == (b.len() + 4095) / 4096, n >= 1;
        assert(b.take(b.len() as int) =~= b);
    } else {
        assert(b.len() == 0);
        assert(b =~= Seq::<char>::empty());
    }
    assert forall|j: int| 0 <= j < n implies {
        &&& 1 <= #[trigger] crate::kitty::chunk_payload(b, j).len() <= 4096
        &&& (crate::kitty::chunk_end(b.len(), j) == b.len() <==> j == n - 1)
    } by {
        assert(4096 * j < b.len()) by (nonlinear_arith)
            requires 0 <= j < n, n == (b.len() + 4095) / 4096;
        if j < n - 1 {
            assert(4096 * j + 4096 < b.len()) by (nonlinear_arith)
                requires 0 <= j < n - 1, n == (b.len() + 4095) / 4096;
        } else {
            assert(b.len() <= 4096 * j + 4096) by (nonlinear_arith)
                requires j == n - 1, n == (b.len() + 4095) / 4096;
        }
    }
}

} // verus!

verus! {

/// Number of half blocks that `cmds` print.
pub open spec fn half_blocks(cmds: Seq<crate::view::DrawCmdView>) -> nat
    decreases cmds.len(),
{
    if cmds.len() == 0 {
        0
    } else {
        half_blocks(cmds.drop_last()) + if cmds.last() is UpperHalfBlock { 1nat } else { 0nat }
    }
}

/// Number of the first `k` cells (row-major, `width` per row) whose colors
/// in `img` differ from the cached `blocks`.
pub open spec fn changed_cells(blocks: Seq<(crate::view::Rgb, crate::view::Rgb)>, img: &crate::view::Frame, width: u16, k: nat) -> nat
    decreases k,
{
    if k == 0 {
        0
    } else {
        changed_cells(blocks, img, width, (k - 1) as nat) + if blocks[k - 1] != crate::view::cell_colors(
            img,
            (k - 1) % (width as int),
            (k - 1) / (width as int),
        ) {
            1nat
        } else {
            0nat
        }
    }
}

proof fn lemma_half_blocks_append(a: Seq<crate::view::DrawCmdView>, b: Seq<crate::view::DrawCmdView>)
    ensures
        half_blocks(a + b) == half_blocks(a) + half_blocks(b),
    decreases b.len(),
{
    if b.len() == 0 {
        assert(a + b =~= a);
    } else {
        lemma_half_blocks_append(a, b.drop_last());
        assert((a + b).drop_last() =~= a + b.drop_last());
        assert((a + b).last() == b.last());
    }
}

proof fn lemma_half_blocks_single(c: crate::view::DrawCmdView)
    ensures
        half_blocks(seq![c]) == if c is UpperHalfBlock { 1nat } else { 0nat },
{
    assert(seq![c].drop_last() =~= Seq::<crate::view::DrawCmdView>::empty());
    assert(half_blocks(Seq::<crate::view::DrawCmdView>::empty()) == 0);
}

/// After `k` cells the renderer has printed one half block per visited cell
/// when clearing, and otherwise one per visited cell that changed.
proof fn lemma_diff_run_half_blocks(
    init: crate::view::DiffProgress,
    img: &crate::view::Frame,
    clear: bool,
    x: u16,
    width: u16,
    n: nat,
    k: nat,
)
    requires
        width > 0,
        init.blocks.len() == n,
        k <= n,
    ensures
        half_blocks(crate::view::diff_run(init, img, clear, x, width, k).cmds) == half_blocks(init.cmds) + if clear {
            k
        } else {
            changed_cells(init.blocks, img, width, k)
        },
    decreases k,
{
    if k > 0 {
        let km = (k - 1) as nat;
        lemma_diff_run_half_blocks(init, img, clear, x, width, n, km);
        lemma_diff_run_blocks(init, img, clear, x, width, n, km);
        let p = crate::view::diff_run(init, img, clear, x, width, km);
        let row = (km as int) / (width as int);
        let col = (km as int) % (width as int);
        let moved = if col == 0 { false } else { p.moved };
        let (t, b) = crate::view::cell_colors(img, col, row);
        assert(p.blocks[km as int] == init.blocks[km as int]);
        if clear || p.blocks[km as int] != (t, b) {
            let c1 = if !moved {
                seq![crate::view::DrawCmdView::MoveTo((x + col) as u16, row as u16)]
            } else {
                Seq::empty()
            };
            let c2 = if p.fg != Some(t) { seq![crate::view::DrawCmdView::SetForeground(crate::view::Color::Rgb(t))] } else { Seq::empty() };
            let c3 = if p.bg != Some(b) { seq![crate::view::DrawCmdView::SetBackground(crate::view::Color::Rgb(b))] } else { Seq::empty() };
            let tail = c1 + c2 + c3 + seq![crate::view::DrawCmdView::UpperHalfBlock];
            assert(p.cmds + c1 + c2 + c3 + seq![crate::view::DrawCmdView::UpperHalfBlock] =~= p.cmds + tail);
            lemma_half_blocks_append(p.cmds, tail);
            assert(half_blocks(Seq::<crate::view::DrawCmdView>::empty()) == 0);
            lemma_half_blocks_single(crate::view::DrawCmdView::MoveTo((x + col) as u16, row as u16));
            lemma_half_blocks_single(crate::view::DrawCmdView::SetForeground(crate::view::Color::Rgb(t)));
            lemma_half_blocks_single(crate::view::DrawCmdView::SetBackground(crate::view::Color::Rgb(b)));
            lemma_half_blocks_single(crate::view::DrawCmdView::UpperHalfBlock);
            lemma_half_blocks_append(c1, c2);
            lemma_half_blocks_append(c1 + c2, c3);
            lemma_half_blocks_append(c1 + c2 + c3, seq![crate::view::DrawCmdView::UpperHalfBlock]);
        }
    }
}

/// The differential renderer prints exactly one half block per cell whose
/// colors differ from what its cache says is on screen, and one per cell
/// when a full redraw is requested or the cache does not match the area
/// (and is recreated).
pub proof fn law_differential_prints_changed_cells(
    state: &crate::view::TerminalState,
    clear: bool,
    img: &crate::view::Frame,
    x: u16,
    width: u16,
    height: u16,
)
    requires
        width > 0,
    ensures
        half_blocks(crate::view::differential_spec(state, clear, img, x, width, height).cmds) == if crate::view::diff_resets(
            state,
            clear,
            width,
            height,
        ) {
            (width * height) as nat
        } else {
            changed_cells(state.blocks@, img, width, (width * height) as nat)
        },
{
    let n = (width * height) as nat;
    let init = crate::view::DiffProgress {
        cmds: Seq::empty(),
        blocks: crate::view::diff_start_blocks(state, clear, width, height),
        fg: None,
        bg: None,
        moved: false,
    };
    let redraw = crate::view::diff_resets(state, clear, width, height);
    lemma_diff_run_half_blocks(init, img, redraw, x, width, n, n);
    let r = crate::view::diff_run(init, img, redraw, x, width, n);
    let reset = seq![
        crate::view::DrawCmdView::SetForeground(crate::view::Color::Reset),
        crate::view::DrawCmdView::SetBackground(crate::view::Color::Reset),
    ];
    lemma_half_blocks_append(r.cmds, reset);
    lemma_half_blocks_single(crate::view::DrawCmdView::SetForeground(crate::view::Color::Reset));
    lemma_half_blocks_single(crate::view::DrawCmdView::SetBackground(crate::view::Color::Reset));
    lemma_half_blocks_append(
        seq![crate::view::DrawCmdView::SetForeground(crate::view::Color::Reset)],
        seq![crate::view::DrawCmdView::SetBackground(crate::view::Color::Reset)],
    );
    assert(seq![crate::view::DrawCmdView::SetForeground(crate::view::Color::Reset)]
        + seq![crate::view::DrawCmdView::SetBackground(crate::view::Color::Reset)] =~= reset);
    assert(half_blocks(Seq::<crate::view::DrawCmdView>::empty()) == 0);
}

} // verus!

verus! {

/// Drawing a frame and then drawing the same frame again, at the same place
/// and size, from the cache the first draw left and without a forced
/// redraw: the second draw is always allowed (no cursor move can leave the
/// `u16` columns), prints nothing but the closing color reset, and leaves
/// the cache as it was.
pub proof fn law_differential_second_draw_is_quiet(
    state: &crate::view::TerminalState,
    clear: bool,
    after: &crate::view::TerminalState,
    img: &crate::view::Frame,
    x: u16,
    width: u16,
    height: u16,
)
    requires
        after.width == width,
        after.blocks@ == crate::view::differential_spec(state, clear, img, x, width, height).blocks,
    ensures
        !crate::view::diff_resets(after, false, width, height),
        crate::view::diff_moves_fit(after, false, img, x, width, height),
        crate::view::differential_spec(after, false, img, x, width, height).cmds == seq![
            crate::view::DrawCmdView::SetForeground(crate::view::Color::Reset),
            crate::view::DrawCmdView::SetBackground(crate::view::Color::Reset),
        ],
        crate::view::differential_spec(after, false, img, x, width, height).blocks == after.blocks@,
{
    let n = (width * height) as nat;
    let init2 = crate::view::diff_init(after, false, width, height);
    if width == 0 {
        assert(n == 0);
        let init = crate::view::diff_init(state, clear, width, height);
        assert(crate::view::diff_run(init, img, clear, x, width, 0) == init);
        assert(after.blocks@.len() == 0);
        assert(init2.blocks == after.blocks@);
        assert(crate::view::diff_run(init2, img, false, x, width, 0) == init2);
        assert(Seq::<crate::view::DrawCmdView>::empty() + seq![
            crate::view::DrawCmdView::SetForeground(crate::view::Color::Reset),
            crate::view::DrawCmdView::SetBackground(crate::view::Color::Reset),
        ] =~= seq![
            crate::view::DrawCmdView::SetForeground(crate::view::Color::Reset),
            crate::view::DrawCmdView::SetBackground(crate::view::Color::Reset),
        ]);
    } else {
        law_differential_cache_matches_frame(state, clear, img, x, width, height);
        assert(init2.blocks == after.blocks@);
        law_differential_redraw_is_quiet(after, img, x, width, height);
        lemma_diff_run_quiet(init2, img, x, width, n, n);
        assert forall|k: int| 0 <= k < width * height implies #[trigger] crate::view::move_fits(
            crate::view::diff_run(init2, img, false, x, width, k as nat),
            img,
            false,
            x,
            width,
            k,
        ) by {
            lemma_diff_run_quiet(init2, img, x, width, n, k as nat);
        }
    }
}

} // verus!

verus! {

/// Looking for where playback continues after segment `seg` finds the first
/// included segment after it: every segment strictly between is excluded,
/// and the playhead goes to the marker that starts it. When there is none,
/// every later segment is excluded.
pub proof fn law_next_included_is_first(markers: Seq<u32>, segs: Seq<bool>, seg: int)
    requires
        segs.len() == markers.len() + 1,
        segs.len() <= usize::MAX,
        0 <= seg,
    ensures
        match crate::model::next_included_spec(markers, segs, seg) {
            Some((j, start)) => {
                &&& seg < j < segs.len()
                &&& segs[j as int]
                &&& forall|k: int| seg < k < j ==> !segs[k]
                &&& start == markers[j - 1]
            },
            None => forall|k: int| seg < k < segs.len() ==> !segs[k],
        },
{
    if exists|j: int| seg < j < segs.len() && 1 <= j <= markers.len() && segs[j] {
        let w = choose|j: int| seg < j < segs.len() && 1 <= j <= markers.len() && segs[j];
        lemma_first_included(segs, seg, w);
        let j0 = choose|j: int| seg < j <= w && segs[j] && forall|k: int| seg < k < j ==> !segs[k];
        assert(seg < j0 < segs.len() && 1 <= j0 <= markers.len() && segs[j0] && forall|k: int|
            seg < k < j0 ==> !segs[k]);
        let c = choose|j: int|
            seg < j < segs.len() && 1 <= j <= markers.len() && segs[j] && forall|k: int|
                seg < k < j ==> !segs[k];
        if c < j0 {
            assert(!segs[c]);
        }
        if c > j0 {
            assert(!segs[j0]);
        }
    } else {
        assert forall|k: int| seg < k < segs.len() implies !segs[k] by {
            if segs[k] {
                assert(seg < k < segs.len() && 1 <= k <= markers.len() && segs[k]);
            }
        }
    }
}

/// Below an included segment `w` after `seg` there is a first one.
proof fn lemma_first_included(segs: Seq<bool>, seg: int, w: int)
    requires
        0 <= seg < w < segs.len(),
        segs[w],
    ensures
        exists|j: int| seg < j <= w && segs[j] && forall|k: int| seg < k < j ==> !segs[k],
    decreases w - seg,
{
    if exists|k: int| seg < k < w && segs[k] {
        let k = choose|k: int| seg < k < w && segs[k];
        lemma_first_included(segs, seg, k);
    } else {
        assert(seg < w <= w && segs[w] && forall|k: int| seg < k < w ==> !segs[k]);
    }
}

/// When playback reaches an excluded segment and jumps, it restarts (still
/// playing) at the start of the first included segment after the one the
/// target frame lies in; no included segment is skipped.
#[verifier::rlimit(60)]
pub proof fn law_playback_jump_lands_on_next_included(s: ModelView, us: nat)
    requires
        s.wf(),
        playback_spec(s, us as int).2 is Jumped,
    ensures
        ({
            let n = calc_frames_spec(s, us as int).0;
            let target = s.frame + n;
            let seg = count_le(s.markers, target);
            exists|j: int|
                #![trigger s.segments[j]]
                {
                    &&& seg < j < s.segments.len()
                    &&& s.segments[j]
                    &&& forall|k: int| seg < k < j ==> !s.segments[k]
                    &&& playback_spec(s, us as int).1 == seq![
                        crate::update::Effect::Seek { to: SeekPoint::Frame(s.markers[j - 1]), paused: false },
                    ]
                }
        }),
{
    let (n, dr) = calc_frames_spec(s, us as int);
    let d = frame_len_units(s.meta, speed_quarters(s.speed_index as int) as int);
    let t = elapsed_units(s.meta, us as int);
    assert(480_000_000int / speed_quarters(s.speed_index as int) as int >= 60_000_000);
    assert(d > 0) by (nonlinear_arith)
        requires d == s.meta.fps_den * (480_000_000int / speed_quarters(s.speed_index as int) as int),
            s.meta.fps_den > 0, 480_000_000int / speed_quarters(s.speed_index as int) as int >= 60_000_000;
    assert(t >= 0) by (nonlinear_arith)
        requires t == us * s.meta.fps_num * 120, us >= 0;
    assert(t / d >= 0) by (nonlinear_arith)
        requires t >= 0, d > 0;
    assert(n >= 0);
    assert(!s.paused && n != 0 && s.frame + n <= u32::MAX);
    let target = (s.frame + n) as u32;
    assert(target == s.frame + n);
    let seg = s.segment_at(target as int);
    assert(!included_spec(s.segments, seg as int));
    lemma_count_le(s.markers, target as int);
    law_next_included_is_first(s.markers, s.segments, seg as int);
    let r = crate::model::next_included_spec(s.markers, s.segments, seg as int);
    assert(r is Some);
    let (j, start) = r->0;
    assert(s.segments[j as int]);
    assert(playback_spec(s, us as int).1 == seq![
        crate::update::Effect::Seek { to: SeekPoint::Frame(s.markers[j - 1]), paused: false },
    ]);
    assert(seg < j < s.segments.len() && forall|k: int| seg < k < j ==> !s.segments[k]);
}

} // verus!

verus! {

/// Toggling the marker at the playhead, where `p` is the place of the
/// playhead's frame among the sorted markers (all before it are earlier,
/// all from it on are not). If a marker sits on the frame (index `p`), it is
/// removed, segments `p` and `p + 1` merge keeping segment `p`'s flag, and
/// the merged segment `p` is hovered. Otherwise a marker is added at `p`,
/// segment `p` splits into two with its flag, and the hover moves on to
/// segment `p` if it was before it.
pub proof fn law_toggle_marker_effect(s: ModelView, p: int)
    requires
        s.wf(),
        0 <= p <= s.markers.len(),
        forall|i: int| 0 <= i < p ==> s.markers[i] < s.frame,
        forall|i: int| p <= i < s.markers.len() ==> s.markers[i] >= s.frame,
    ensures
        ({
            let t = toggle_marker_spec(s);
            if p < s.markers.len() && s.markers[p] == s.frame {
                &&& t.markers == s.markers.remove(p)
                &&& t.segments == s.segments.remove(p + 1)
                &&& t.hover == (crate::model::Hovering { mode: crate::model::HoverMode::Segments, position: p as usize })
            } else {
                &&& t.markers == s.markers.insert(p, s.frame)
                &&& t.segments == s.segments.insert(p, s.segments[p])
                &&& t.hover == (crate::model::Hovering {
                    mode: crate::model::HoverMode::Segments,
                    position: if s.hover.position >= p { s.hover.position } else { p as usize },
                })
            }
        }),
{
    crate::model::lemma_count_lt_unique(s.markers, s.frame as int, p);
    if !(p < s.markers.len() && s.markers[p] == s.frame) {
        assert(!s.markers.contains(s.frame)) by {
            if s.markers.contains(s.frame) {
                let i = choose|i: int| 0 <= i < s.markers.len() && s.markers[i] == s.frame;
                if i > p {
                    assert(s.markers[p] < s.markers[i]);
                }
            }
        }
        lemma_sorted_after_insert(s);
        let m2 = s.markers.insert(p, s.frame);
        assert forall|i: int| 0 <= i < p implies m2[i] < s.frame by {
            assert(m2[i] == s.markers[i]);
        }
        assert forall|i: int| p <= i < m2.len() implies m2[i] >= s.frame by {
            if i > p {
                assert(m2[i] == s.markers[i - 1]);
            }
        }
        crate::model::lemma_count_lt_unique(m2, s.frame as int, p);
    }
}

} // verus!

verus! {

/// An export is skipped as identical to the input only when what is kept
/// covers the video, within a millisecond: a single included segment from
/// the start to the end, or (with single-file output) included segments
/// whose lengths add up to the video's length. A single included segment
/// that stops a millisecond or more before the end is written out, in the
/// output mode selected.
pub proof fn law_export_identity_needs_full_cover(s: ModelView)
    requires
        s.wf(),
    ensures
        ({
            let inc = crate::export::spans_with(crate::export::spans(s), true);
            let end = s.meta.duration_us * s.meta.fps_num;
            let eps = 1000 * s.meta.fps_num;
            let plan = crate::export::plan_spec(s);
            &&& plan == (crate::export::PlanKind::SameAsInput { single_hint: false }) ==> {
                &&& inc.len() == 1
                &&& crate::export::units(s, inc[0].start) < eps
                &&& end - eps < crate::export::units(s, inc[0].end) < end + eps
            }
            &&& plan == (crate::export::PlanKind::SameAsInput { single_hint: true }) ==> {
                &&& s.single_output
                &&& end - eps < crate::export::total_len(s, inc) < end + eps
            }
            &&& plan matches crate::export::PlanKind::Export { single } ==> single == s.single_output && inc.len() >= 1
            &&& (!s.single_output && inc.len() == 1 && !(s.markers.len() == 0 && !s.segments[0])
                && crate::export::units(s, inc[0].end) <= end - eps) ==> plan == (crate::export::PlanKind::Export {
                single: false,
            })
        }),
{
}

} // verus!

verus! {

/// The time text of `m` minutes and `ss` seconds (`ss < 60`, `m` within
/// `u32`) is `m` in decimal, a colon, and `ss` as two digits.
pub proof fn law_fmt_time_minutes_seconds(m: nat, ss: nat)
    requires
        ss < 60,
        m <= u32::MAX,
    ensures
        crate::screen::fmt_time_spec((60 * m + ss) as int) == crate::text::decimal(m) + seq![
            ':',
            crate::text::digit_char((ss / 10) as int),
            crate::text::digit_char((ss % 10) as int),
        ],
{
    let t = 60 * m + ss;
    vstd::arithmetic::div_mod::lemma_fundamental_div_mod_converse(t as int, 60, m as int, ss as int);
    assert(t / 60 == m && t % 60 == ss);
    reveal_with_fuel(crate::text::decimal, 2);
    reveal_strlit(":");
    reveal_strlit("0");
    assert(crate::text::digit_char(0) == '0');
    assert(crate::model::sat_u32((t / 60) as int) == m);
    if ss < 10 {
        assert(crate::text::decimal(ss) == seq![crate::text::digit_char(ss as int)]);
    } else {
        assert(crate::text::decimal(ss / 10) == seq![crate::text::digit_char((ss / 10) as int)]);
        assert(crate::text::decimal(ss) == crate::text::decimal(ss / 10).push(crate::text::digit_char((ss % 10) as int)));
    }
    assert(crate::screen::fmt_time_spec(t as int) =~= crate::text::decimal(m) + seq![
        ':',
        crate::text::digit_char((ss / 10) as int),
        crate::text::digit_char((ss % 10) as int),
    ]);
}

} // verus!

verus! {

/// `round_div(a, b)` is the whole number nearest to `a / b` (when not a tie).
proof fn lemma_round_div_nearest(a: int, b: int, r: int)
    requires
        b > 0,
        2 * r * b - b < 2 * a < 2 * r * b + b,
    ensures
        crate::model::round_div(a, b) == r,
{
    let x = 2 * a + b;
    assert(2 * b * r <= x < 2 * b * r + 2 * b) by (nonlinear_arith)
        requires 2 * r * b - b < 2 * a < 2 * r * b + b, x == 2 * a + b;
    assert(r * (2 * b) == 2 * b * r) by (nonlinear_arith);
    vstd::arithmetic::div_mod::lemma_fundamental_div_mod_converse(x, 2 * b, r, x - 2 * b * r);
}

/// Seeking by `seconds` moves the playhead by `r` frames, `r` being
/// `seconds * fps` rounded to the nearest whole number, and keeps it within
/// the video: before the start it stops at frame 0, past the last frame at
/// the last frame. Decoding restarts at that frame, paused or playing as
/// before.
pub proof fn law_seek_by_seconds_moves_by_rounded_frames(s: ModelView, seconds: int, r: int)
    requires
        s.wf(),
        -(s.meta.fps_den as int) < 2 * (r * s.meta.fps_den - seconds * s.meta.fps_num) < s.meta.fps_den,
        i32::MIN <= r <= i32::MAX,
    ensures
        ({
            let (t, e) = seek_by_seconds_spec(s, seconds);
            let target = s.frame + r;
            let last = max_frame(s.meta) as int;
            &&& t.frame == (if target < 0 { 0 } else if target > last { last } else { target })
            &&& e == seq![crate::update::Effect::Seek { to: SeekPoint::Frame(t.frame), paused: s.paused }]
        }),
{
    let a = seconds * s.meta.fps_num;
    let b = s.meta.fps_den as int;
    if seconds >= 0 {
        assert(2 * r * b - b < 2 * a < 2 * r * b + b) by (nonlinear_arith)
            requires -b < 2 * (r * b - a) < b;
        lemma_round_div_nearest(a, b, r);
    } else {
        assert(-seconds * s.meta.fps_num == -a) by (nonlinear_arith)
            requires a == seconds * s.meta.fps_num;
        assert(2 * (-r) * b - b < 2 * (-a) < 2 * (-r) * b + b) by (nonlinear_arith)
            requires -b < 2 * (r * b - a) < b;
        lemma_round_div_nearest(-a, b, -r);
    }
    assert(crate::model::frames_for_seconds(s.meta, seconds) == r);
}

} // verus!

verus! {

/// The whole seconds shown for frame `f` are the `t` with
/// `t <= f / fps < t + 1`.
pub proof fn law_frame_seconds_floor(meta: VideoMetadata, f: nat)
    requires
        meta.wf(),
    ensures
        ({
            let t = crate::model::frame_seconds(meta, f as int);
            &&& t * meta.fps_num <= f * meta.fps_den
            &&& f * meta.fps_den < (t + 1) * meta.fps_num
        }),
{
    let a = f * meta.fps_den;
    let n = meta.fps_num as int;
    vstd::arithmetic::div_mod::lemma_fundamental_div_mod(a as int, n);
    let t = a / n;
    assert(t * n <= a < (t + 1) * n) by (nonlinear_arith)
        requires a == n * (a / n) + a % n, 0 <= a % n < n, t == a / n, n > 0;
}

} // verus!
