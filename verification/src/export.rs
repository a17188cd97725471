//! Deciding what to export: which timeline segments are written out, and
//! when an export would only reproduce the input.
//!
//! Times are compared exactly in units of `1 / (fps_num * 1_000_000)` of a
//! second, where frame `f` starts at `f * fps_den * 1_000_000` and the video
//! ends at `duration_us * fps_num`.
use vstd::prelude::*;
use crate::model::{Model, ModelView, included_spec, strictly_sorted};
use crate::text::{decimal, push_char, push_decimal, push_str};
use crate::update::SeekPoint;

verus! {

/// One segment of the timeline: from the start of the video or a marker to
/// the next marker or the end.
#[derive(Clone, Copy, PartialEq, Eq, Structural, Debug)]
pub struct Span {
    /// Segment index.
    pub index: usize,
    pub start: SeekPoint,
    pub end: SeekPoint,
    /// Whether the segment is marked for export (a missing flag counts as excluded).
    pub included: bool,
}

/// What an export does.
#[derive(Clone, Copy, PartialEq, Eq, Structural, Debug)]
pub enum PlanKind {
    /// No marker, and the whole video is excluded: nothing is listed or written.
    NothingMarked,
    /// No segment is included: nothing is written.
    NothingIncluded,
    /// The output would equal the input (`single_hint`: because the included
    /// segments cover the video and single output is selected).
    SameAsInput { single_hint: bool },
    /// Write the included segments, concatenated into one file or one file each.
    Export { single: bool },
}

/// An export decision, with the segments it lists.
pub struct ExportPlan {
    pub kind: PlanKind,
    /// The included segments, in order.
    pub included: Vec<Span>,
    /// The excluded segments, in order.
    pub excluded: Vec<Span>,
}

/// Segment `i` of the timeline.
pub open spec fn span_at(s: ModelView, i: int) -> Span {
    Span {
        index: i as usize,
        start: if i == 0 { SeekPoint::Frame(0) } else { SeekPoint::Frame(s.markers[i - 1]) },
        end: if i == s.markers.len() { SeekPoint::Micros(s.meta.duration_us) } else { SeekPoint::Frame(s.markers[i]) },
        included: 0 <= i < s.segments.len() && s.segments[i],
    }
}

/// All segments of the timeline, in order.
pub open spec fn spans(s: ModelView) -> Seq<Span> {
    Seq::new((s.markers.len() + 1) as nat, |i: int| span_at(s, i))
}

/// The spans with the given inclusion flag, in order.
pub open spec fn spans_with(sp: Seq<Span>, included: bool) -> Seq<Span>
    decreases sp.len(),
{
    if sp.len() == 0 {
        Seq::empty()
    } else {
        let r = spans_with(sp.drop_last(), included);
        if sp.last().included == included { r.push(sp.last()) } else { r }
    }
}

/// A time in exact units.
pub open spec fn units(s: ModelView, p: SeekPoint) -> int {
    match p {
        SeekPoint::Frame(f) => f * s.meta.fps_den * 1_000_000,
        SeekPoint::Micros(us) => us * s.meta.fps_num,
    }
}

/// Total length of the spans in exact units.
pub open spec fn total_len(s: ModelView, sp: Seq<Span>) -> int
    decreases sp.len(),
{
    if sp.len() == 0 {
        0
    } else {
        total_len(s, sp.drop_last()) + units(s, sp.last().end) - units(s, sp.last().start)
    }
}

/// The tolerance for "same time": one millisecond in exact units.
pub open spec fn epsilon(s: ModelView) -> int {
    1000 * s.meta.fps_num
}

pub open spec fn abs(x: int) -> int {
    if x < 0 { -x } else { x }
}

/// The export decision for a state.
pub open spec fn plan_spec(s: ModelView) -> PlanKind {
    let inc = spans_with(spans(s), true);
    let end = units(s, SeekPoint::Micros(s.meta.duration_us));
    if s.markers.len() == 0 && !included_spec(s.segments, 0) {
        PlanKind::NothingMarked
    } else if inc.len() == 0 {
        PlanKind::NothingIncluded
    } else if inc.len() == 1 && units(s, inc[0].start) < epsilon(s) && abs(units(s, inc[0].end) - end)
        < epsilon(s) {
        PlanKind::SameAsInput { single_hint: false }
    } else if abs(total_len(s, inc) - end) < epsilon(s) && s.single_output {
        PlanKind::SameAsInput { single_hint: true }
    } else {
        PlanKind::Export { single: s.single_output }
    }
}

/// A frame's start in exact units.
fn frame_units(den: u32, f: u32) -> (r: i128)
    ensures
        r == f * den * 1_000_000,
        0 <= r <= 0xffff_ffffint * 0xffff_ffffint * 1_000_000,
{
    let a = f as i128;
    let b = den as i128;
    assert(a * b <= 0xffff_ffffint * 0xffff_ffffint) by (nonlinear_arith)
        requires 0 <= a <= 0xffff_ffff, 0 <= b <= 0xffff_ffff;
    assert(a * b >= 0) by (nonlinear_arith)
        requires 0 <= a, 0 <= b;
    a * b * 1_000_000
}

/// A point's time in exact units.
fn point_units(m: &Model, p: SeekPoint) -> (r: i128)
    ensures
        r == units(m@, p),
        0 <= r <= 0xffff_ffff_ffff_ffffint * 0xffff_ffffint,
{
    match p {
        SeekPoint::Frame(f) => frame_units(m.video_metadata.fps_den, f),
        SeekPoint::Micros(us) => {
            let a = us as i128;
            let b = m.video_metadata.fps_num as i128;
            assert(a * b <= 0xffff_ffff_ffff_ffffint * 0xffff_ffffint) by (nonlinear_arith)
                requires 0 <= a <= 0xffff_ffff_ffff_ffff, 0 <= b <= 0xffff_ffff;
            assert(a * b >= 0) by (nonlinear_arith)
                requires 0 <= a, 0 <= b;
            a * b
        },
    }
}

/// Lists the segments and decides the export (see `plan_spec`).
pub fn plan_export(m: &Model) -> (p: ExportPlan)
    requires
        m@.wf(),
    ensures
        p.kind == plan_spec(m@),
        p.included@ == spans_with(spans(m@), true),
        p.excluded@ == spans_with(spans(m@), false),
{
    let ghost s = m@;
    let n = m.markers.len();
    let mut included: Vec<Span> = Vec::new();
    let mut excluded: Vec<Span> = Vec::new();
    let mut total: i128 = 0;
    let ghost all = spans(s);
    let mut i: usize = 0;
    proof {
        assert(all.take(0) =~= Seq::<Span>::empty());
    }
    while i <= n
        invariant
            n == s.markers.len(),
            s == m@,
            s.wf(),
            all == spans(s),
            i <= n + 1,
            included@ == spans_with(all.take(i as int), true),
            excluded@ == spans_with(all.take(i as int), false),
            total == total_len(s, included@),
            i <= n ==> 0 <= total <= units(s, span_at(s, i as int).start),
            i == n + 1 ==> -0x1_0000_0000_0000_0000_0000_0000int <= total <= 0x1_0000_0000_0000_0000_0000_0000int,
        decreases n + 1 - i,
    {
        let start = if i == 0 { SeekPoint::Frame(0) } else { SeekPoint::Frame(m.markers[i - 1]) };
        let end = if i == n {
            SeekPoint::Micros(m.video_metadata.duration_us)
        } else {
            SeekPoint::Frame(m.markers[i])
        };
        let inc = i < m.segments_included.len() && m.segments_included[i];
        let span = Span { index: i, start, end, included: inc };
        proof {
            assert(span == all[i as int]);
            assert(all.take(i + 1).drop_last() =~= all.take(i as int));
            assert(all.take(i + 1).last() == span);
        }
        if inc {
            let a = point_units(m, start);
            let b = point_units(m, end);
            proof {
                if i < n {
                    if i > 0 {
                        assert(s.markers[i - 1] < s.markers[i as int]);
                    }
                    assert(a <= b) by (nonlinear_arith)
                        requires a == (if i == 0 { 0 } else { s.markers[i - 1] as int }) * s.meta.fps_den * 1_000_000,
                            b == s.markers[i as int] * s.meta.fps_den * 1_000_000,
                            i == 0 || s.markers[i - 1] < s.markers[i as int], s.meta.fps_den > 0;
                }
            }
            total = total + b - a;
            let ghost prev = included@;
            included.push(span);
            proof {
                assert(included@.drop_last() =~= prev);
            }
        } else {
            proof {
                if i < n {
                    let a = units(s, start);
                    let b = units(s, end);
                    if i > 0 {
                        assert(s.markers[i - 1] < s.markers[i as int]);
                    }
                    assert(a <= b) by (nonlinear_arith)
                        requires a == (if i == 0 { 0 } else { s.markers[i - 1] as int }) * s.meta.fps_den * 1_000_000,
                            b == s.markers[i as int] * s.meta.fps_den * 1_000_000,
                            i == 0 || s.markers[i - 1] < s.markers[i as int], s.meta.fps_den > 0;
                } else {
                    let f: int = if i == 0 { 0 } else { s.markers[i - 1] as int };
                    assert(f * s.meta.fps_den * 1_000_000 <= 0xffff_ffffint * 0xffff_ffffint * 1_000_000)
                        by (nonlinear_arith)
                        requires 0 <= f <= 0xffff_ffff, 0 <= s.meta.fps_den <= 0xffff_ffff;
                }
            }
            excluded.push(span);
        }
        i = i + 1;
    }
    proof {
        assert(all.take((n + 1) as int) =~= all);
    }
    let end_units = point_units(m, SeekPoint::Micros(m.video_metadata.duration_us));
    let eps: i128 = 1000 * (m.video_metadata.fps_num as i128);
    let kind = if n == 0 && !m.is_segment_included(0) {
        PlanKind::NothingMarked
    } else if included.len() == 0 {
        PlanKind::NothingIncluded
    } else {
        let s0 = point_units(m, included[0].start);
        let e0 = point_units(m, included[0].end);
        let d0 = if e0 >= end_units { e0 - end_units } else { end_units - e0 };
        let dt = if total >= end_units { total - end_units } else { end_units - total };
        if included.len() == 1 && s0 < eps && d0 < eps {
            PlanKind::SameAsInput { single_hint: false }
        } else if dt < eps && m.single_output {
            PlanKind::SameAsInput { single_hint: true }
        } else {
            PlanKind::Export { single: m.single_output }
        }
    };
    ExportPlan { kind, included, excluded }
}

/// Name of export output `k`: `<stem>_rve_<k>.<ext>`.
pub open spec fn output_name_spec(stem: Seq<char>, k: nat, ext: Seq<char>) -> Seq<char> {
    stem + "_rve_"@ + decimal(k) + "."@ + ext
}

/// Name of the temporary file for piece `k` of a concatenated export:
/// `<stem>_temp_seg_<k>.<ext>`.
pub open spec fn temp_segment_name_spec(stem: Seq<char>, k: nat, ext: Seq<char>) -> Seq<char> {
    stem + "_temp_seg_"@ + decimal(k) + "."@ + ext
}

/// Name of the list of pieces handed to the concatenation: `<stem>_concat_list.txt`.
pub open spec fn concat_list_name_spec(stem: Seq<char>) -> Seq<char> {
    stem + "_concat_list.txt"@
}

/// One line of the concatenation list: `file '<path>'` and a newline.
pub open spec fn concat_list_entry_spec(path: Seq<char>) -> Seq<char> {
    "file '"@ + path + "'"@ + seq!['\n']
}

/// `<stem><infix><k>.<ext>`.
fn numbered_name(stem: &str, infix: &str, k: usize, ext: &str) -> (r: String)
    ensures
        r@ == stem@ + infix@ + decimal(k as nat) + "."@ + ext@,
{
    let mut r = String::new();
    push_str(&mut r, stem);
    push_str(&mut r, infix);
    push_decimal(&mut r, k as u64);
    push_str(&mut r, ".");
    push_str(&mut r, ext);
    assert(r@ =~= stem@ + infix@ + decimal(k as nat) + "."@ + ext@);
    r
}

/// The name of export output `k` (see `output_name_spec`).
pub fn output_name(stem: &str, k: usize, ext: &str) -> (r: String)
    ensures
        r@ == output_name_spec(stem@, k as nat, ext@),
{
    numbered_name(stem, "_rve_", k, ext)
}

/// The name of temporary piece `k` (see `temp_segment_name_spec`).
pub fn temp_segment_name(stem: &str, k: usize, ext: &str) -> (r: String)
    ensures
        r@ == temp_segment_name_spec(stem@, k as nat, ext@),
{
    numbered_name(stem, "_temp_seg_", k, ext)
}

/// The name of the concatenation list (see `concat_list_name_spec`).
pub fn concat_list_name(stem: &str) -> (r: String)
    ensures
        r@ == concat_list_name_spec(stem@),
{
    let mut r = String::new();
    push_str(&mut r, stem);
    push_str(&mut r, "_concat_list.txt");
    assert(r@ =~= concat_list_name_spec(stem@));
    r
}

/// One line of the concatenation list (see `concat_list_entry_spec`).
pub fn concat_list_entry(path: &str) -> (r: String)
    ensures
        r@ == concat_list_entry_spec(path@),
{
    let mut r = String::new();
    push_str(&mut r, "file '");
    push_str(&mut r, path);
    push_str(&mut r, "'");
    push_char(&mut r, '\n');
    assert(r@ =~= concat_list_entry_spec(path@));
    r
}

} // verus!
