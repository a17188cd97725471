use rve::export::{concat_list_entry, concat_list_name, output_name, plan_export, temp_segment_name, PlanKind, Span};
use rve::model::{DisplayMode, Model, VideoMetadata};
use rve::update::SeekPoint;

fn model() -> Model {
    let meta = VideoMetadata { width: 1920, height: 1080, fps_num: 30, fps_den: 1, duration_us: 10_000_000 };
    Model::new(meta, 80, 24, DisplayMode::LowResBlock, false, false)
}

#[test]
fn whole_video_excluded_without_markers() {
    let mut m = model();
    m.segments_included = vec![false];
    let p = plan_export(&m);
    assert_eq!(p.kind, PlanKind::NothingMarked);
}

#[test]
fn whole_video_included_is_identity() {
    let m = model();
    let p = plan_export(&m);
    assert_eq!(p.kind, PlanKind::SameAsInput { single_hint: false });
    assert_eq!(
        p.included,
        vec![Span { index: 0, start: SeekPoint::Frame(0), end: SeekPoint::Micros(10_000_000), included: true }]
    );
    assert!(p.excluded.is_empty());
}

#[test]
fn all_segments_included_single_output_is_identity() {
    let mut m = model();
    m.markers = vec![90, 180];
    m.segments_included = vec![true, true, true];
    m.single_output = true;
    assert_eq!(plan_export(&m).kind, PlanKind::SameAsInput { single_hint: true });
    m.single_output = false;
    assert_eq!(plan_export(&m).kind, PlanKind::Export { single: false });
}

#[test]
fn nothing_included_with_markers() {
    let mut m = model();
    m.markers = vec![90];
    m.segments_included = vec![false, false];
    let p = plan_export(&m);
    assert_eq!(p.kind, PlanKind::NothingIncluded);
    assert_eq!(p.excluded.len(), 2);
}

#[test]
fn middle_segment_excluded() {
    let mut m = model();
    m.markers = vec![90, 180];
    m.segments_included = vec![true, false, true];
    m.single_output = true;
    let p = plan_export(&m);
    assert_eq!(p.kind, PlanKind::Export { single: true });
    assert_eq!(
        p.included,
        vec![
            Span { index: 0, start: SeekPoint::Frame(0), end: SeekPoint::Frame(90), included: true },
            Span { index: 2, start: SeekPoint::Frame(180), end: SeekPoint::Micros(10_000_000), included: true },
        ]
    );
    assert_eq!(
        p.excluded,
        vec![Span { index: 1, start: SeekPoint::Frame(90), end: SeekPoint::Frame(180), included: false }]
    );
}

#[test]
fn empty_excluded_segment_still_covers_video() {
    let mut m = model();
    m.markers = vec![0];
    m.segments_included = vec![false, true];
    m.single_output = true;
    assert_eq!(plan_export(&m).kind, PlanKind::SameAsInput { single_hint: false });
}

#[test]
fn export_file_names() {
    assert_eq!(output_name("clip", 0, "mp4"), "clip_rve_0.mp4");
    assert_eq!(output_name("my video", 12, "mkv"), "my video_rve_12.mkv");
    assert_eq!(temp_segment_name("clip", 3, "mov"), "clip_temp_seg_3.mov");
    assert_eq!(concat_list_name("clip"), "clip_concat_list.txt");
    assert_eq!(concat_list_entry("/tmp/clip_temp_seg_0.mp4"), "file '/tmp/clip_temp_seg_0.mp4'\n");
}
