use rve::model::{DisplayMode, HoverMode, Hovering, Model, VideoMetadata};
use rve::update::{Effect, SeekPoint};

fn meta() -> VideoMetadata {
    VideoMetadata { width: 1920, height: 1080, fps_num: 30, fps_den: 1, duration_us: 10_000_000 }
}

fn model() -> Model {
    Model::new(meta(), 80, 24, DisplayMode::LowResBlock, false, false)
}

#[test]
fn new_model_starts_paused_with_one_included_segment() {
    let m = model();
    assert!(m.paused);
    assert_eq!(m.frame_number, 0);
    assert!(m.markers.is_empty());
    assert_eq!(m.segments_included, vec![true]);
    assert_eq!(m.hovered_item, Hovering { mode: HoverMode::Segments, position: 0 });
    assert!(m.needs_to_clear);
    assert_eq!(m.audio_player.volume, 100);
    assert_eq!(m.audio_player.export_volume, 100);
}

#[test]
fn marker_toggle_adds_and_removes() {
    let mut m = model();
    m.frame_number = 90;
    m.toggle_marker();
    assert_eq!(m.markers, vec![90]);
    assert_eq!(m.segments_included, vec![true, true]);
    assert_eq!(m.hovered_item, Hovering { mode: HoverMode::Segments, position: 0 });
    assert!(m.needs_to_clear);
    m.toggle_marker();
    assert!(m.markers.is_empty());
    assert_eq!(m.segments_included, vec![true]);
}

#[test]
fn markers_stay_sorted_and_split_keeps_flag() {
    let mut m = model();
    m.frame_number = 200;
    m.toggle_marker();
    m.frame_number = 50;
    m.toggle_marker();
    assert_eq!(m.markers, vec![50, 200]);
    // exclude the middle segment, then split it: both halves stay excluded
    m.hovered_item = Hovering { mode: HoverMode::Segments, position: 1 };
    let mut fx = Vec::new();
    m.toggle_segment(&mut fx);
    assert_eq!(m.segments_included, vec![true, false, true]);
    m.frame_number = 120;
    m.toggle_marker();
    assert_eq!(m.markers, vec![50, 120, 200]);
    assert_eq!(m.segments_included, vec![true, false, false, true]);
    // the playhead is past marker 50 only: hovering segment 1
    assert_eq!(m.hovered_item.position, 1);
}

#[test]
fn marker_round_trip_restores_segments() {
    let mut m = model();
    m.frame_number = 60;
    m.toggle_marker();
    m.hovered_item.position = 1;
    let mut fx = Vec::new();
    m.toggle_segment(&mut fx);
    let markers = m.markers.clone();
    let segs = m.segments_included.clone();
    m.frame_number = 150;
    m.toggle_marker();
    m.toggle_marker();
    assert_eq!(m.markers, markers);
    assert_eq!(m.segments_included, segs);
}

#[test]
fn removing_a_marker_merges_into_first_segment() {
    let mut m = model();
    m.frame_number = 60;
    m.toggle_marker();
    m.hovered_item.position = 0;
    let mut fx = Vec::new();
    m.toggle_segment(&mut fx);
    assert_eq!(m.segments_included, vec![false, true]);
    m.toggle_marker();
    assert_eq!(m.segments_included, vec![false]);
    assert_eq!(m.hovered_item, Hovering { mode: HoverMode::Segments, position: 0 });
}

#[test]
fn segment_toggle_twice_is_identity() {
    let mut m = model();
    let mut fx = Vec::new();
    m.toggle_segment(&mut fx);
    assert_eq!(m.segments_included, vec![false]);
    m.toggle_segment(&mut fx);
    assert_eq!(m.segments_included, vec![true]);
    assert!(fx.is_empty());
}

#[test]
fn excluding_playing_segment_jumps_to_next_included() {
    let mut m = model();
    m.frame_number = 100;
    m.toggle_marker();
    m.frame_number = 40;
    m.hovered_item.position = 0;
    m.paused = false;
    let mut fx = Vec::new();
    m.toggle_segment(&mut fx);
    assert_eq!(fx, vec![Effect::Seek { to: SeekPoint::Frame(100), paused: false }]);
    assert!(!m.paused);
}

#[test]
fn excluding_last_playing_segment_stops() {
    let mut m = model();
    m.paused = false;
    let mut fx = Vec::new();
    m.toggle_segment(&mut fx);
    assert_eq!(fx, vec![Effect::PauseAudio]);
    assert!(m.paused);
}

#[test]
fn segment_at_frame_counts_markers_at_or_before() {
    let mut m = model();
    m.markers = vec![10, 20];
    m.segments_included = vec![true, false, true];
    assert_eq!(m.segment_at_frame(0), 0);
    assert_eq!(m.segment_at_frame(9), 0);
    assert_eq!(m.segment_at_frame(10), 1);
    assert_eq!(m.segment_at_frame(19), 1);
    assert_eq!(m.segment_at_frame(20), 2);
    assert_eq!(m.segment_at_frame(1000), 2);
}

#[test]
fn segment_inclusion_and_next_included() {
    let mut m = model();
    m.markers = vec![10, 20, 30];
    m.segments_included = vec![true, false, false, true];
    assert!(m.is_segment_included(0));
    assert!(!m.is_segment_included(1));
    assert!(m.is_segment_included(9));
    assert_eq!(m.find_next_included_segment_start(0), Some((3, 30)));
    assert_eq!(m.find_next_included_segment_start(1), Some((3, 30)));
    assert_eq!(m.find_next_included_segment_start(3), None);
    assert_eq!(m.find_next_included_segment_start(7), None);
}

#[test]
fn segment_hover_follows_playhead() {
    let mut m = model();
    m.markers = vec![10, 20];
    m.segments_included = vec![true, true, true];
    m.frame_number = 25;
    m.update_segment_fwd();
    assert_eq!(m.hovered_item.position, 2);
    m.frame_number = 20;
    m.update_segment_back();
    assert_eq!(m.hovered_item.position, 2);
    m.frame_number = 15;
    m.update_segment_back();
    assert_eq!(m.hovered_item.position, 1);
    m.frame_number = 5;
    m.update_segment_back();
    assert_eq!(m.hovered_item.position, 0);
    m.frame_number = 10;
    m.update_segment_fwd();
    assert_eq!(m.hovered_item.position, 0);
}

#[test]
fn nav_between_markers() {
    let mut m = model();
    m.markers = vec![30, 60];
    m.segments_included = vec![true, true, true];
    m.paused = false;
    let mut fx = Vec::new();
    m.nav_marker_next(&mut fx);
    assert_eq!(m.hovered_item, Hovering { mode: HoverMode::Markers, position: 0 });
    assert_eq!(m.frame_number, 30);
    assert!(m.paused);
    assert_eq!(fx, vec![Effect::Seek { to: SeekPoint::Frame(30), paused: true }]);
    m.nav_marker_next(&mut fx);
    assert_eq!(m.hovered_item, Hovering { mode: HoverMode::Markers, position: 1 });
    assert_eq!(m.frame_number, 60);
    m.nav_marker_next(&mut fx);
    assert_eq!(m.hovered_item, Hovering { mode: HoverMode::Segments, position: 2 });
    assert_eq!(m.frame_number, 300);
    assert_eq!(fx[2], Effect::Seek { to: SeekPoint::Micros(10_000_000), paused: true });
    m.nav_marker_prev(&mut fx);
    assert_eq!(m.hovered_item, Hovering { mode: HoverMode::Markers, position: 1 });
    assert_eq!(m.frame_number, 60);
    m.hovered_item = Hovering { mode: HoverMode::Segments, position: 0 };
    m.nav_marker_prev(&mut fx);
    assert_eq!(m.frame_number, 0);
    assert_eq!(m.hovered_item, Hovering { mode: HoverMode::Segments, position: 0 });
}
