use rve::model::{DisplayMode, HoverMode, Model, VideoMetadata};
use rve::update::{update, Effect, Event, KeyCode, KeyEvent, KeyModifiers, Outcome, Playback, SeekPoint};

fn meta() -> VideoMetadata {
    VideoMetadata { width: 1920, height: 1080, fps_num: 30, fps_den: 1, duration_us: 10_000_000 }
}

fn model() -> Model {
    Model::new(meta(), 80, 24, DisplayMode::LowResBlock, false, false)
}

fn key(c: KeyCode) -> Event {
    Event::Key(KeyEvent { code: c, modifiers: KeyModifiers::none() })
}

fn key_mods(c: KeyCode, shift: bool, control: bool, alt: bool) -> Event {
    Event::Key(KeyEvent { code: c, modifiers: KeyModifiers { shift, control, alt, other: false } })
}

#[test]
fn quit_key_opens_prompt_and_pauses() {
    let mut m = model();
    m.paused = false;
    let mut fx = Vec::new();
    let r = update(&mut m, key(KeyCode::Char('q')), &mut fx);
    assert_eq!(r, Outcome { redraw: true, done: true });
    assert!(m.exit_prompt && m.paused && m.needs_to_clear);
    assert_eq!(fx, vec![Effect::PauseAudio]);
}

#[test]
fn ctrl_c_and_esc_are_quit_keys() {
    let mut m = model();
    let mut fx = Vec::new();
    update(&mut m, key_mods(KeyCode::Char('c'), false, true, false), &mut fx);
    assert!(m.exit_prompt);
    let mut m = model();
    update(&mut m, key(KeyCode::Esc), &mut fx);
    assert!(m.exit_prompt);
    // shift+ctrl+c is not a quit key
    let mut m = model();
    update(&mut m, key_mods(KeyCode::Char('c'), true, true, false), &mut fx);
    assert!(!m.exit_prompt);
}

#[test]
fn exit_prompt_answers() {
    let mut m = model();
    let mut fx = Vec::new();
    update(&mut m, key(KeyCode::Char('q')), &mut fx);
    fx.clear();
    let r = update(&mut m, key(KeyCode::Char('v')), &mut fx);
    assert_eq!(r, Outcome { redraw: false, done: true });
    assert!(m.markers.is_empty());
    assert!(fx.is_empty());
    let r = update(&mut m, key(KeyCode::Char('N')), &mut fx);
    assert_eq!(r, Outcome { redraw: true, done: true });
    assert!(!m.exit_prompt && !m.should_exit);
    update(&mut m, key(KeyCode::Char('q')), &mut fx);
    let r = update(&mut m, key(KeyCode::Char('y')), &mut fx);
    assert_eq!(r, Outcome { redraw: true, done: true });
    assert!(m.should_exit);
}

#[test]
fn volume_keys_clamp() {
    let mut m = model();
    let mut fx = Vec::new();
    update(&mut m, key(KeyCode::Char('+')), &mut fx);
    assert_eq!(m.audio_player.volume, 110);
    assert_eq!(fx, vec![Effect::SetVolume(110)]);
    for _ in 0..20 {
        update(&mut m, key(KeyCode::Char('=')), &mut fx);
    }
    assert_eq!(m.audio_player.volume, 200);
    for _ in 0..30 {
        update(&mut m, key(KeyCode::Char('_')), &mut fx);
    }
    assert_eq!(m.audio_player.volume, 0);
    update(&mut m, key(KeyCode::Char('a')), &mut fx);
    assert_eq!(m.audio_player.export_volume, 110);
    update(&mut m, key(KeyCode::Char('A')), &mut fx);
    update(&mut m, key(KeyCode::Char('A')), &mut fx);
    assert_eq!(m.audio_player.export_volume, 90);
}

#[test]
fn speed_presets() {
    let mut m = model();
    let mut fx = Vec::new();
    update(&mut m, key(KeyCode::Char('>')), &mut fx);
    assert_eq!(m.speed_index, 4);
    assert_eq!(fx, vec![Effect::SetSpeed(5)]);
    for _ in 0..5 {
        update(&mut m, key_mods(KeyCode::Char('.'), true, false, false), &mut fx);
    }
    assert_eq!(m.speed_index, 6);
    assert_eq!(fx.last(), Some(&Effect::SetSpeed(8)));
    for _ in 0..10 {
        update(&mut m, key(KeyCode::Char('<')), &mut fx);
    }
    assert_eq!(m.speed_index, 0);
    assert_eq!(fx.last(), Some(&Effect::SetSpeed(1)));
    // while playing, a speed change restarts at the current frame
    m.paused = false;
    m.frame_number = 42;
    fx.clear();
    update(&mut m, key_mods(KeyCode::Char(','), true, false, false), &mut fx);
    assert_eq!(fx, vec![Effect::SetSpeed(1), Effect::Seek { to: SeekPoint::Frame(42), paused: false }]);
}

#[test]
fn arrow_keys_seek_and_clamp() {
    let mut m = model();
    let mut fx = Vec::new();
    update(&mut m, key(KeyCode::Right), &mut fx);
    assert_eq!(m.frame_number, 150);
    update(&mut m, key_mods(KeyCode::Right, false, false, true), &mut fx);
    assert_eq!(m.frame_number, 300);
    update(&mut m, key_mods(KeyCode::Left, false, true, false), &mut fx);
    assert_eq!(m.frame_number, 0);
    assert_eq!(fx.last(), Some(&Effect::Seek { to: SeekPoint::Frame(0), paused: true }));
}

#[test]
fn digit_keys_jump_by_tenths() {
    let mut m = model();
    let mut fx = Vec::new();
    update(&mut m, key(KeyCode::Char('5')), &mut fx);
    assert_eq!(m.frame_number, 150);
    assert_eq!(fx, vec![Effect::Seek { to: SeekPoint::Micros(5_000_000), paused: true }]);
    update(&mut m, key(KeyCode::Char('0')), &mut fx);
    assert_eq!(m.frame_number, 0);
}

#[test]
fn skip_past_the_end_is_allowed() {
    let mut m = model();
    let mut fx = Vec::new();
    m.skip_to(150, &mut fx);
    assert_eq!(m.frame_number, 450);
    assert_eq!(fx, vec![Effect::Seek { to: SeekPoint::Micros(15_000_000), paused: true }]);
    fx.clear();
    m.skip_to(u32::MAX, &mut fx);
    assert_eq!(m.frame_number, u32::MAX);
    assert_eq!(fx, vec![Effect::Seek { to: SeekPoint::Micros(429_496_729_500_000), paused: true }]);
}

#[test]
fn frame_stepping_only_when_paused() {
    let mut m = model();
    m.frame_number = 10;
    let mut fx = Vec::new();
    update(&mut m, key(KeyCode::Char(',')), &mut fx);
    assert_eq!(m.frame_number, 9);
    assert_eq!(fx, vec![Effect::Seek { to: SeekPoint::Frame(9), paused: true }]);
    fx.clear();
    update(&mut m, key(KeyCode::Char('.')), &mut fx);
    assert_eq!(fx, vec![Effect::ReadNextFrame]);
    m.frame_advanced();
    assert_eq!(m.frame_number, 10);
    m.paused = false;
    fx.clear();
    let r = update(&mut m, key(KeyCode::Char('.')), &mut fx);
    assert_eq!(r, Outcome { redraw: true, done: false });
    assert!(fx.is_empty());
    assert_eq!(m.frame_number, 10);
}

#[test]
fn frame_advanced_stops_at_last_frame() {
    let mut m = model();
    m.frame_number = 300;
    m.frame_advanced();
    assert_eq!(m.frame_number, 300);
}

#[test]
fn toggles_and_save() {
    let mut m = model();
    let mut fx = Vec::new();
    update(&mut m, key(KeyCode::Char('?')), &mut fx);
    assert!(m.hide_controls);
    update(&mut m, key(KeyCode::Char('i')), &mut fx);
    assert!(m.single_output);
    update(&mut m, key(KeyCode::Char('r')), &mut fx);
    assert_eq!(m.display_mode, DisplayMode::LowResBlock);
    let r = update(&mut m, key(KeyCode::Char('s')), &mut fx);
    assert_eq!(r, Outcome { redraw: true, done: true });
    assert!(m.is_saving);
    let r = update(&mut m, key(KeyCode::Char('z')), &mut fx);
    assert_eq!(r, Outcome { redraw: false, done: false });
    let r = update(&mut m, key(KeyCode::Null), &mut fx);
    assert_eq!(r, Outcome { redraw: false, done: false });
    assert!(fx.is_empty());
}

#[test]
fn resolution_toggle_when_available() {
    let mut m = Model::new(meta(), 80, 24, DisplayMode::LowResBlock, false, true);
    let mut fx = Vec::new();
    update(&mut m, key(KeyCode::Char('r')), &mut fx);
    assert_eq!(m.display_mode, DisplayMode::HighResPixel);
    assert_eq!(fx, vec![Effect::Resize { width: 1280, height: 720 }]);
    update(&mut m, key(KeyCode::Char('r')), &mut fx);
    assert_eq!(m.display_mode, DisplayMode::LowResBlock);
    assert_eq!(fx[1], Effect::Resize { width: 57, height: 32 });
}

#[test]
fn terminal_resize_restarts_decoder() {
    let mut m = model();
    m.frame_number = 12;
    m.needs_to_clear = false;
    let mut fx = Vec::new();
    let r = update(&mut m, Event::Resize(100, 40), &mut fx);
    assert_eq!(r, Outcome { redraw: true, done: false });
    assert_eq!((m.terminal_cols, m.terminal_rows), (100, 40));
    assert!(m.needs_to_clear);
    assert_eq!(
        fx,
        vec![Effect::Resize { width: 100, height: 56 }, Effect::Seek { to: SeekPoint::Frame(12), paused: true }]
    );
}

#[test]
fn play_from_excluded_segment_skips_ahead() {
    let mut m = model();
    m.markers = vec![100];
    m.segments_included = vec![false, true];
    let mut fx = Vec::new();
    update(&mut m, key(KeyCode::Char(' ')), &mut fx);
    assert!(!m.paused);
    assert_eq!(m.hovered_item.mode, HoverMode::Segments);
    assert_eq!(fx, vec![Effect::Seek { to: SeekPoint::Frame(100), paused: false }]);
    fx.clear();
    update(&mut m, key(KeyCode::Char(' ')), &mut fx);
    assert!(m.paused);
    assert_eq!(fx, vec![Effect::PauseAudio]);
}

#[test]
fn play_with_nothing_included_stays_paused() {
    let mut m = model();
    m.segments_included = vec![false];
    let mut fx = Vec::new();
    update(&mut m, key(KeyCode::Char(' ')), &mut fx);
    assert!(m.paused);
    assert_eq!(fx, vec![Effect::PauseAudio]);
}

#[test]
fn frame_timing_tracks_drift() {
    let mut m = model();
    m.paused = false;
    assert_eq!(m.calc_frames(100_000), 3);
    assert_eq!(m.accumulated_time, 0);
    assert_eq!(m.calc_frames(50_000), 1);
    assert_eq!(m.calc_frames(50_000), 1);
    assert_eq!(m.calc_frames(50_000), 2);
    assert_eq!(m.calc_frames(10_000), 0);
    // double speed: twice the frames
    m.speed_index = 6;
    m.accumulated_time = 0;
    assert_eq!(m.calc_frames(100_000), 6);
}

#[test]
fn playback_steps() {
    let mut m = model();
    let mut fx = Vec::new();
    assert_eq!(m.advance_playback(100_000, &mut fx), Playback::Paused);
    m.paused = false;
    assert_eq!(m.advance_playback(10_000, &mut fx), Playback::Waiting);
    m.accumulated_time = 0;
    assert_eq!(m.advance_playback(100_000, &mut fx), Playback::Skip { frames: 3, target: 3, segment: 0 });
    m.finish_skip(3, 0);
    assert_eq!(m.frame_number, 3);
    m.markers = vec![5, 50];
    m.segments_included = vec![true, false, true];
    assert_eq!(m.advance_playback(100_000, &mut fx), Playback::Jumped);
    assert_eq!(fx, vec![Effect::Seek { to: SeekPoint::Frame(50), paused: false }]);
    fx.clear();
    m.segments_included = vec![true, false, false];
    assert_eq!(m.advance_playback(100_000, &mut fx), Playback::Stopped);
    assert!(m.paused);
    assert_eq!(fx, vec![Effect::PauseAudio]);
    m.paused = false;
    m.frame_number = u32::MAX - 1;
    m.segments_included = vec![true, true, true];
    assert_eq!(m.advance_playback(100_000, &mut fx), Playback::Overflow);
    m.stop_playback(&mut fx);
    assert!(m.paused);
}

#[test]
fn other_events_only_record_previous_frame() {
    let mut m = model();
    m.frame_number = 7;
    m.prev_frame_number = 3;
    let mut fx = Vec::new();
    let r = update(&mut m, Event::Other, &mut fx);
    assert_eq!(r, Outcome { redraw: false, done: false });
    assert_eq!(m.prev_frame_number, 7);
}
