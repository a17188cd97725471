use rve::base64::base64_encode;
use rve::model::{DisplayMode, Model, VideoMetadata};
use rve::view::{calculate_render_size, render_kitty, view, render_differential, Attribute, Color, DrawCmd, Frame, Rgb, TerminalState};

fn meta() -> VideoMetadata {
    VideoMetadata { width: 1920, height: 1080, fps_num: 30, fps_den: 1, duration_us: 10_000_000 }
}

fn rgb(r: u8, g: u8, b: u8) -> Rgb {
    Rgb { r, g, b }
}

#[test]
fn render_size_block_mode_fits_terminal() {
    assert_eq!(calculate_render_size(80, 24, &meta(), DisplayMode::LowResBlock), (57, 32));
    assert_eq!(calculate_render_size(100, 40, &meta(), DisplayMode::LowResBlock), (100, 56));
    assert_eq!(calculate_render_size(80, 5, &meta(), DisplayMode::LowResBlock), (0, 0));
    assert_eq!(calculate_render_size(0, 30, &meta(), DisplayMode::LowResBlock), (0, 0));
}

#[test]
fn render_size_pixel_mode_caps_width() {
    assert_eq!(calculate_render_size(80, 24, &meta(), DisplayMode::HighResPixel), (1280, 720));
    let small = VideoMetadata { width: 640, height: 360, ..meta() };
    assert_eq!(calculate_render_size(80, 24, &small, DisplayMode::HighResPixel), (640, 360));
    let odd = VideoMetadata { width: 1921, height: 1081, ..meta() };
    assert_eq!(calculate_render_size(80, 24, &odd, DisplayMode::HighResPixel), (1280, 720));
}

#[test]
fn frame_from_raw_checks_buffer_size() {
    assert!(Frame::from_raw(2, 2, vec![0; 11]).is_none());
    let f = Frame::from_raw(2, 2, (0..12).collect()).unwrap();
    assert_eq!((f.width(), f.height()), (2, 2));
    assert_eq!(f.as_raw(), &(0..12).collect::<Vec<u8>>());
    let g = Frame::from_raw(1, 1, vec![9, 8, 7, 6]).unwrap();
    assert_eq!(g.as_raw(), &vec![9, 8, 7, 6]);
    assert!(Frame::from_raw(0, 5, vec![]).is_some());
}

#[test]
fn differential_draws_changed_cells_only() {
    // 2x2 pixels: one row of two cells
    let img = Frame::from_raw(2, 2, vec![255, 0, 0, 0, 255, 0, 0, 0, 255, 0, 0, 0]).unwrap();
    let mut state = TerminalState::new();
    let mut out = Vec::new();
    render_differential(&mut state, false, &mut out, &img, 3, 2, 1);
    assert_eq!(
        out,
        vec![
            DrawCmd::MoveTo(3, 0),
            DrawCmd::SetForeground(Color::Rgb(rgb(255, 0, 0))),
            DrawCmd::SetBackground(Color::Rgb(rgb(0, 0, 255))),
            DrawCmd::UpperHalfBlock,
            DrawCmd::SetForeground(Color::Rgb(rgb(0, 255, 0))),
            DrawCmd::SetBackground(Color::Rgb(rgb(0, 0, 0))),
            DrawCmd::UpperHalfBlock,
            DrawCmd::SetForeground(Color::Reset),
            DrawCmd::SetBackground(Color::Reset),
        ]
    );
    assert_eq!(state.blocks, vec![(rgb(255, 0, 0), rgb(0, 0, 255)), (rgb(0, 255, 0), rgb(0, 0, 0))]);
    assert_eq!((state.width, state.height), (2, 1));
    // same frame again: nothing but the reset
    let mut again = Vec::new();
    render_differential(&mut state, false, &mut again, &img, 3, 2, 1);
    assert_eq!(again, vec![DrawCmd::SetForeground(Color::Reset), DrawCmd::SetBackground(Color::Reset)]);
    // forced redraw prints everything again
    let mut forced = Vec::new();
    render_differential(&mut state, true, &mut forced, &img, 3, 2, 1);
    assert_eq!(forced.len(), 9);
}

#[test]
fn differential_skips_unchanged_cell_and_moves_cursor() {
    let img = Frame::from_raw(3, 2, vec![0; 18]).unwrap();
    let mut state = TerminalState::new();
    let mut out = Vec::new();
    // first draw: the cache is recreated, so every cell is printed, black too
    render_differential(&mut state, false, &mut out, &img, 0, 3, 1);
    assert_eq!(
        out,
        vec![
            DrawCmd::MoveTo(0, 0),
            DrawCmd::SetForeground(Color::Rgb(rgb(0, 0, 0))),
            DrawCmd::SetBackground(Color::Rgb(rgb(0, 0, 0))),
            DrawCmd::UpperHalfBlock,
            DrawCmd::UpperHalfBlock,
            DrawCmd::UpperHalfBlock,
            DrawCmd::SetForeground(Color::Reset),
            DrawCmd::SetBackground(Color::Reset),
        ]
    );
    // change only the third cell's top pixel
    let mut data = vec![0u8; 18];
    data[6] = 7;
    let img2 = Frame::from_raw(3, 2, data).unwrap();
    let mut out2 = Vec::new();
    render_differential(&mut state, false, &mut out2, &img2, 0, 3, 1);
    assert_eq!(
        out2,
        vec![
            DrawCmd::MoveTo(2, 0),
            DrawCmd::SetForeground(Color::Rgb(rgb(7, 0, 0))),
            DrawCmd::SetBackground(Color::Rgb(rgb(0, 0, 0))),
            DrawCmd::UpperHalfBlock,
            DrawCmd::SetForeground(Color::Reset),
            DrawCmd::SetBackground(Color::Reset),
        ]
    );
}

#[test]
fn differential_prints_one_block_per_changed_cell() {
    // 10 x 2 cells from a 10 x 4 pixel gradient
    let data: Vec<u8> = (0..120u32).map(|i| (i * 13 % 256) as u8).collect();
    let img = Frame::from_raw(10, 4, data).unwrap();
    let mut state = TerminalState::new();
    let blocks = |cmds: &[DrawCmd]| cmds.iter().filter(|c| **c == DrawCmd::UpperHalfBlock).count();
    let mut out = Vec::new();
    render_differential(&mut state, true, &mut out, &img, 0, 10, 2);
    assert_eq!(blocks(&out), 20);
    // dirty two cache entries: only those two cells are printed again
    state.blocks[3] = (rgb(0, 0, 0), rgb(0, 0, 0));
    state.blocks[17] = (rgb(0, 0, 0), rgb(0, 0, 0));
    let mut again = Vec::new();
    render_differential(&mut state, false, &mut again, &img, 0, 10, 2);
    assert_eq!(blocks(&again), 2);
    assert!(again.contains(&DrawCmd::MoveTo(3, 0)) && again.contains(&DrawCmd::MoveTo(7, 1)));
}

#[test]
fn recreated_cache_redraws_every_cell() {
    let black = Frame::from_raw(1, 2, vec![0; 6]).unwrap();
    // a cache of another size (as after a resize), no forced redraw
    let mut state = TerminalState::new();
    let mut out = Vec::new();
    render_differential(&mut state, false, &mut out, &black, 0, 1, 1);
    assert_eq!(out.iter().filter(|c| **c == DrawCmd::UpperHalfBlock).count(), 1);
    // same size again: the cache matches, nothing is printed
    let mut again = Vec::new();
    render_differential(&mut state, false, &mut again, &black, 0, 1, 1);
    assert_eq!(again, vec![DrawCmd::SetForeground(Color::Reset), DrawCmd::SetBackground(Color::Reset)]);
    // the area grows: all cells are printed again
    let img = Frame::from_raw(2, 2, vec![0; 12]).unwrap();
    let mut grown = Vec::new();
    render_differential(&mut state, false, &mut grown, &img, 0, 2, 1);
    assert_eq!(grown.iter().filter(|c| **c == DrawCmd::UpperHalfBlock).count(), 2);
}

#[test]
fn differential_pads_outside_image_with_black() {
    let img = Frame::from_raw(1, 1, vec![1, 2, 3]).unwrap();
    let mut state = TerminalState::new();
    let mut out = Vec::new();
    render_differential(&mut state, true, &mut out, &img, 0, 2, 1);
    assert_eq!(state.blocks, vec![(rgb(1, 2, 3), rgb(0, 0, 0)), (rgb(0, 0, 0), rgb(0, 0, 0))]);
}

#[test]
fn kitty_single_chunk() {
    let img = Frame::from_raw(1, 1, vec![1, 2, 3]).unwrap();
    let mut out = Vec::new();
    render_kitty(&img, 4, 0, 2, 3, &mut out);
    assert_eq!(
        out,
        vec![DrawCmd::MoveTo(4, 0), DrawCmd::Raw("\x1b_Ga=T,f=24,s=1,v=1,c=2,r=3,m=0,q=2;AQID\x1b\\".to_string())]
    );
}

#[test]
fn kitty_splits_payload_in_4096_char_chunks() {
    // 3 * 2000 bytes -> 8000 base64 characters -> two chunks
    let img = Frame::from_raw(2000, 1, vec![0; 6000]).unwrap();
    let mut out = Vec::new();
    render_kitty(&img, 0, 0, 10, 5, &mut out);
    assert_eq!(out.len(), 3);
    let first = format!("\x1b_Ga=T,f=24,s=2000,v=1,c=10,r=5,m=1,q=2;{}\x1b\\", "A".repeat(4096));
    let second = format!("\x1b_Gm=0;{}\x1b\\", "A".repeat(8000 - 4096));
    assert_eq!(out[1], DrawCmd::Raw(first));
    assert_eq!(out[2], DrawCmd::Raw(second));
}

#[test]
fn kitty_chunks_reassemble_to_base64() {
    // 3 * 3000 bytes -> 12000 base64 characters -> three chunks
    let data: Vec<u8> = (0..9000u32).map(|i| (i * 7 % 251) as u8).collect();
    let img = Frame::from_raw(3000, 1, data.clone()).unwrap();
    let mut out = Vec::new();
    render_kitty(&img, 0, 0, 10, 5, &mut out);
    assert_eq!(out.len(), 4);
    let mut joined = String::new();
    for (j, c) in out[1..].iter().enumerate() {
        let s = match c {
            DrawCmd::Raw(s) => s.clone(),
            _ => panic!("expected an escape sequence"),
        };
        let body = s.strip_suffix("\x1b\\").unwrap();
        let semi = body.find(';').unwrap();
        let (header, payload) = (&body[..semi], &body[semi + 1..]);
        assert!(!payload.is_empty() && payload.len() <= 4096);
        let more = if j == 2 { "m=0" } else { "m=1" };
        assert!(header.contains(more));
        joined.push_str(payload);
    }
    assert_eq!(joined, base64_encode(&data));
}

#[test]
fn kitty_empty_image_only_moves() {
    let img = Frame::from_raw(0, 0, vec![]).unwrap();
    let mut out = Vec::new();
    render_kitty(&img, 1, 2, 0, 0, &mut out);
    assert_eq!(out, vec![DrawCmd::MoveTo(1, 2)]);
}

fn printed(out: &[DrawCmd]) -> Vec<String> {
    out.iter()
        .filter_map(|c| match c {
            DrawCmd::Print(s) => Some(s.clone()),
            _ => None,
        })
        .collect()
}

#[test]
fn view_status_and_info_lines() {
    let mut m = Model::new(meta(), 80, 24, DisplayMode::LowResBlock, false, false);
    m.frame_number = 75;
    m.needs_to_clear = false;
    m.prev_frame_number = 75;
    let mut out = Vec::new();
    view(&mut m, "fps: --", &mut out);
    // no frame yet: the UI starts at row 16 (32 pixel rows / 2)
    assert_eq!(out[0], DrawCmd::MoveTo(0, 16));
    let texts = printed(&out);
    assert_eq!(texts[0], "fps: --");
    let time = " 0:02 / 0:10 [75/300] ||";
    assert_eq!(texts[2], time);
    assert_eq!(texts[1].len(), 80 - time.len() - 7);
    let info = texts.iter().find(|t| t.starts_with("Segment")).unwrap();
    let expected = "Segment 1 of 1 [INCLUDED] | Output: Multi-File | Display: Low-Res (Block) | Vol: 100% | Export Vol: 100%";
    assert_eq!(info, expected);
    assert!(texts.contains(&"help ?".to_string()));
    assert!(out.contains(&DrawCmd::SetAttribute(Attribute::Dim)));
    let legend = "v mark/unmark • t toggle segment • i toggle output • +/- vol • a/A export vol • s save/output";
    assert!(texts.contains(&legend.to_string()));
    // the legend is 103 bytes long, wider than the terminal: no centring pad
    assert_eq!(legend.len(), 103);
    let idx = texts.iter().position(|t| t == legend).unwrap();
    assert_eq!(texts[idx - 1].len(), 0);
}

#[test]
fn view_timeline_positions() {
    let mut m = Model::new(meta(), 80, 24, DisplayMode::LowResBlock, false, false);
    m.markers = vec![150];
    m.segments_included = vec![true, false];
    m.frame_number = 75;
    m.prev_frame_number = 75;
    m.needs_to_clear = false;
    let mut out = Vec::new();
    view(&mut m, "fps: 30", &mut out);
    let green = Color::Rgb(rgb(50, 200, 50));
    let red = Color::Rgb(rgb(200, 50, 50));
    let i = out.iter().position(|c| *c == DrawCmd::SetBackground(green)).unwrap();
    assert_eq!(out[i - 1], DrawCmd::MoveTo(0, 18));
    assert_eq!(out[i + 1], DrawCmd::Print(" ".repeat(40)));
    assert_eq!(out[i + 2], DrawCmd::MoveTo(40, 18));
    assert_eq!(out[i + 3], DrawCmd::SetBackground(red));
    assert_eq!(out[i + 4], DrawCmd::Print(" ".repeat(40)));
    assert_eq!(out[i + 5], DrawCmd::SetBackground(Color::Reset));
    assert_eq!(out[i + 6], DrawCmd::MoveTo(40, 18));
    assert_eq!(out[i + 8], DrawCmd::Print("|".to_string()));
    // playhead at 75/300 of 80 columns = 20, above the bar
    assert_eq!(out[i + 10], DrawCmd::MoveTo(20, 17));
    assert_eq!(out[i + 11], DrawCmd::SetForeground(green));
    assert_eq!(out[i + 12], DrawCmd::Print("v".to_string()));
}

#[test]
fn view_clears_and_shows_prompt() {
    let mut m = Model::new(meta(), 80, 24, DisplayMode::LowResBlock, false, false);
    m.exit_prompt = true;
    m.hide_controls = true;
    let mut out = Vec::new();
    view(&mut m, "fps: --", &mut out);
    assert_eq!(out[0], DrawCmd::ClearAll);
    assert_eq!(out[1], DrawCmd::Raw("\x1b_Ga=d,d=A\x1b\\".to_string()));
    let texts = printed(&out);
    assert!(texts.contains(&" Confirm exit? (make sure you save) ".to_string()));
    assert!(texts.contains(&" [Y]es/[N]o ".to_string()));
    assert!(out.contains(&DrawCmd::MoveTo(22, 7)));
    assert!(out.contains(&DrawCmd::MoveTo(34, 8)));
    // two cleared timeline rows, the full-width segment, two blank legend rows
    assert_eq!(texts.iter().filter(|t| **t == " ".repeat(80)).count(), 5);
}

#[test]
fn view_draws_current_frame() {
    let mut m = Model::new(meta(), 80, 24, DisplayMode::LowResBlock, false, false);
    m.current_frame = Frame::from_raw(57, 32, vec![10; 57 * 32 * 3]);
    let mut out = Vec::new();
    view(&mut m, "", &mut out);
    // x offset (80 - 57) / 2 = 11
    assert_eq!(out[2], DrawCmd::MoveTo(11, 0));
    assert_eq!(m.terminal_state.blocks.len(), 57 * 16);
    assert!(m.terminal_state.blocks.iter().all(|b| *b == (rgb(10, 10, 10), rgb(10, 10, 10))));
}
