//! Frame images, render sizing, and the terminal drawing plan.
use vstd::prelude::*;
use crate::model::{round_div, DisplayMode, VideoMetadata, UI_HEIGHT, MAX_HR_WIDTH};
pub use crate::kitty::render_kitty;
pub use crate::screen::view;

verus! {

/// An RGB color with 8 bits per channel.
#[derive(Clone, Copy, PartialEq, Eq, Structural, Debug)]
pub struct Rgb {
    pub r: u8,
    pub g: u8,
    pub b: u8,
}

/// A decoded video frame: `width * height` RGB pixels stored row by row,
/// three bytes per pixel.
pub struct Frame {
    width: u32,
    height: u32,
    data: Vec<u8>,
}

impl Frame {
    /// The buffer holds at least three bytes per pixel.
    #[verifier::type_invariant]
    spec fn inv(&self) -> bool {
        3 * self.width * self.height <= self.data@.len()
    }

    pub closed spec fn spec_width(&self) -> u32 {
        self.width
    }

    pub closed spec fn spec_height(&self) -> u32 {
        self.height
    }

    pub closed spec fn spec_data(&self) -> Seq<u8> {
        self.data@
    }

    /// The buffer holds at least three bytes per pixel.
    pub open spec fn wf(&self) -> bool {
        3 * self.spec_width() * self.spec_height() <= self.spec_data().len()
    }

    /// Builds a frame from raw row-major RGB bytes; `None` when `data` holds
    /// fewer than `3 * width * height` bytes.
    pub fn from_raw(width: u32, height: u32, data: Vec<u8>) -> (r: Option<Frame>)
        ensures
            r is Some <==> 3 * width * height <= data@.len(),
            r matches Some(f) ==> f.spec_width() == width && f.spec_height() == height && f.spec_data() == data@ && f.wf(),
    {
        image_from_raw(width, height, data)
    }

    /// The image width in pixels.
    pub fn width(&self) -> (w: u32)
        ensures
            w == self.spec_width(),
    {
        self.width
    }

    /// The image height in pixels.
    pub fn height(&self) -> (h: u32)
        ensures
            h == self.spec_height(),
    {
        self.height
    }

    /// The raw pixel bytes.
    pub fn as_raw(&self) -> (d: &Vec<u8>)
        ensures
            d@ == self.spec_data(),
    {
        &self.data
    }
}

/// `image::RgbImage::from_raw`: accepts the buffer exactly when it holds at
/// least `3 * width * height` bytes (the product computed without overflow in
/// `usize`), keeping the dimensions and the buffer unchanged
/// (`ImageBuffer::into_raw` hands the buffer back).
#[verifier::external_body]
fn image_from_raw(width: u32, height: u32, data: Vec<u8>) -> (r: Option<Frame>)
    ensures
        r is Some <==> 3 * width * height <= data@.len(),
        r matches Some(f) ==> f.spec_width() == width && f.spec_height() == height && f.spec_data() == data@,
{
    match image::RgbImage::from_raw(width, height, data) {
        Some(img) => {
            let (w, h) = img.dimensions();
            Some(Frame { width: w, height: h, data: img.into_raw() })
        },
        None => None,
    }
}

/// Terminal character cell color cache for differential rendering.
pub struct TerminalState {
    /// Terminal width in columns.
    pub width: u16,
    /// Terminal height in rows.
    pub height: u16,
    /// Previous frame (top color, bottom color) per character cell.
    pub blocks: Vec<(Rgb, Rgb)>,
}

impl TerminalState {
    /// An empty cache.
    pub fn new() -> (t: TerminalState)
        ensures
            t.width == 0 && t.height == 0 && t.blocks@.len() == 0,
    {
        TerminalState { width: 0, height: 0, blocks: Vec::new() }
    }
}

/// Render size in pixels for the video area. In block mode the video is
/// fitted into the terminal cells above the UI (each cell is one pixel wide
/// and two half-block pixels tall), keeping the aspect ratio and an even
/// height; in pixel mode it is the native size, scaled down to at most
/// `MAX_HR_WIDTH` pixels wide.
pub open spec fn render_size_spec(cols: u16, rows: u16, meta: VideoMetadata, mode: DisplayMode) -> (i32, i32) {
    let rv: int = if rows >= UI_HEIGHT { rows - UI_HEIGHT } else { 0 };
    let ph = 2 * rv;
    let pw = cols as int;
    let w = meta.width as int;
    let h = meta.height as int;
    if mode == DisplayMode::LowResBlock {
        if pw * h > ph * w {
            (round_div(ph * w, h) as i32, ph as i32)
        } else {
            (pw as i32, (2 * ((pw * h + w) / (2 * w))) as i32)
        }
    } else if w <= MAX_HR_WIDTH {
        (meta.width, meta.height)
    } else {
        (MAX_HR_WIDTH as i32, round_div(h * MAX_HR_WIDTH, w) as i32)
    }
}

/// Calculates the render size of the video area (see `render_size_spec`).
pub fn calculate_render_size(term_cols: u16, term_rows: u16, meta: &VideoMetadata, mode: DisplayMode) -> (r: (i32, i32))
    requires
        meta.wf(),
    ensures
        r == render_size_spec(term_cols, term_rows, *meta, mode),
        r.0 >= 0 && r.1 >= 0,
{
    let rv: u64 = term_rows.saturating_sub(UI_HEIGHT) as u64;
    let ph: u64 = 2 * rv;
    let pw: u64 = term_cols as u64;
    let w: u64 = meta.width as u64;
    let h: u64 = meta.height as u64;
    if mode == DisplayMode::LowResBlock {
        assert(pw * h <= 65535 * 2147483647) by (nonlinear_arith)
            requires pw <= 65535, h <= 2147483647;
        assert(ph * w <= 131070 * 2147483647) by (nonlinear_arith)
            requires ph <= 131070, w <= 2147483647;
        if pw * h > ph * w {
            let a = ph * w;
            let rw = (2 * a + h) / (2 * h);
            assert(rw <= pw) by (nonlinear_arith)
                requires pw * h > a, h > 0, rw == (2 * a + h) / (2 * h);
            (rw as i32, ph as i32)
        } else {
            let half = (pw * h + w) / (2 * w);
            assert(half <= (65535 * h + w) / (2 * w)) by (nonlinear_arith)
                requires pw <= 65535, w > 0, half == (pw * h + w) / (2 * w);
            (pw as i32, (2 * half) as i32)
        }
    } else if w <= MAX_HR_WIDTH as u64 {
        (meta.width, meta.height)
    } else {
        let sh = (2 * h * (MAX_HR_WIDTH as u64) + w) / (2 * w);
        assert(sh <= h) by (nonlinear_arith)
            requires w > 1280, sh == (2 * h * 1280 + w) / (2 * w);
        (MAX_HR_WIDTH as i32, sh as i32)
    }
}

/// A terminal color.
#[derive(Clone, Copy, PartialEq, Eq, Structural, Debug)]
pub enum Color {
    Reset,
    Red,
    White,
    Rgb(Rgb),
}

/// A text attribute.
#[derive(Clone, Copy, PartialEq, Eq, Structural, Debug)]
pub enum Attribute {
    Reset,
    Bold,
    Dim,
}

/// One terminal drawing command.
#[derive(PartialEq, Eq, Debug)]
pub enum DrawCmd {
    /// Clear the whole screen.
    ClearAll,
    /// Move the cursor to (column, row).
    MoveTo(u16, u16),
    MoveToColumn(u16),
    MoveToNextLine(u16),
    SetForeground(Color),
    SetBackground(Color),
    SetAttribute(Attribute),
    /// Print the upper half block `▀` (foreground on top, background below).
    UpperHalfBlock,
    /// Print text.
    Print(String),
    /// Write a raw escape sequence.
    Raw(String),
}

/// The mathematical view of a drawing command (text as characters).
pub enum DrawCmdView {
    ClearAll,
    MoveTo(u16, u16),
    MoveToColumn(u16),
    MoveToNextLine(u16),
    SetForeground(Color),
    SetBackground(Color),
    SetAttribute(Attribute),
    UpperHalfBlock,
    Print(Seq<char>),
    Raw(Seq<char>),
}

impl View for DrawCmd {
    type V = DrawCmdView;

    open spec fn view(&self) -> DrawCmdView {
        match self {
            DrawCmd::ClearAll => DrawCmdView::ClearAll,
            DrawCmd::MoveTo(x, y) => DrawCmdView::MoveTo(*x, *y),
            DrawCmd::MoveToColumn(x) => DrawCmdView::MoveToColumn(*x),
            DrawCmd::MoveToNextLine(n) => DrawCmdView::MoveToNextLine(*n),
            DrawCmd::SetForeground(c) => DrawCmdView::SetForeground(*c),
            DrawCmd::SetBackground(c) => DrawCmdView::SetBackground(*c),
            DrawCmd::SetAttribute(a) => DrawCmdView::SetAttribute(*a),
            DrawCmd::UpperHalfBlock => DrawCmdView::UpperHalfBlock,
            DrawCmd::Print(s) => DrawCmdView::Print(s@),
            DrawCmd::Raw(s) => DrawCmdView::Raw(s@),
        }
    }
}

/// The views of a list of commands.
pub open spec fn cmd_views(v: Seq<DrawCmd>) -> Seq<DrawCmdView> {
    v.map_values(|c: DrawCmd| c@)
}

pub open spec fn black() -> Rgb {
    Rgb { r: 0, g: 0, b: 0 }
}

/// The color of pixel (x, y), black outside the image.
pub open spec fn pixel_spec(img: &Frame, x: int, y: int) -> Rgb {
    if 0 <= x < img.spec_width() && 0 <= y < img.spec_height() {
        let i = 3 * (y * img.spec_width() + x);
        Rgb { r: img.spec_data()[i], g: img.spec_data()[i + 1], b: img.spec_data()[i + 2] }
    } else {
        black()
    }
}

/// The colors shown by character cell (col, row): the pixels at rows
/// `2 * row` (top half) and `2 * row + 1` (bottom half).
pub open spec fn cell_colors(img: &Frame, col: int, row: int) -> (Rgb, Rgb) {
    (pixel_spec(img, col, 2 * row), pixel_spec(img, col, 2 * row + 1))
}

/// Progress of the differential renderer over the cells.
pub struct DiffProgress {
    pub cmds: Seq<DrawCmdView>,
    pub blocks: Seq<(Rgb, Rgb)>,
    pub fg: Option<Rgb>,
    pub bg: Option<Rgb>,
    pub moved: bool,
}

/// The renderer after visiting cell `k` (row-major): a cell whose colors
/// changed (or every cell, when clearing) is printed, moving the cursor
/// there unless it continues a printed run on the same row and setting only
/// the colors that differ from the last ones set.
pub open spec fn diff_step(p: DiffProgress, img: &Frame, clear: bool, x_offset: u16, width: u16, k: int) -> DiffProgress {
    let row = k / (width as int);
    let col = k % (width as int);
    let moved = if col == 0 { false } else { p.moved };
    let (t, b) = cell_colors(img, col, row);
    if clear || p.blocks[k] != (t, b) {
        let c1 = if !moved { seq![DrawCmdView::MoveTo((x_offset + col) as u16, row as u16)] } else { Seq::empty() };
        let c2 = if p.fg != Some(t) { seq![DrawCmdView::SetForeground(Color::Rgb(t))] } else { Seq::empty() };
        let c3 = if p.bg != Some(b) { seq![DrawCmdView::SetBackground(Color::Rgb(b))] } else { Seq::empty() };
        DiffProgress {
            cmds: p.cmds + c1 + c2 + c3 + seq![DrawCmdView::UpperHalfBlock],
            blocks: p.blocks.update(k, (t, b)),
            fg: Some(t),
            bg: Some(b),
            moved: true,
        }
    } else {
        DiffProgress { moved: false, ..p }
    }
}

/// The renderer after the first `k` cells.
pub open spec fn diff_run(init: DiffProgress, img: &Frame, clear: bool, x_offset: u16, width: u16, k: nat) -> DiffProgress
    decreases k,
{
    if k == 0 {
        init
    } else {
        diff_step(diff_run(init, img, clear, x_offset, width, (k - 1) as nat), img, clear, x_offset, width, k - 1)
    }
}

/// Whether the cache is reset before drawing: its size does not match the
/// area or a full redraw is requested.
pub open spec fn diff_resets(state: &TerminalState, clear: bool, width: u16, height: u16) -> bool {
    state.blocks@.len() != width * height || state.width != width || clear
}

/// The cache the renderer starts from: reset to black when its size does not
/// match or a full redraw is requested.
pub open spec fn diff_start_blocks(state: &TerminalState, clear: bool, width: u16, height: u16) -> Seq<(Rgb, Rgb)> {
    let n = width * height;
    if diff_resets(state, clear, width, height) {
        Seq::new(n as nat, |i: int| (black(), black()))
    } else {
        state.blocks@
    }
}

/// The renderer before the first cell.
pub open spec fn diff_init(state: &TerminalState, clear: bool, width: u16, height: u16) -> DiffProgress {
    DiffProgress {
        cmds: Seq::empty(),
        blocks: diff_start_blocks(state, clear, width, height),
        fg: None,
        bg: None,
        moved: false,
    }
}

/// Whether visiting cell `k` from `p` moves the cursor only to a column
/// that fits in `u16` (a move happens where a printed run starts).
pub open spec fn move_fits(p: DiffProgress, img: &Frame, clear: bool, x_offset: u16, width: u16, k: int) -> bool {
    let row = k / (width as int);
    let col = k % (width as int);
    let moved = if col == 0 { false } else { p.moved };
    (clear || p.blocks[k] != cell_colors(img, col, row)) && !moved ==> x_offset + col <= u16::MAX
}

/// Whether every cursor move of the renderer fits in `u16` columns.
pub open spec fn diff_moves_fit(state: &TerminalState, clear: bool, img: &Frame, x_offset: u16, width: u16, height: u16) -> bool {
    forall|k: int|
        0 <= k < width * height ==> #[trigger] move_fits(
            diff_run(
                diff_init(state, clear, width, height),
                img,
                diff_resets(state, clear, width, height),
                x_offset,
                width,
                k as nat,
            ),
            img,
            diff_resets(state, clear, width, height),
            x_offset,
            width,
            k,
        )
}

/// Every cursor move fits when the whole area does.
pub proof fn lemma_area_fits(state: &TerminalState, clear: bool, img: &Frame, x_offset: u16, width: u16, height: u16)
    requires
        width == 0 || x_offset + width - 1 <= u16::MAX,
    ensures
        diff_moves_fit(state, clear, img, x_offset, width, height),
{
    assert forall|k: int| 0 <= k < width * height implies #[trigger] move_fits(
        diff_run(
            diff_init(state, clear, width, height),
            img,
            diff_resets(state, clear, width, height),
            x_offset,
            width,
            k as nat,
        ),
        img,
        diff_resets(state, clear, width, height),
        x_offset,
        width,
        k,
    ) by {
        assert(width > 0) by (nonlinear_arith)
            requires 0 <= k < width * height;
        assert(k % (width as int) < width);
    }
}

/// Everything the differential renderer emits: the changed cells (every
/// cell when a full redraw is requested or the cache is recreated), then a
/// color reset.
pub open spec fn differential_spec(state: &TerminalState, clear: bool, img: &Frame, x_offset: u16, width: u16, height: u16) -> DiffProgress {
    let init = diff_init(state, clear, width, height);
    let r = diff_run(init, img, diff_resets(state, clear, width, height), x_offset, width, (width * height) as nat);
    DiffProgress {
        cmds: r.cmds + seq![DrawCmdView::SetForeground(Color::Reset), DrawCmdView::SetBackground(Color::Reset)],
        ..r
    }
}

fn pixel(img: &Frame, x: u32, y: u32) -> (c: Rgb)
    ensures
        c == pixel_spec(img, x as int, y as int),
{
    proof {
        use_type_invariant(img);
    }
    if x < img.width && y < img.height {
        let len = img.data.len();
        let w = img.width as usize;
        assert((y as int) * (w as int) + (x as int) < (img.height as int) * (w as int)) by (nonlinear_arith)
            requires x < w, y < img.height;
        assert(3 * ((y as int) * (w as int) + (x as int)) + 2 < img.data@.len()) by (nonlinear_arith)
            requires (y as int) * (w as int) + (x as int) < (img.height as int) * (w as int),
                3 * img.width * img.height <= img.data@.len(), w == img.width;
        assert((y as int) * (w as int) <= usize::MAX) by (nonlinear_arith)
            requires 3 * ((y as int) * (w as int) + (x as int)) + 2 < len, 0 <= x, len <= usize::MAX;
        let i = 3 * ((y as usize) * w + (x as usize));
        Rgb { r: img.data[i], g: img.data[i + 1], b: img.data[i + 2] }
    } else {
        Rgb { r: 0, g: 0, b: 0 }
    }
}

/// Visits cell (`col`, `row`), advancing the renderer by one `diff_step`.
#[verifier::rlimit(40)]
fn draw_cell(
    blocks: &mut Vec<(Rgb, Rgb)>,
    out: &mut Vec<DrawCmd>,
    current_fg: &mut Option<Rgb>,
    current_bg: &mut Option<Rgb>,
    cursor_moved: &mut bool,
    img: &Frame,
    clear: bool,
    x_offset: u16,
    width: u16,
    height: u16,
    row: u16,
    col: u16,
    Ghost(p): Ghost<DiffProgress>,
    Ghost(out0): Ghost<Seq<DrawCmdView>>,
)
    requires
        move_fits(p, img, clear, x_offset, width, row * width + col),
        col < width,
        row < height,
        old(blocks)@.len() == width * height,
        cmd_views(old(out)@) == out0 + p.cmds,
        old(blocks)@ == p.blocks,
        *old(current_fg) == p.fg,
        *old(current_bg) == p.bg,
        col > 0 ==> *old(cursor_moved) == p.moved,
        col == 0 ==> !*old(cursor_moved),
    ensures
        ({
            let q = diff_step(p, img, clear, x_offset, width, row * width + col);
            &&& cmd_views(final(out)@) == out0 + q.cmds
            &&& final(blocks)@ == q.blocks
            &&& *final(current_fg) == q.fg
            &&& *final(current_bg) == q.bg
            &&& *final(cursor_moved) == q.moved
        }),
        final(blocks)@.len() == old(blocks)@.len(),
{
    let ghost k = row * width + col;
    proof {
        vstd::arithmetic::div_mod::lemma_fundamental_div_mod_converse(k, width as int, row as int, col as int);
        assert(k < width * height) by (nonlinear_arith)
            requires k == row * width + col, col < width, row < height;
    }
    let top = pixel(img, col as u32, (row as u32) * 2);
    let bot = pixel(img, col as u32, (row as u32) * 2 + 1);
    assert((row as usize) * (width as usize) + (col as usize) <= 65535 * 65535 + 65535) by (nonlinear_arith)
        requires row <= 65535, width <= 65535, col <= 65535;
    let idx = (row as usize) * (width as usize) + (col as usize);
    let prev_colors = blocks[idx];
    if clear || !(prev_colors.0 == top && prev_colors.1 == bot) {
        let ghost before = cmd_views(out@);
        if !*cursor_moved {
            out.push(DrawCmd::MoveTo(x_offset + col, row));
            *cursor_moved = true;
        }
        let ghost b1 = cmd_views(out@);
        let fg_same = match *current_fg {
            Some(c) => c == top,
            None => false,
        };
        if !fg_same {
            out.push(DrawCmd::SetForeground(Color::Rgb(top)));
            *current_fg = Some(top);
        }
        let ghost b2 = cmd_views(out@);
        let bg_same = match *current_bg {
            Some(c) => c == bot,
            None => false,
        };
        if !bg_same {
            out.push(DrawCmd::SetBackground(Color::Rgb(bot)));
            *current_bg = Some(bot);
        }
        let ghost b3 = cmd_views(out@);
        out.push(DrawCmd::UpperHalfBlock);
        blocks.set(idx, (top, bot));
        proof {
            let c1 = if !(col > 0 && p.moved) { seq![DrawCmdView::MoveTo((x_offset + col) as u16, row as u16)] } else { Seq::<DrawCmdView>::empty() };
            let c2 = if p.fg != Some(top) { seq![DrawCmdView::SetForeground(Color::Rgb(top))] } else { Seq::<DrawCmdView>::empty() };
            let c3 = if p.bg != Some(bot) { seq![DrawCmdView::SetBackground(Color::Rgb(bot))] } else { Seq::<DrawCmdView>::empty() };
            assert(b1 =~= before + c1);
            assert(b2 =~= b1 + c2);
            assert(b3 =~= b2 + c3);
            assert(cmd_views(out@) =~= b3 + seq![DrawCmdView::UpperHalfBlock]);
            assert(cmd_views(out@) =~= out0 + (p.cmds + c1 + c2 + c3 + seq![DrawCmdView::UpperHalfBlock]));
        }
    } else {
        *cursor_moved = false;
    }
}

/// Draws `img` into a `width` x `height` cell area at column `x_offset`,
/// printing only cells whose colors differ from the cached previous frame
/// (all cells when `needs_to_clear`, or when the cache does not match the
/// area and is recreated), and updates the cache (see `differential_spec`).
pub fn render_differential(
    state: &mut TerminalState,
    needs_to_clear: bool,
    out: &mut Vec<DrawCmd>,
    img: &Frame,
    x_offset: u16,
    width: u16,
    height: u16,
)
    requires
        diff_moves_fit(old(state), needs_to_clear, img, x_offset, width, height),
    ensures
        cmd_views(final(out)@) == cmd_views(old(out)@) + differential_spec(old(state), needs_to_clear, img, x_offset, width, height).cmds,
        final(state).blocks@ == differential_spec(old(state), needs_to_clear, img, x_offset, width, height).blocks,
        final(state).width == width,
        final(state).height == (if diff_resets(old(state), needs_to_clear, width, height) { height } else { old(state).height }),
{
    assert((width as usize) * (height as usize) <= 65535 * 65535) by (nonlinear_arith)
        requires width <= 65535, height <= 65535;
    let expected_len = (width as usize) * (height as usize);
    let redraw = state.blocks.len() != expected_len || state.width != width || needs_to_clear;
    if redraw {
        state.width = width;
        state.height = height;
        let mut blocks: Vec<(Rgb, Rgb)> = Vec::new();
        let mut i: usize = 0;
        while i < expected_len
            invariant
                i <= expected_len,
                blocks@ =~= Seq::new(i as nat, |j: int| (black(), black())),
            decreases expected_len - i,
        {
            blocks.push((Rgb { r: 0, g: 0, b: 0 }, Rgb { r: 0, g: 0, b: 0 }));
            i = i + 1;
        }
        state.blocks = blocks;
    }
    let ghost init = diff_init(old(state), needs_to_clear, width, height);
    let ghost out0 = cmd_views(out@);
    let mut current_fg: Option<Rgb> = None;
    let mut current_bg: Option<Rgb> = None;
    let mut cursor_moved = false;
    let mut row: u16 = 0;
    while row < height
        invariant
            forall|k: int|
                0 <= k < expected_len ==> #[trigger] move_fits(
                    diff_run(init, img, redraw, x_offset, width, k as nat),
                    img,
                    redraw,
                    x_offset,
                    width,
                    k,
                ),
            expected_len == width * height,
            row <= height,
            state.blocks@.len() == expected_len,
            state.width == width,
            state.height == (if diff_resets(old(state), needs_to_clear, width, height) { height } else { old(state).height }),
            ({
                let r = diff_run(init, img, redraw, x_offset, width, (row * width) as nat);
                &&& cmd_views(out@) == out0 + r.cmds
                &&& state.blocks@ == r.blocks
                &&& current_fg == r.fg
                &&& current_bg == r.bg
            }),
        decreases height - row,
    {
        let mut col: u16 = 0;
        cursor_moved = false;
        while col < width
            invariant
                forall|k: int|
                    0 <= k < expected_len ==> #[trigger] move_fits(
                        diff_run(init, img, redraw, x_offset, width, k as nat),
                        img,
                        redraw,
                        x_offset,
                        width,
                        k,
                    ),
                expected_len == width * height,
                row < height,
                col <= width,
                state.blocks@.len() == expected_len,
                state.width == width,
                state.height == (if diff_resets(old(state), needs_to_clear, width, height) { height } else { old(state).height }),
                ({
                    let r = diff_run(init, img, redraw, x_offset, width, (row * width + col) as nat);
                    &&& cmd_views(out@) == out0 + r.cmds
                    &&& state.blocks@ == r.blocks
                    &&& current_fg == r.fg
                    &&& current_bg == r.bg
                    &&& col > 0 ==> cursor_moved == r.moved
                    &&& col == 0 ==> !cursor_moved
                }),
            decreases width - col,
        {
            let ghost k = row * width + col;
            proof {
                assert(k < expected_len) by (nonlinear_arith)
                    requires k == row * width + col, col < width, row < height, expected_len == width * height;
            }
            let ghost prev = diff_run(init, img, redraw, x_offset, width, k as nat);
            assert(move_fits(prev, img, redraw, x_offset, width, k));
            draw_cell(
                &mut state.blocks,
                out,
                &mut current_fg,
                &mut current_bg,
                &mut cursor_moved,
                img,
                redraw,
                x_offset,
                width,
                height,
                row,
                col,
                Ghost(prev),
                Ghost(out0),
            );
            col = col + 1;
        }
        proof {
            assert(row * width + width == (row + 1) * width) by (nonlinear_arith);
        }
        row = row + 1;
    }
    let ghost before = cmd_views(out@);
    out.push(DrawCmd::SetForeground(Color::Reset));
    out.push(DrawCmd::SetBackground(Color::Reset));
    proof {
        assert(cmd_views(out@) =~= before + seq![DrawCmdView::SetForeground(Color::Reset), DrawCmdView::SetBackground(Color::Reset)]);
        assert(height * width == width * height) by (nonlinear_arith);
    }
}

} // verus!
