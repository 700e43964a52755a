//! Monitor page controller: touch routing, the power dialog, container list
//! scrolling, the scroll track, the temperature trend and the frame plan.
//!
//! Widgets whose shapes come from the font engine or from anti-aliased
//! shapes are drawn by the caller following the decisions made here. Times
//! are monotonic milliseconds supplied by the caller.

use vstd::prelude::*;
use crate::config::{
    ROW_STRIPE, ACCENT, ALARM, BG, CAUTION, CONTAINER_PAGE_SIZE, DOCKER_LINE_HEIGHT, DOCKER_LIST_Y,
    GRAY, H, OK, PANEL, SCROLL_TRACK, SLOW_RENDER_INTERVAL_MS, W,
};
use crate::fb::{
    changes_marked, lemma_changes_marked_refl, lemma_changes_marked_trans, Framebuffer, Rect,
    on_screen_pixel,
};
use crate::pages::PageAction;
use crate::render::{
    draw_line_h, fill_rect, in_fill, in_hline, lemma_fill_marks_changes, lemma_fill_marks_within,
    lemma_hline_marks_changes, rgb565_of,
};
use crate::label::{marks_within_rect, rect_covers, rect_fits};
use crate::textutil::{
    contains_chars, contains_seq, dec_string, push_decimal, split_words, str_chars, str_eq,
    string_of, views, words,
};
use crate::touch::TouchEvent;

verus! {

// ---------------------------------------------------------------------------
// Layout constants (480×320, 8 px grid).
// ---------------------------------------------------------------------------
pub const TOP_PANEL_H: i32 = 32;
pub const HERO_CARD_X0: i32 = 12;
pub const HERO_CARD_STEP: i32 = 116;
pub const HERO_CARD_W: i32 = 108;
pub const HERO_CARD_H: i32 = 40;
pub const HERO_CARD_Y: i32 = 40;
pub const CPU_AREA_X1: i32 = 12;
pub const CPU_AREA_Y1: i32 = 88;
pub const CPU_AREA_X2: i32 = 468;
pub const CPU_AREA_Y2: i32 = 148;
pub const DOCKER_TRACK_X: i32 = 460;
pub const DOCKER_TRACK_W: i32 = 4;
pub const MENU_CHIP_X: i32 = 188;
pub const MENU_CHIP_Y: i32 = 7;
pub const MENU_CHIP_W: i32 = 42;
pub const MENU_CHIP_H: i32 = 18;
pub const RST_CHIP_X: i32 = 398;
pub const RST_CHIP_Y: i32 = 4;
pub const RST_CHIP_W: i32 = 30;
pub const RST_CHIP_H: i32 = 24;
pub const PWR_CHIP_X: i32 = 434;
pub const PWR_CHIP_Y: i32 = 4;
pub const PWR_CHIP_W: i32 = 30;
pub const PWR_CHIP_H: i32 = 24;
pub const DIALOG_CANCEL_X: i32 = 110;
pub const DIALOG_CONFIRM_X: i32 = 270;
pub const DIALOG_BUTTON_Y: i32 = 160;
pub const DIALOG_BUTTON_W: i32 = 100;
pub const DIALOG_BUTTON_H: i32 = 32;

/// Time a confirmation dialog stays open without an answer.
pub const POWER_CONFIRM_MS: u64 = 10_000;
/// Time after which a command still running is reported as failed.
pub const POWER_EXEC_LIMIT_MS: u64 = 10_000;
/// Time the failure notice stays on screen.
pub const POWER_FAILED_MS: u64 = 2_000;

// ---------------------------------------------------------------------------
// Power dialog.
// ---------------------------------------------------------------------------

#[derive(Clone, Copy, PartialEq, Eq, Debug, Structural)]
pub enum PowerAction {
    Reboot,
    PowerOff,
}

impl PowerAction {
    /// Title of the confirmation dialog.
    pub fn title(&self) -> (r: &'static str)
        ensures
            r@ == match *self {
                PowerAction::Reboot => "Reboot?"@,
                PowerAction::PowerOff => "Power off?"@,
            },
    {
        match self {
            PowerAction::Reboot => "Reboot?",
            PowerAction::PowerOff => "Power off?",
        }
    }

    /// Program and arguments that carry the action out.
    pub fn command(&self) -> (r: (&'static str, [&'static str; 2]))
        ensures
            r.0@ == "sudo"@,
            r.1[0]@ == "systemctl"@,
            r.1[1]@ == match *self {
                PowerAction::Reboot => "reboot"@,
                PowerAction::PowerOff => "poweroff"@,
            },
    {
        match self {
            PowerAction::Reboot => ("sudo", ["systemctl", "reboot"]),
            PowerAction::PowerOff => ("sudo", ["systemctl", "poweroff"]),
        }
    }
}

#[derive(Clone, Copy, PartialEq, Eq, Debug, Structural)]
pub enum PowerState {
    Idle,
    Confirming { action: PowerAction, deadline_ms: u64 },
    Executing { action: PowerAction, started_ms: u64 },
    Failed { deadline_ms: u64 },
}

/// `a + b`, saturating at the largest time.
pub open spec fn later(a: u64, b: u64) -> u64 {
    if a + b <= u64::MAX {
        (a + b) as u64
    } else {
        u64::MAX
    }
}

// ---------------------------------------------------------------------------
// Touch targets.
// ---------------------------------------------------------------------------

/// `(px, py)` lies in the `w × h` box at `(x, y)`.
pub open spec fn in_box(x: int, y: int, w: int, h: int, px: int, py: int) -> bool {
    x <= px < x + w && y <= py < y + h
}

fn hit_box(ev: &TouchEvent, x: i32, y: i32, w: i32, h: i32) -> (r: bool)
    requires
        0 <= x <= 0x10000,
        0 <= y <= 0x10000,
        0 <= w <= 0x10000,
        0 <= h <= 0x10000,
    ensures
        r == in_box(x as int, y as int, w as int, h as int, ev.x as int, ev.y as int),
{
    ev.x >= x && ev.x < x + w && ev.y >= y && ev.y < y + h
}

/// Page reached by touching a hero card, by card index.
pub open spec fn hero_target(idx: int) -> Seq<char> {
    if idx == 0 {
        "temp"@
    } else if idx == 1 {
        "mem"@
    } else if idx == 2 {
        "disk"@
    } else {
        "net"@
    }
}

/// Index of the hero card under `(x, y)`, if any.
pub open spec fn hero_at(x: int, y: int) -> Option<int> {
    if HERO_CARD_Y <= y < HERO_CARD_Y + HERO_CARD_H {
        if HERO_CARD_X0 <= x < HERO_CARD_X0 + HERO_CARD_W {
            Some(0)
        } else if HERO_CARD_X0 + HERO_CARD_STEP <= x < HERO_CARD_X0 + HERO_CARD_STEP + HERO_CARD_W {
            Some(1)
        } else if HERO_CARD_X0 + 2 * HERO_CARD_STEP <= x < HERO_CARD_X0 + 2 * HERO_CARD_STEP
            + HERO_CARD_W {
            Some(2)
        } else if HERO_CARD_X0 + 3 * HERO_CARD_STEP <= x < HERO_CARD_X0 + 3 * HERO_CARD_STEP
            + HERO_CARD_W {
            Some(3)
        } else {
            None
        }
    } else {
        None
    }
}

/// Whether `(x, y)` lies on the container list.
pub open spec fn on_container_list(y: int) -> bool {
    DOCKER_LIST_Y <= y < DOCKER_LIST_Y + CONTAINER_PAGE_SIZE * DOCKER_LINE_HEIGHT
}

// ---------------------------------------------------------------------------
// Temperature trend.
// ---------------------------------------------------------------------------

pub const TEMP_TREND_WINDOW_MS: u64 = 60_000;
pub const TEMP_TREND_COMPARE_MS: u64 = 30_000;
/// Smallest change, in degrees, reported as rising or falling.
pub const TEMP_TREND_DEADBAND: i64 = 1;
/// Temperature from which the alarm mark is shown.
pub const TEMP_ALARM_C: i32 = 80;

#[derive(Clone, Copy, PartialEq, Eq, Debug, Structural)]
pub enum TrendState {
    Absent,
    Rising,
    Falling,
    Steady,
}

// ---------------------------------------------------------------------------
// Frame plan.
// ---------------------------------------------------------------------------

/// What the caller draws in one frame of the monitor page, in this order.
#[derive(Clone, Copy, PartialEq, Eq, Debug, Structural)]
pub struct FramePlan {
    /// Draw the static background and mark the whole screen dirty.
    pub draw_background: bool,
    /// Refresh the slow (1 Hz) content and the container table.
    pub slow_content: bool,
    /// Mark the whole screen dirty after the CPU pills.
    pub full_refresh: bool,
    /// Draw the power dialog on top.
    pub dialog: bool,
}

// ---------------------------------------------------------------------------
// Static background: base, container grid and footer.
// ---------------------------------------------------------------------------
pub const DOCKER_RIGHT: i32 = 468;
pub const DOCKER_ZEBRA_RIGHT: i32 = 456;
pub const UNDERLINE_Y: i32 = 172;
pub const FOOTER_H: i32 = 20;

/// Colour of the pixel `(px, py)` after the base of the monitor page is
/// painted: the top panel over the background.
pub open spec fn monitor_base_pixel(px: int, py: int) -> u16 {
    if py < TOP_PANEL_H {
        rgb565_of(PANEL)
    } else {
        rgb565_of(BG)
    }
}

/// Paint the base of the monitor page: the background and the top panel.
pub fn draw_monitor_base(fb: &mut Framebuffer)
    requires
        old(fb).wf(),
    ensures
        final(fb).wf(),
        changes_marked(*old(fb), *final(fb)),
        forall|px: int, py: int|
            on_screen_pixel(px, py) ==> #[trigger] final(fb).pixel(px, py) == monitor_base_pixel(px, py),
{
    let ghost f0 = *fb;
    fill_rect(fb, 0, 0, W as i32, H as i32, BG);
    let ghost f1 = *fb;
    fill_rect(fb, 0, 0, W as i32, TOP_PANEL_H, PANEL);
    proof {
        lemma_fill_marks_changes(f0, f1, 0, 0, W as i32, H as i32, BG);
        lemma_fill_marks_changes(f1, *fb, 0, 0, W as i32, TOP_PANEL_H, PANEL);
        lemma_changes_marked_trans(f0, f1, *fb);
        assert forall|px: int, py: int| on_screen_pixel(px, py) implies #[trigger] fb.pixel(px, py)
            == monitor_base_pixel(px, py) by {
            assert(f1.pixel(px, py) == rgb565_of(BG));
        }
    }
}

/// The pixel lies in one of the striped rows among the first `rows` rows of
/// the container list: every second row, starting with the second, from
/// x = 12 to the zebra's right edge.
pub open spec fn in_zebra(px: int, py: int, rows: int) -> bool {
    &&& 12 <= px < DOCKER_ZEBRA_RIGHT
    &&& DOCKER_LIST_Y <= py < DOCKER_LIST_Y + rows * 14
    &&& ((py - DOCKER_LIST_Y) / 14) % 2 == 1
}

/// Colour of the pixel `(px, py)` after the container grid and the footer
/// are painted over a framebuffer whose pixel there was `before`.
pub open spec fn docker_grid_pixel(px: int, py: int, before: u16) -> u16 {
    if py >= H - FOOTER_H {
        rgb565_of(PANEL)
    } else if in_zebra(px, py, CONTAINER_PAGE_SIZE as int) {
        rgb565_of(ROW_STRIPE)
    } else if py == UNDERLINE_Y && 12 <= px < DOCKER_RIGHT {
        rgb565_of(ACCENT)
    } else {
        before
    }
}

/// Paint the container list's grid and the footer panel: the accent line
/// under the list header, the stripes of every second row and the footer.
pub fn draw_docker_grid(fb: &mut Framebuffer)
    requires
        old(fb).wf(),
    ensures
        final(fb).wf(),
        changes_marked(*old(fb), *final(fb)),
        forall|px: int, py: int|
            on_screen_pixel(px, py) ==> #[trigger] final(fb).pixel(px, py) == docker_grid_pixel(
                px,
                py,
                old(fb).pixel(px, py),
            ),
{
    let ghost f0 = *fb;
    draw_line_h(fb, 12, DOCKER_RIGHT, UNDERLINE_Y, ACCENT);
    let ghost f1 = *fb;
    proof {
        lemma_hline_marks_changes(f0, f1, 12, DOCKER_RIGHT, UNDERLINE_Y, ACCENT);
        assert(f1.dirty@.subrange(0, f1.dirty@.len() as int) =~= f1.dirty@);
        assert forall|px: int, py: int| on_screen_pixel(px, py) implies #[trigger] f1.pixel(px, py)
            == if in_zebra(px, py, 0) {
            rgb565_of(ROW_STRIPE)
        } else {
            f1.pixel(px, py)
        } by {}
    }
    let mut i: usize = 0;
    while i < CONTAINER_PAGE_SIZE
        invariant
            i <= CONTAINER_PAGE_SIZE,
            fb.wf(),
            f1.wf(),
            changes_marked(f1, *fb),
            forall|px: int, py: int|
                on_screen_pixel(px, py) ==> #[trigger] fb.pixel(px, py) == if in_zebra(px, py, i as int) {
                    rgb565_of(ROW_STRIPE)
                } else {
                    f1.pixel(px, py)
                },
        decreases CONTAINER_PAGE_SIZE - i,
    {
        let ghost g0 = *fb;
        if i % 2 == 1 {
            fill_rect(
                fb,
                12,
                DOCKER_LIST_Y + (i as i32) * DOCKER_LINE_HEIGHT,
                DOCKER_ZEBRA_RIGHT - 12,
                DOCKER_LINE_HEIGHT,
                ROW_STRIPE,
            );
            proof {
                lemma_fill_marks_changes(
                    g0,
                    *fb,
                    12,
                    (DOCKER_LIST_Y + i * DOCKER_LINE_HEIGHT) as i32,
                    (DOCKER_ZEBRA_RIGHT - 12) as i32,
                    DOCKER_LINE_HEIGHT,
                    ROW_STRIPE,
                );
                lemma_changes_marked_trans(f1, g0, *fb);
            }
        }
        proof {
            assert forall|px: int, py: int| on_screen_pixel(px, py) implies #[trigger] fb.pixel(px, py)
                == if in_zebra(px, py, i + 1) {
                rgb565_of(ROW_STRIPE)
            } else {
                f1.pixel(px, py)
            } by {
                let d = py - DOCKER_LIST_Y;
                if DOCKER_LIST_Y + i * 14 <= py < DOCKER_LIST_Y + i * 14 + 14 {
                    assert(d / 14 == i);
                } else if DOCKER_LIST_Y <= py < DOCKER_LIST_Y + i * 14 {
                    assert(in_zebra(px, py, i + 1) == in_zebra(px, py, i as int));
                }
                assert(g0.pixel(px, py) == if in_zebra(px, py, i as int) {
                    rgb565_of(ROW_STRIPE)
                } else {
                    f1.pixel(px, py)
                });
            }
        }
        i = i + 1;
    }
    let ghost f2 = *fb;
    fill_rect(fb, 0, H as i32 - FOOTER_H, W as i32, FOOTER_H, PANEL);
    proof {
        lemma_fill_marks_changes(f2, *fb, 0, (H - FOOTER_H) as i32, W as i32, FOOTER_H, PANEL);
        lemma_changes_marked_trans(f0, f1, f2);
        lemma_changes_marked_trans(f0, f2, *fb);
        assert forall|px: int, py: int| on_screen_pixel(px, py) implies #[trigger] fb.pixel(px, py)
            == docker_grid_pixel(px, py, f0.pixel(px, py)) by {
            assert(f2.pixel(px, py) == if in_zebra(px, py, CONTAINER_PAGE_SIZE as int) {
                rgb565_of(ROW_STRIPE)
            } else {
                f1.pixel(px, py)
            });
            if in_zebra(px, py, CONTAINER_PAGE_SIZE as int) {
                assert(py < DOCKER_LIST_Y + 8 * 14);
            }
        }
    }
}

// ---------------------------------------------------------------------------
// Tailscale chip: rounded pill with a state dot and "TS".
// ---------------------------------------------------------------------------
pub const TS_CHIP_X: i32 = 134;
pub const TS_CHIP_Y: i32 = 7;
pub const TS_CHIP_W: i32 = 46;
pub const TS_CHIP_H: i32 = 18;
pub const TS_CHIP_R: i32 = 9;
pub const TS_DOT_R: i32 = 3;

/// Where the chip's parts go: `(dot centre x, dot centre y, text x)`; the
/// dot sits 8 pixels in from the left edge, the text 5 pixels right of it.
pub fn ts_chip_layout() -> (r: (i32, i32, i32))
    ensures
        r.0 == TS_CHIP_X + 8 + TS_DOT_R,
        r.1 == TS_CHIP_Y + TS_CHIP_H / 2,
        r.2 == TS_CHIP_X + 8 + TS_DOT_R + TS_DOT_R + 5,
{
    let dot_x = TS_CHIP_X + 8 + TS_DOT_R;
    (dot_x, TS_CHIP_Y + TS_CHIP_H / 2, dot_x + TS_DOT_R + 5)
}

pub open spec fn clamp_zero(v: int) -> int {
    if v < 0 {
        0
    } else {
        v
    }
}

/// Box of the chip's text drawn with its first glyph's top-left corner at
/// `(gx, gy)` and `tw` pixels wide: 11 rows high, clamped at zero.
pub open spec fn ts_text_box(gx: int, gy: int, tw: int) -> Rect {
    Rect {
        x1: clamp_zero(gx) as usize,
        y1: clamp_zero(gy) as usize,
        x2: clamp_zero(gx + tw) as usize,
        y2: clamp_zero(gy + 11) as usize,
    }
}

/// State of the Tailscale chip: what it last showed and the box its text
/// covered. The pill, the dot and the text are drawn by the caller.
pub struct TsChip {
    pub last_on: Option<bool>,
    pub last_text_bbox: Option<Rect>,
}

impl TsChip {
    pub open spec fn wf(&self) -> bool {
        self.last_text_bbox matches Some(b) ==> rect_fits(b)
    }

    pub fn new() -> (c: Self)
        ensures
            c.wf(),
            c.last_on is None,
            c.last_text_bbox is None,
    {
        TsChip { last_on: None, last_text_bbox: None }
    }

    /// Show the state `on`. When the chip already shows it nothing happens;
    /// otherwise the previous text box is filled with `panel`, the state is
    /// recorded and `true` tells the caller to redraw the chip and then
    /// record its text box.
    pub fn update(&mut self, fb: &mut Framebuffer, on: bool, panel: u32) -> (redraw: bool)
        requires
            old(self).wf(),
            old(fb).wf(),
        ensures
            final(self).wf(),
            final(fb).wf(),
            redraw == (old(self).last_on != Some(on)),
            final(self).last_on == Some(on),
            final(self).last_text_bbox == old(self).last_text_bbox,
            !redraw ==> *final(fb) == *old(fb),
            changes_marked(*old(fb), *final(fb)),
            match old(self).last_text_bbox {
                Some(b) => redraw ==> marks_within_rect(*old(fb), *final(fb), b),
                None => *final(fb) == *old(fb),
            },
            forall|px: int, py: int|
                on_screen_pixel(px, py) ==> #[trigger] final(fb).pixel(px, py) == match old(
                    self,
                ).last_text_bbox {
                    Some(b) => if redraw && rect_covers(b, px, py) {
                        rgb565_of(panel)
                    } else {
                        old(fb).pixel(px, py)
                    },
                    None => old(fb).pixel(px, py),
                },
    {
        let same = match self.last_on {
            Some(v) => v == on,
            None => false,
        };
        if same {
            proof {
                lemma_changes_marked_refl(*fb);
            }
            return false;
        }
        if let Some(last) = self.last_text_bbox {
            let ghost f0 = *fb;
            fill_rect(fb, last.x1 as i32, last.y1 as i32, last.width() as i32, last.height() as i32, panel);
            proof {
                lemma_fill_marks_changes(f0, *fb, last.x1 as i32, last.y1 as i32, last.spec_width() as i32, last.spec_height() as i32, panel);
                lemma_fill_marks_within(f0, *fb, last.x1 as i32, last.y1 as i32, last.spec_width() as i32, last.spec_height() as i32, panel);
            }
        } else {
            proof {
                lemma_changes_marked_refl(*fb);
            }
        }
        self.last_on = Some(on);
        true
    }

    /// Record the box of the text just drawn: its first glyph's top-left
    /// corner is `(gx, gy)` and the text is `tw` pixels wide.
    pub fn set_text_box(&mut self, gx: i32, gy: i32, tw: i32)
        requires
            i32::MIN <= gx + tw <= i32::MAX,
            gy + 11 <= i32::MAX,
        ensures
            final(self).wf(),
            final(self).last_on == old(self).last_on,
            final(self).last_text_bbox == Some(ts_text_box(gx as int, gy as int, tw as int)),
    {
        let x2 = gx + tw;
        let y2 = gy + 11;
        self.last_text_bbox = Some(
            Rect::new(
                if gx < 0 { 0 } else { gx as usize },
                if gy < 0 { 0 } else { gy as usize },
                if x2 < 0 { 0 } else { x2 as usize },
                if y2 < 0 { 0 } else { y2 as usize },
            ),
        );
    }
}

// ---------------------------------------------------------------------------
// NET hero card: up-rate on the label line, down-rate on the value line.
// ---------------------------------------------------------------------------
pub const NET_UP_TREND_W: i32 = 7;
pub const NET_UP_TREND_H: i32 = 5;
pub const NET_DOWN_TREND_W: i32 = 10;
pub const NET_DOWN_TREND_H: i32 = 9;
/// Largest coordinate, and largest text width, a card is laid out with.
pub const CARD_COORD_MAX: i32 = 0x100_0000;

/// Box the up-rate line of a NET card at `(x, y)` covers, where the "NET"
/// text is `ntw` pixels wide: from the left edge of the up arrow, 60 pixels
/// past the arrow, over the arrow's height plus 4.
pub open spec fn net_up_box(x: int, y: int, ntw: int) -> Rect {
    let ax = x + 8 + ntw + 2 + NET_UP_TREND_W / 2 - NET_UP_TREND_W / 2;
    Rect {
        x1: ax as usize,
        y1: (y + 3) as usize,
        x2: (ax + NET_UP_TREND_W + 60) as usize,
        y2: (y + 3 + NET_UP_TREND_H + 4) as usize,
    }
}

/// Box the down-rate line of a NET card at `(x, y)` covers: from the left
/// edge of the down arrow, 80 pixels past the arrow.
pub open spec fn net_down_box(x: int, y: int) -> Rect {
    let ax = x + 8 + NET_DOWN_TREND_W / 2 - NET_DOWN_TREND_W / 2;
    Rect {
        x1: ax as usize,
        y1: (y + 19) as usize,
        x2: (ax + NET_DOWN_TREND_W + 80) as usize,
        y2: (y + 19 + NET_DOWN_TREND_H + 4) as usize,
    }
}

/// The NET hero card: where its rate lines and their arrows go, the text
/// each line shows and the box each line last covered. The arrows and the
/// rate text are drawn by the caller.
pub struct NetCard {
    pub x: i32,
    pub y: i32,
    /// Width of the "NET" label text.
    pub net_text_width: i32,
    pub last_up: String,
    pub last_down: String,
    pub last_up_bbox: Option<Rect>,
    pub last_down_bbox: Option<Rect>,
}

impl NetCard {
    /// The card lies at non-negative coordinates, and the boxes it
    /// remembers are those of its two lines.
    pub open spec fn wf(&self) -> bool {
        &&& 0 <= self.x <= CARD_COORD_MAX
        &&& 0 <= self.y <= CARD_COORD_MAX
        &&& 0 <= self.net_text_width <= CARD_COORD_MAX
        &&& self.last_up_bbox matches Some(b) ==> b == self.up_box()
        &&& self.last_down_bbox matches Some(b) ==> b == self.down_box()
    }

    pub open spec fn up_box(&self) -> Rect {
        net_up_box(self.x as int, self.y as int, self.net_text_width as int)
    }

    pub open spec fn down_box(&self) -> Rect {
        net_down_box(self.x as int, self.y as int)
    }

    pub open spec fn up_arrow_x_spec(&self) -> int {
        self.x + 8 + self.net_text_width + 2 + NET_UP_TREND_W / 2
    }

    pub open spec fn down_arrow_x_spec(&self) -> int {
        self.x + 8 + NET_DOWN_TREND_W / 2
    }

    pub fn new(x: i32, y: i32, net_text_width: i32) -> (c: Self)
        requires
            0 <= x <= CARD_COORD_MAX,
            0 <= y <= CARD_COORD_MAX,
            0 <= net_text_width <= CARD_COORD_MAX,
        ensures
            c.wf(),
            c.x == x && c.y == y && c.net_text_width == net_text_width,
            c.last_up@ == Seq::<char>::empty() && c.last_down@ == Seq::<char>::empty(),
            c.last_up_bbox is None && c.last_down_bbox is None,
    {
        NetCard {
            x,
            y,
            net_text_width,
            last_up: String::new(),
            last_down: String::new(),
            last_up_bbox: None,
            last_down_bbox: None,
        }
    }

    /// Centre of the up arrow.
    pub fn up_arrow_center(&self) -> (r: (i32, i32))
        requires
            self.wf(),
        ensures
            r.0 == self.up_arrow_x_spec(),
            r.1 == self.y + 3 + NET_UP_TREND_H / 2,
    {
        (self.x + 8 + self.net_text_width + 2 + NET_UP_TREND_W / 2, self.y + 3 + NET_UP_TREND_H / 2)
    }

    /// Centre of the down arrow.
    pub fn down_arrow_center(&self) -> (r: (i32, i32))
        requires
            self.wf(),
        ensures
            r.0 == self.down_arrow_x_spec(),
            r.1 == self.y + 19 + NET_DOWN_TREND_H / 2,
    {
        (self.x + 8 + NET_DOWN_TREND_W / 2, self.y + 19 + NET_DOWN_TREND_H / 2)
    }

    /// Left edge of the up-rate text: after the "NET" text and the arrow.
    pub fn up_label_x(&self) -> (r: i32)
        requires
            self.wf(),
        ensures
            r == self.x + 8 + self.net_text_width + NET_UP_TREND_W + 3,
    {
        self.x + 8 + self.net_text_width + NET_UP_TREND_W + 3
    }

    /// Left edge of the down-rate text: after the arrow.
    pub fn down_label_x(&self) -> (r: i32)
        requires
            self.wf(),
        ensures
            r == self.x + 8 + NET_DOWN_TREND_W + 3,
    {
        self.x + 8 + NET_DOWN_TREND_W + 3
    }

    pub fn up_bbox(&self) -> (r: Rect)
        requires
            self.wf(),
        ensures
            r == self.up_box(),
    {
        let ax = self.x + 8 + self.net_text_width + 2 + NET_UP_TREND_W / 2 - NET_UP_TREND_W / 2;
        Rect::new(
            ax as usize,
            (self.y + 3) as usize,
            (ax + NET_UP_TREND_W + 60) as usize,
            (self.y + 3 + NET_UP_TREND_H + 4) as usize,
        )
    }

    pub fn down_bbox(&self) -> (r: Rect)
        requires
            self.wf(),
        ensures
            r == self.down_box(),
    {
        let ax = self.x + 8 + NET_DOWN_TREND_W / 2 - NET_DOWN_TREND_W / 2;
        Rect::new(
            ax as usize,
            (self.y + 19) as usize,
            (ax + NET_DOWN_TREND_W + 80) as usize,
            (self.y + 19 + NET_DOWN_TREND_H + 4) as usize,
        )
    }

    /// Show `text` on the up-rate line. When it differs from what the line
    /// shows, the strip from the arrow's centre across the line and the
    /// line's previous box are filled with `panel`, the text and the line's
    /// box are recorded, and `true` tells the caller to draw the arrow and
    /// the text. Otherwise nothing changes.
    pub fn update_up(&mut self, fb: &mut Framebuffer, text: &str, panel: u32) -> (changed: bool)
        requires
            old(self).wf(),
            old(fb).wf(),
        ensures
            final(self).wf(),
            final(fb).wf(),
            changed == (text@ != old(self).last_up@),
            final(self).x == old(self).x,
            final(self).y == old(self).y,
            final(self).net_text_width == old(self).net_text_width,
            final(self).last_up@ == text@,
            final(self).last_down@ == old(self).last_down@,
            final(self).last_down_bbox == old(self).last_down_bbox,
            final(self).last_up_bbox == if changed {
                Some(old(self).up_box())
            } else {
                old(self).last_up_bbox
            },
            !changed ==> *final(fb) == *old(fb),
            changes_marked(*old(fb), *final(fb)),
            forall|px: int, py: int|
                on_screen_pixel(px, py) ==> #[trigger] final(fb).pixel(px, py) == if changed && (
                in_fill(
                    old(self).up_arrow_x_spec(),
                    old(self).y + 3,
                    NET_UP_TREND_W + 60,
                    NET_UP_TREND_H + 4,
                    px,
                    py,
                ) || (old(self).last_up_bbox is Some && rect_covers(old(self).up_box(), px, py))) {
                    rgb565_of(panel)
                } else {
                    old(fb).pixel(px, py)
                },
    {
        if str_eq(text, self.last_up.as_str()) {
            proof {
                lemma_changes_marked_refl(*fb);
            }
            return false;
        }
        let ax = self.x + 8 + self.net_text_width + 2 + NET_UP_TREND_W / 2;
        let ghost f0 = *fb;
        fill_rect(fb, ax, self.y + 3, NET_UP_TREND_W + 60, NET_UP_TREND_H + 4, panel);
        let ghost f1 = *fb;
        proof {
            lemma_fill_marks_changes(f0, f1, ax, (self.y + 3) as i32, (NET_UP_TREND_W + 60) as i32, (NET_UP_TREND_H + 4) as i32, panel);
        }
        if let Some(last) = self.last_up_bbox {
            fill_rect(fb, last.x1 as i32, last.y1 as i32, last.width() as i32, last.height() as i32, panel);
            proof {
                lemma_fill_marks_changes(f1, *fb, last.x1 as i32, last.y1 as i32, last.spec_width() as i32, last.spec_height() as i32, panel);
                lemma_changes_marked_trans(f0, f1, *fb);
            }
        }
        self.last_up = text.to_owned();
        self.last_up_bbox = Some(self.up_bbox());
        true
    }

    /// Show `text` on the down-rate line, as `update_up` does for the up
    /// line; the strip there is 80 pixels past the arrow.
    pub fn update_down(&mut self, fb: &mut Framebuffer, text: &str, panel: u32) -> (changed: bool)
        requires
            old(self).wf(),
            old(fb).wf(),
        ensures
            final(self).wf(),
            final(fb).wf(),
            changed == (text@ != old(self).last_down@),
            final(self).x == old(self).x,
            final(self).y == old(self).y,
            final(self).net_text_width == old(self).net_text_width,
            final(self).last_down@ == text@,
            final(self).last_up@ == old(self).last_up@,
            final(self).last_up_bbox == old(self).last_up_bbox,
            final(self).last_down_bbox == if changed {
                Some(old(self).down_box())
            } else {
                old(self).last_down_bbox
            },
            !changed ==> *final(fb) == *old(fb),
            changes_marked(*old(fb), *final(fb)),
            forall|px: int, py: int|
                on_screen_pixel(px, py) ==> #[trigger] final(fb).pixel(px, py) == if changed && (
                in_fill(
                    old(self).down_arrow_x_spec(),
                    old(self).y + 19,
                    NET_DOWN_TREND_W + 80,
                    NET_DOWN_TREND_H + 4,
                    px,
                    py,
                ) || (old(self).last_down_bbox is Some && rect_covers(old(self).down_box(), px, py))) {
                    rgb565_of(panel)
                } else {
                    old(fb).pixel(px, py)
                },
    {
        if str_eq(text, self.last_down.as_str()) {
            proof {
                lemma_changes_marked_refl(*fb);
            }
            return false;
        }
        let ax = self.x + 8 + NET_DOWN_TREND_W / 2;
        let ghost f0 = *fb;
        fill_rect(fb, ax, self.y + 19, NET_DOWN_TREND_W + 80, NET_DOWN_TREND_H + 4, panel);
        let ghost f1 = *fb;
        proof {
            lemma_fill_marks_changes(f0, f1, ax, (self.y + 19) as i32, (NET_DOWN_TREND_W + 80) as i32, (NET_DOWN_TREND_H + 4) as i32, panel);
        }
        if let Some(last) = self.last_down_bbox {
            fill_rect(fb, last.x1 as i32, last.y1 as i32, last.width() as i32, last.height() as i32, panel);
            proof {
                lemma_fill_marks_changes(f1, *fb, last.x1 as i32, last.y1 as i32, last.spec_width() as i32, last.spec_height() as i32, panel);
                lemma_changes_marked_trans(f0, f1, *fb);
            }
        }
        self.last_down = text.to_owned();
        self.last_down_bbox = Some(self.down_bbox());
        true
    }
}

/// The monitor page's state apart from its widgets.
pub struct MonitorPage {
    pub bg_done: bool,
    pub last_slow_render_ms: Option<u64>,
    pub container_scroll_offset: usize,
    /// Offset and total the scroll track last showed.
    pub scroll_last: Option<(usize, usize)>,
    pub temp_trend_history: Vec<(u64, i32)>,
    pub temp_trend_last_state: TrendState,
    pub temp_trend_last_alarm: bool,
    pub temp_trend_last_bbox: Option<Rect>,
    pub power_state: PowerState,
    /// Command to run, set when the user confirms the dialog.
    pub pending_command: Option<PowerAction>,
    pub pending_full_refresh: bool,
}

/// The page with the power dialog opened for `action` at `now`; it closes by
/// itself `POWER_CONFIRM_MS` later.
pub open spec fn confirming(o: MonitorPage, action: PowerAction, now: u64) -> MonitorPage {
    MonitorPage {
        power_state: PowerState::Confirming { action, deadline_ms: later(now, POWER_CONFIRM_MS) },
        ..o
    }
}

/// The page with the dialog closed, no command pending and a full redraw of
/// the page under the dialog scheduled.
pub open spec fn cancelled(o: MonitorPage) -> MonitorPage {
    MonitorPage {
        power_state: PowerState::Idle,
        pending_command: None,
        bg_done: false,
        pending_full_refresh: true,
        ..o
    }
}

/// The page carrying out `action` from `now` on, with the command pending.
pub open spec fn executing(o: MonitorPage, action: PowerAction, now: u64) -> MonitorPage {
    MonitorPage {
        power_state: PowerState::Executing { action, started_ms: now },
        pending_command: Some(action),
        ..o
    }
}

/// The dialog after a tick at `now`, `outcome` being the running command's
/// result if it arrived: a failure, or a command running for
/// `POWER_EXEC_LIMIT_MS`, turns into the failure notice for
/// `POWER_FAILED_MS`; an expired confirmation or failure notice closes the
/// dialog.
pub open spec fn power_tick(o: MonitorPage, now: u64, outcome: Option<bool>) -> MonitorPage {
    let after_exec = match o.power_state {
        PowerState::Executing { started_ms, .. } => if outcome == Some(false) || now >= later(
            started_ms,
            POWER_EXEC_LIMIT_MS,
        ) {
            PowerState::Failed { deadline_ms: later(now, POWER_FAILED_MS) }
        } else {
            o.power_state
        },
        _ => o.power_state,
    };
    let closes = match after_exec {
        PowerState::Confirming { deadline_ms, .. } => now >= deadline_ms,
        PowerState::Failed { deadline_ms } => now >= deadline_ms,
        _ => false,
    };
    if closes {
        cancelled(o)
    } else {
        MonitorPage { power_state: after_exec, ..o }
    }
}

/// The touch activates (a tap or a long press).
pub open spec fn activates(ev: TouchEvent) -> bool {
    ev.kind is Tap || ev.kind is LongPress
}

/// The page after the touch `ev` at `now`. Only activations count. An open
/// dialog takes every touch: its confirm button runs the command, anything
/// else closes it; while a command runs or its failure shows, touches are
/// ignored. Otherwise the reboot and power chips open the dialog and a touch
/// on the container list scrolls it by one.
pub open spec fn touch_state(o: MonitorPage, ev: TouchEvent, now: u64) -> MonitorPage {
    let x = ev.x as int;
    let y = ev.y as int;
    if !activates(ev) {
        o
    } else {
        match o.power_state {
            PowerState::Confirming { action, .. } => if in_box(
                DIALOG_CONFIRM_X as int,
                DIALOG_BUTTON_Y as int,
                DIALOG_BUTTON_W as int,
                DIALOG_BUTTON_H as int,
                x,
                y,
            ) {
                executing(o, action, now)
            } else {
                cancelled(o)
            },
            PowerState::Idle => if in_box(
                MENU_CHIP_X as int,
                MENU_CHIP_Y as int,
                MENU_CHIP_W as int,
                MENU_CHIP_H as int,
                x,
                y,
            ) {
                o
            } else if in_box(
                RST_CHIP_X as int,
                RST_CHIP_Y as int,
                RST_CHIP_W as int,
                RST_CHIP_H as int,
                x,
                y,
            ) {
                confirming(o, PowerAction::Reboot, now)
            } else if in_box(
                PWR_CHIP_X as int,
                PWR_CHIP_Y as int,
                PWR_CHIP_W as int,
                PWR_CHIP_H as int,
                x,
                y,
            ) {
                confirming(o, PowerAction::PowerOff, now)
            } else if hero_at(x, y) is None && !in_cpu_area(x, y) && on_container_list(y) {
                MonitorPage {
                    container_scroll_offset: if o.container_scroll_offset < usize::MAX {
                        (o.container_scroll_offset + 1) as usize
                    } else {
                        o.container_scroll_offset
                    },
                    ..o
                }
            } else {
                o
            },
            _ => o,
        }
    }
}

/// The CPU area of the page, which leads to the CPU page.
pub open spec fn in_cpu_area(x: int, y: int) -> bool {
    in_box(
        CPU_AREA_X1 as int,
        CPU_AREA_Y1 as int,
        (CPU_AREA_X2 - CPU_AREA_X1) as int,
        (CPU_AREA_Y2 - CPU_AREA_Y1) as int,
        x,
        y,
    )
}

/// Id of the page the touch `ev` switches to, if any: with no dialog open,
/// an activation on a hero card leads to its detail page and one on the CPU
/// area to the CPU page (the chips take precedence).
pub open spec fn touch_target(o: MonitorPage, ev: TouchEvent) -> Option<Seq<char>> {
    let x = ev.x as int;
    let y = ev.y as int;
    if !activates(ev) || !(o.power_state is Idle) {
        None
    } else if in_box(MENU_CHIP_X as int, MENU_CHIP_Y as int, MENU_CHIP_W as int, MENU_CHIP_H as int, x, y)
        || in_box(RST_CHIP_X as int, RST_CHIP_Y as int, RST_CHIP_W as int, RST_CHIP_H as int, x, y)
        || in_box(PWR_CHIP_X as int, PWR_CHIP_Y as int, PWR_CHIP_W as int, PWR_CHIP_H as int, x, y) {
        None
    } else if hero_at(x, y) is Some {
        Some(hero_target(hero_at(x, y).unwrap()))
    } else if in_cpu_area(x, y) {
        Some("cpu"@)
    } else {
        None
    }
}

/// Scroll offset after one step of the container list: the next page start,
/// wrapping to 0 after the last.
pub open spec fn next_scroll(offset: usize, total: usize) -> usize {
    let max_offset = if total >= CONTAINER_PAGE_SIZE {
        total - CONTAINER_PAGE_SIZE
    } else {
        0
    };
    if offset >= max_offset {
        0
    } else {
        (offset + 1) as usize
    }
}

/// Number of container pages (at least one).
pub open spec fn total_pages(total: usize) -> nat {
    if total == 0 {
        1
    } else {
        ((total + CONTAINER_PAGE_SIZE - 1) / CONTAINER_PAGE_SIZE as int) as nat
    }
}

impl MonitorPage {
    pub fn new() -> (p: Self)
        ensures
            !p.bg_done,
            p.last_slow_render_ms is None,
            p.container_scroll_offset == 0,
            p.scroll_last is None,
            p.temp_trend_history@.len() == 0,
            p.temp_trend_last_state == TrendState::Absent,
            !p.temp_trend_last_alarm,
            p.temp_trend_last_bbox is None,
            p.power_state == PowerState::Idle,
            p.pending_command is None,
            !p.pending_full_refresh,
    {
        MonitorPage {
            bg_done: false,
            last_slow_render_ms: None,
            container_scroll_offset: 0,
            scroll_last: None,
            temp_trend_history: Vec::new(),
            temp_trend_last_state: TrendState::Absent,
            temp_trend_last_alarm: false,
            temp_trend_last_bbox: None,
            power_state: PowerState::Idle,
            pending_command: None,
            pending_full_refresh: false,
        }
    }

    /// The page becomes active: everything is redrawn from scratch and any
    /// dialog is dropped.
    pub fn on_enter(&mut self)
        ensures
            !final(self).bg_done,
            final(self).last_slow_render_ms is None,
            final(self).container_scroll_offset == 0,
            final(self).scroll_last is None,
            final(self).temp_trend_history@.len() == 0,
            final(self).temp_trend_last_state == TrendState::Absent,
            !final(self).temp_trend_last_alarm,
            final(self).temp_trend_last_bbox is None,
            final(self).power_state == PowerState::Idle,
            final(self).pending_command is None,
            !final(self).pending_full_refresh,
    {
        self.bg_done = false;
        self.last_slow_render_ms = None;
        self.container_scroll_offset = 0;
        self.temp_trend_history = Vec::new();
        self.temp_trend_last_state = TrendState::Absent;
        self.temp_trend_last_alarm = false;
        self.temp_trend_last_bbox = None;
        self.scroll_last = None;
        self.power_state = PowerState::Idle;
        self.pending_command = None;
        self.pending_full_refresh = false;
    }

    // -----------------------------------------------------------------------
    // Power dialog.
    // -----------------------------------------------------------------------

    /// Open the confirmation dialog for `action`; it closes by itself after
    /// `POWER_CONFIRM_MS`.
    pub fn enter_power_confirm(&mut self, action: PowerAction, now_ms: u64)
        ensures
            *final(self) == confirming(*old(self), action, now_ms),
    {
        let deadline_ms = now_ms.saturating_add(POWER_CONFIRM_MS);
        self.power_state = PowerState::Confirming { action, deadline_ms };
    }

    /// Close the dialog and schedule a full redraw of the page under it.
    pub fn cancel_power(&mut self)
        ensures
            *final(self) == cancelled(*old(self)),
    {
        self.power_state = PowerState::Idle;
        self.pending_command = None;
        self.bg_done = false;
        self.pending_full_refresh = true;
    }

    /// Start carrying out `action`: the caller takes the command with
    /// `take_pending_command` and reports its outcome to
    /// `update_power_state`.
    pub fn execute_power(&mut self, action: PowerAction, now_ms: u64)
        ensures
            *final(self) == executing(*old(self), action, now_ms),
    {
        self.power_state = PowerState::Executing { action, started_ms: now_ms };
        self.pending_command = Some(action);
    }

    /// The command waiting to be run, if any; it is handed out once.
    pub fn take_pending_command(&mut self) -> (r: Option<PowerAction>)
        ensures
            r == old(self).pending_command,
            *final(self) == (MonitorPage { pending_command: None, ..*old(self) }),
    {
        let r = self.pending_command;
        self.pending_command = None;
        r
    }

    /// Advance the dialog at `now_ms`. `outcome` is the result of the
    /// running command when one has arrived: `Some(false)` for a failure.
    /// A failure, or a command running for `POWER_EXEC_LIMIT_MS`, shows the
    /// failure notice for `POWER_FAILED_MS`; an unanswered confirmation and
    /// an expired failure notice close the dialog.
    pub fn update_power_state(&mut self, now_ms: u64, outcome: Option<bool>)
        ensures
            *final(self) == power_tick(*old(self), now_ms, outcome),
    {
        if let PowerState::Executing { started_ms, .. } = self.power_state {
            if outcome == Some(false) {
                self.power_state = PowerState::Failed { deadline_ms: now_ms.saturating_add(POWER_FAILED_MS) };
            }
            if now_ms >= started_ms.saturating_add(POWER_EXEC_LIMIT_MS) {
                self.power_state = PowerState::Failed { deadline_ms: now_ms.saturating_add(POWER_FAILED_MS) };
            }
        }
        match self.power_state {
            PowerState::Confirming { deadline_ms, .. } => {
                if now_ms >= deadline_ms {
                    self.cancel_power();
                }
            },
            PowerState::Failed { deadline_ms } => {
                if now_ms >= deadline_ms {
                    self.cancel_power();
                }
            },
            _ => {},
        }
    }

    /// Title of the dialog shown in the current state, if one is shown.
    pub fn dialog_title(&self) -> (r: Option<&'static str>)
        ensures
            match self.power_state {
                PowerState::Idle => r is None,
                PowerState::Confirming { action, .. } => (r matches Some(t) && t@ == match action {
                    PowerAction::Reboot => "Reboot?"@,
                    PowerAction::PowerOff => "Power off?"@,
                }),
                PowerState::Executing { .. } => (r matches Some(t) && t@ == "Executing..."@),
                PowerState::Failed { .. } => (r matches Some(t) && t@ == "Failed"@),
            },
    {
        match self.power_state {
            PowerState::Idle => None,
            PowerState::Confirming { action, .. } => Some(action.title()),
            PowerState::Executing { .. } => Some("Executing..."),
            PowerState::Failed { .. } => Some("Failed"),
        }
    }

    // -----------------------------------------------------------------------
    // Touch.
    // -----------------------------------------------------------------------

    /// Handle a touch at `now_ms`. Only activations (tap, long press) count.
    /// An open dialog takes every touch: confirm runs the command, anything
    /// else cancels (and touches are ignored while a command runs or its
    /// failure shows). Otherwise the menu chip does nothing, the reboot and
    /// power chips open the dialog, a hero card or the CPU area switches to
    /// its detail page, and a touch on the container list scrolls it.
    pub fn on_touch(&mut self, ev: TouchEvent, now_ms: u64) -> (r: PageAction)
        ensures
            *final(self) == touch_state(*old(self), ev, now_ms),
            match r {
                PageAction::Nothing => touch_target(*old(self), ev) is None,
                PageAction::Switch(p) => touch_target(*old(self), ev) == Some(p@),
            },
    {
        if !ev.is_activate() {
            return PageAction::Nothing;
        }
        match self.power_state {
            PowerState::Confirming { action, .. } => {
                if hit_box(&ev, DIALOG_CONFIRM_X, DIALOG_BUTTON_Y, DIALOG_BUTTON_W, DIALOG_BUTTON_H) {
                    self.execute_power(action, now_ms);
                    return PageAction::Nothing;
                }
                if hit_box(&ev, DIALOG_CANCEL_X, DIALOG_BUTTON_Y, DIALOG_BUTTON_W, DIALOG_BUTTON_H) {
                    self.cancel_power();
                    return PageAction::Nothing;
                }
                self.cancel_power();
                return PageAction::Nothing;
            },
            PowerState::Executing { .. } => {
                return PageAction::Nothing;
            },
            PowerState::Failed { .. } => {
                return PageAction::Nothing;
            },
            PowerState::Idle => {},
        }
        if hit_box(&ev, MENU_CHIP_X, MENU_CHIP_Y, MENU_CHIP_W, MENU_CHIP_H) {
            return PageAction::Nothing;
        }
        if hit_box(&ev, RST_CHIP_X, RST_CHIP_Y, RST_CHIP_W, RST_CHIP_H) {
            self.enter_power_confirm(PowerAction::Reboot, now_ms);
            return PageAction::Nothing;
        }
        if hit_box(&ev, PWR_CHIP_X, PWR_CHIP_Y, PWR_CHIP_W, PWR_CHIP_H) {
            self.enter_power_confirm(PowerAction::PowerOff, now_ms);
            return PageAction::Nothing;
        }
        let x = ev.x;
        let y = ev.y;
        if y >= HERO_CARD_Y && y < HERO_CARD_Y + HERO_CARD_H {
            let mut card_x: i32 = HERO_CARD_X0;
            if x >= card_x && x < card_x + HERO_CARD_W {
                return PageAction::Switch("temp");
            }
            card_x = card_x + HERO_CARD_STEP;
            if x >= card_x && x < card_x + HERO_CARD_W {
                return PageAction::Switch("mem");
            }
            card_x = card_x + HERO_CARD_STEP;
            if x >= card_x && x < card_x + HERO_CARD_W {
                return PageAction::Switch("disk");
            }
            card_x = card_x + HERO_CARD_STEP;
            if x >= card_x && x < card_x + HERO_CARD_W {
                return PageAction::Switch("net");
            }
        }
        if x >= CPU_AREA_X1 && x < CPU_AREA_X2 && y >= CPU_AREA_Y1 && y < CPU_AREA_Y2 {
            return PageAction::Switch("cpu");
        }
        if y >= DOCKER_LIST_Y && y < DOCKER_LIST_Y + (CONTAINER_PAGE_SIZE as i32) * DOCKER_LINE_HEIGHT {
            if self.container_scroll_offset < usize::MAX {
                self.container_scroll_offset = self.container_scroll_offset + 1;
            }
        }
        PageAction::Nothing
    }

    // -----------------------------------------------------------------------
    // Container list.
    // -----------------------------------------------------------------------

    /// Advance the container list by one for the periodic scroll. A list that
    /// fits on one page reports offset 0 and keeps the stored offset.
    pub fn scroll_containers(&mut self, total: usize) -> (r: Option<(usize, usize)>)
        ensures
            total <= CONTAINER_PAGE_SIZE ==> {
                &&& r == Some((0usize, total))
                &&& final(self).container_scroll_offset == old(self).container_scroll_offset
            },
            total > CONTAINER_PAGE_SIZE ==> {
                &&& final(self).container_scroll_offset == next_scroll(old(self).container_scroll_offset, total)
                &&& r == Some((final(self).container_scroll_offset, total))
            },
            *final(self) == (MonitorPage {
                container_scroll_offset: final(self).container_scroll_offset,
                ..*old(self)
            }),
    {
        let max_offset = total.saturating_sub(CONTAINER_PAGE_SIZE);
        if max_offset == 0 {
            return Some((0, total));
        }
        if self.container_scroll_offset >= max_offset {
            self.container_scroll_offset = 0;
        } else {
            self.container_scroll_offset = self.container_scroll_offset + 1;
        }
        Some((self.container_scroll_offset, total))
    }

    /// Keep the scroll offset within the list of `total` containers and
    /// return it: the first shown row.
    pub fn clamp_scroll(&mut self, total: usize) -> (r: usize)
        ensures
            ({
                let max_offset = if total >= CONTAINER_PAGE_SIZE {
                    total - CONTAINER_PAGE_SIZE
                } else {
                    0
                };
                &&& r == if old(self).container_scroll_offset > max_offset {
                    max_offset
                } else {
                    old(self).container_scroll_offset as int
                }
                &&& final(self).container_scroll_offset == r
            }),
            *final(self) == (MonitorPage {
                container_scroll_offset: final(self).container_scroll_offset,
                ..*old(self)
            }),
    {
        let max_offset = total.saturating_sub(CONTAINER_PAGE_SIZE);
        if self.container_scroll_offset > max_offset {
            self.container_scroll_offset = max_offset;
        }
        self.container_scroll_offset
    }
}


// ---------------------------------------------------------------------------
// Temperature trend.
// ---------------------------------------------------------------------------

/// A sample taken at `e.0` is older than the trend window at `now`.
pub open spec fn expired(e: (u64, i32), now: u64) -> bool {
    now > e.0 + TEMP_TREND_WINDOW_MS
}

/// `s` without its leading samples that are older than the window.
pub open spec fn trim_expired(s: Seq<(u64, i32)>, now: u64) -> Seq<(u64, i32)>
    decreases s.len(),
{
    if s.len() > 0 && expired(s[0], now) {
        trim_expired(s.drop_first(), now)
    } else {
        s
    }
}

/// Index of the newest sample among the first `n` taken at least
/// `TEMP_TREND_COMPARE_MS` before `now`, or -1.
pub open spec fn compare_index(h: Seq<(u64, i32)>, n: int, now: u64) -> int
    decreases n,
{
    if n <= 0 {
        -1
    } else if h[n - 1].0 + TEMP_TREND_COMPARE_MS <= now {
        n - 1
    } else {
        compare_index(h, n - 1, now)
    }
}

/// Trend of the temperature history `h` at `now` and whether the current
/// temperature is at the alarm level: the current reading is compared with
/// the newest reading at least `TEMP_TREND_COMPARE_MS` old (or the oldest
/// one kept); a change of `TEMP_TREND_DEADBAND` degrees or more is a rise or
/// fall. Fewer than two readings give no trend.
pub open spec fn trend_spec(h: Seq<(u64, i32)>, now: u64) -> (TrendState, bool) {
    if h.len() < 2 {
        (TrendState::Absent, false)
    } else {
        let current = h.last().1;
        let k = compare_index(h, h.len() as int, now);
        let old = if k >= 0 {
            h[k].1
        } else {
            h[0].1
        };
        let delta = current - old;
        (
            if delta >= TEMP_TREND_DEADBAND {
                TrendState::Rising
            } else if delta <= -TEMP_TREND_DEADBAND {
                TrendState::Falling
            } else {
                TrendState::Steady
            },
            current >= TEMP_ALARM_C,
        )
    }
}

pub proof fn lemma_compare_index(h: Seq<(u64, i32)>, n: int, now: u64)
    requires
        0 <= n <= h.len(),
    ensures
        -1 <= compare_index(h, n, now) < n,
        compare_index(h, n, now) >= 0 ==> h[compare_index(h, n, now)].0 + TEMP_TREND_COMPARE_MS
            <= now,
    decreases n,
{
    if n > 0 {
        lemma_compare_index(h, n - 1, now);
    }
}

/// Geometry of the trend arrow next to a temperature value whose box is
/// `value_box`: the arrow's centre and the box covering value, arrow and,
/// when shown, the alarm mark (`alarm_box`).
pub open spec fn trend_arrow_box(trend_x: int, trend_cy: int) -> Rect {
    Rect {
        x1: (if trend_x - 5 > 0 { trend_x - 5 } else { 0 }) as usize,
        y1: (if trend_cy - 4 > 0 { trend_cy - 4 } else { 0 }) as usize,
        x2: (if trend_x + 6 > 0 { trend_x + 6 } else { 0 }) as usize,
        y2: (if trend_cy + 5 > 0 { trend_cy + 5 } else { 0 }) as usize,
    }
}

/// Arrow centre and covering box of the trend display for a value box and
/// an optional alarm mark box: the arrow sits 4 px right of the value, 9 px
/// below its top; the alarm mark 4 px right of the arrow, at
/// `trend_x + 10` (returned third).
pub fn trend_layout(value_box: Rect, alarm_box: Option<Rect>) -> (r: (i32, i32, i32, Rect))
    requires
        value_box.x2 <= 0x100_0000,
        value_box.y1 <= 0x100_0000,
    ensures
        r.0 == value_box.x2 + 9,
        r.1 == value_box.y1 + 9,
        r.2 == r.0 + 10,
        r.3 == match alarm_box {
            Some(a) => trend_arrow_box(r.0 as int, r.1 as int).spec_union(value_box).spec_union(a),
            None => trend_arrow_box(r.0 as int, r.1 as int).spec_union(value_box),
        },
{
    let trend_x = value_box.x2 as i32 + 4 + 5;
    let trend_cy = value_box.y1 as i32 + 9;
    let arrow = Rect {
        x1: (if trend_x - 5 > 0 { trend_x - 5 } else { 0 }) as usize,
        y1: (if trend_cy - 4 > 0 { trend_cy - 4 } else { 0 }) as usize,
        x2: (if trend_x + 6 > 0 { trend_x + 6 } else { 0 }) as usize,
        y2: (if trend_cy + 5 > 0 { trend_cy + 5 } else { 0 }) as usize,
    };
    let mut b = arrow.union(&value_box);
    if let Some(a) = alarm_box {
        b = b.union(&a);
    }
    (trend_x, trend_cy, trend_x + 10, b)
}

fn same_rect(a: &Option<Rect>, b: &Rect) -> (r: bool)
    ensures
        r == (*a == Some(*b)),
{
    match a {
        Some(x) => x.x1 == b.x1 && x.y1 == b.y1 && x.x2 == b.x2 && x.y2 == b.y2,
        None => false,
    }
}

// ---------------------------------------------------------------------------
// Scroll track.
// ---------------------------------------------------------------------------

pub const TRACK_TOP: i32 = 176;
pub const TRACK_H: i32 = 112;

/// Height of the scroll thumb for `total` containers (more than a page).
pub open spec fn thumb_height(total: int) -> int {
    let h = TRACK_H * CONTAINER_PAGE_SIZE / total;
    if h > 8 {
        h
    } else {
        8
    }
}

/// Top of the scroll thumb at `offset` of `total` containers.
pub open spec fn thumb_top(offset: int, total: int) -> int {
    let max_offset = total - CONTAINER_PAGE_SIZE;
    if max_offset <= 0 {
        TRACK_TOP as int
    } else {
        TRACK_TOP + (TRACK_H - thumb_height(total)) * offset / max_offset
    }
}

/// The pixel lies on the scroll track.
pub open spec fn on_track(px: int, py: int) -> bool {
    in_fill(DOCKER_TRACK_X as int, TRACK_TOP as int, DOCKER_TRACK_W as int, TRACK_H as int, px, py)
}

/// How the scroll track changes in a frame.
#[derive(Clone, Copy, PartialEq, Eq, Debug, Structural)]
pub enum TrackChange {
    Keep,
    Clear,
    Draw,
}

impl MonitorPage {
    /// Append a temperature reading taken at `now_ms` and drop readings older
    /// than the trend window.
    pub fn update_temp_trend(&mut self, now_ms: u64, temp: i32)
        ensures
            final(self).temp_trend_history@ == trim_expired(
                old(self).temp_trend_history@.push((now_ms, temp)),
                now_ms,
            ),
            *final(self) == (MonitorPage {
                temp_trend_history: final(self).temp_trend_history,
                ..*old(self)
            }),
    {
        self.temp_trend_history.push((now_ms, temp));
        let ghost full = self.temp_trend_history@;
        while self.temp_trend_history.len() > 0 && now_ms > self.temp_trend_history[0].0
            && now_ms - self.temp_trend_history[0].0 > TEMP_TREND_WINDOW_MS
            invariant
                trim_expired(self.temp_trend_history@, now_ms) == trim_expired(full, now_ms),
                *self == (MonitorPage { temp_trend_history: self.temp_trend_history, ..*old(self) }),
            decreases self.temp_trend_history@.len(),
        {
            let ghost before = self.temp_trend_history@;
            self.temp_trend_history.remove(0);
            assert(self.temp_trend_history@ =~= before.drop_first());
        }
    }

    /// Trend and alarm of the temperature history at `now_ms`.
    pub fn evaluate_temp_trend(&self, now_ms: u64) -> (r: (TrendState, bool))
        ensures
            r == trend_spec(self.temp_trend_history@, now_ms),
    {
        let h = &self.temp_trend_history;
        let n = h.len();
        if n < 2 {
            return (TrendState::Absent, false);
        }
        let current = h[n - 1].1;
        let alarm = current >= TEMP_ALARM_C;
        let mut k = n;
        let mut hit = false;
        while !hit && k > 0
            invariant
                k <= n,
                n == h@.len(),
                !hit ==> compare_index(h@, n as int, now_ms) == compare_index(h@, k as int, now_ms),
                hit ==> k < n && compare_index(h@, n as int, now_ms) == k,
            decreases k + if hit { 0int } else { 1int },
        {
            let t = h[k - 1].0;
            if now_ms >= TEMP_TREND_COMPARE_MS && t <= now_ms - TEMP_TREND_COMPARE_MS {
                hit = true;
            }
            k = k - 1;
        }
        proof {
            lemma_compare_index(h@, n as int, now_ms);
        }
        let old = if hit {
            h[k].1
        } else {
            h[0].1
        };
        let delta: i64 = current as i64 - old as i64;
        let state = if delta >= TEMP_TREND_DEADBAND {
            TrendState::Rising
        } else if delta <= -TEMP_TREND_DEADBAND {
            TrendState::Falling
        } else {
            TrendState::Steady
        };
        (state, alarm)
    }

    /// Bring the trend display up to date. With no trend, the previous
    /// display is erased (filled with `panel`). Otherwise nothing happens
    /// when the state, the alarm and the covering box are unchanged; else
    /// the previous display is erased, the new one recorded, and `true`
    /// tells the caller to draw value, arrow and alarm mark.
    pub fn trend_update(
        &mut self,
        fb: &mut Framebuffer,
        state: TrendState,
        alarm: bool,
        new_box: Rect,
        panel: u32,
    ) -> (redraw: bool)
        requires
            old(fb).wf(),
            crate::label::rect_fits(new_box),
            old(self).temp_trend_last_bbox matches Some(b) ==> crate::label::rect_fits(b),
        ensures
            final(fb).wf(),
            final(self).temp_trend_last_bbox matches Some(b) ==> crate::label::rect_fits(b),
            *final(self) == (MonitorPage {
                temp_trend_last_state: final(self).temp_trend_last_state,
                temp_trend_last_alarm: final(self).temp_trend_last_alarm,
                temp_trend_last_bbox: final(self).temp_trend_last_bbox,
                ..*old(self)
            }),
            ({
                let unchanged = state == old(self).temp_trend_last_state && alarm == old(
                    self,
                ).temp_trend_last_alarm && old(self).temp_trend_last_bbox == Some(new_box);
                let erase = state == TrendState::Absent || !unchanged;
                &&& redraw == (state != TrendState::Absent && !unchanged)
                &&& state == TrendState::Absent ==> {
                    &&& final(self).temp_trend_last_state == TrendState::Absent
                    &&& !final(self).temp_trend_last_alarm
                    &&& final(self).temp_trend_last_bbox is None
                }
                &&& redraw ==> {
                    &&& final(self).temp_trend_last_state == state
                    &&& final(self).temp_trend_last_alarm == alarm
                    &&& final(self).temp_trend_last_bbox == Some(new_box)
                }
                &&& state != TrendState::Absent && unchanged ==> (*final(fb) == *old(fb)
                    && *final(self) == *old(self))
                &&& changes_marked(*old(fb), *final(fb))
                &&& match old(self).temp_trend_last_bbox {
                    Some(b) => if erase {
                        marks_within_rect(*old(fb), *final(fb), b)
                    } else {
                        *final(fb) == *old(fb)
                    },
                    None => *final(fb) == *old(fb),
                }
                &&& forall|px: int, py: int|
                    on_screen_pixel(px, py) ==> #[trigger] final(fb).pixel(px, py) == match old(
                        self,
                    ).temp_trend_last_bbox {
                        Some(b) => if erase && crate::label::rect_covers(b, px, py) {
                            rgb565_of(panel)
                        } else {
                            old(fb).pixel(px, py)
                        },
                        None => old(fb).pixel(px, py),
                    }
            }),
    {
        if state == TrendState::Absent {
            if let Some(last) = self.temp_trend_last_bbox {
                let ghost f0 = *fb;
                fill_rect(fb, last.x1 as i32, last.y1 as i32, last.width() as i32, last.height() as i32, panel);
                proof {
                    lemma_fill_marks_changes(f0, *fb, last.x1 as i32, last.y1 as i32, last.spec_width() as i32, last.spec_height() as i32, panel);
                    lemma_fill_marks_within(f0, *fb, last.x1 as i32, last.y1 as i32, last.spec_width() as i32, last.spec_height() as i32, panel);
                }
                self.temp_trend_last_bbox = None;
            } else {
                proof {
                    lemma_changes_marked_refl(*fb);
                }
            }
            self.temp_trend_last_state = TrendState::Absent;
            self.temp_trend_last_alarm = false;
            return false;
        }
        if state == self.temp_trend_last_state && alarm == self.temp_trend_last_alarm && same_rect(
            &self.temp_trend_last_bbox,
            &new_box,
        ) {
            proof {
                lemma_changes_marked_refl(*fb);
            }
            return false;
        }
        if let Some(last) = self.temp_trend_last_bbox {
            let ghost f0 = *fb;
                fill_rect(fb, last.x1 as i32, last.y1 as i32, last.width() as i32, last.height() as i32, panel);
                proof {
                    lemma_fill_marks_changes(f0, *fb, last.x1 as i32, last.y1 as i32, last.spec_width() as i32, last.spec_height() as i32, panel);
                    lemma_fill_marks_within(f0, *fb, last.x1 as i32, last.y1 as i32, last.spec_width() as i32, last.spec_height() as i32, panel);
                }
        } else {
            proof {
                lemma_changes_marked_refl(*fb);
            }
        }
        self.temp_trend_last_state = state;
        self.temp_trend_last_alarm = alarm;
        self.temp_trend_last_bbox = Some(new_box);
        true
    }

    /// Draw the scroll track of the container list at `offset` of `total`:
    /// cleared once when the list fits one page, else redrawn (track and
    /// thumb) whenever offset or total changed since it was last drawn.
    pub fn draw_scroll_track(&mut self, fb: &mut Framebuffer, offset: usize, total: usize) -> (r:
        TrackChange)
        requires
            old(fb).wf(),
            total > CONTAINER_PAGE_SIZE ==> {
                &&& offset <= i32::MAX
                &&& (TRACK_H - thumb_height(total as int)) * offset <= i32::MAX
                &&& thumb_top(offset as int, total as int) <= i32::MAX
            },
        ensures
            final(fb).wf(),
            changes_marked(*old(fb), *final(fb)),
            *final(self) == (MonitorPage { scroll_last: final(self).scroll_last, ..*old(self) }),
            r == if total <= CONTAINER_PAGE_SIZE {
                if old(self).scroll_last is Some {
                    TrackChange::Clear
                } else {
                    TrackChange::Keep
                }
            } else if old(self).scroll_last == Some((offset, total)) {
                TrackChange::Keep
            } else {
                TrackChange::Draw
            },
            final(self).scroll_last == if total <= CONTAINER_PAGE_SIZE {
                None
            } else {
                Some((offset, total))
            },
            r == TrackChange::Keep ==> *final(fb) == *old(fb),
            forall|px: int, py: int|
                on_screen_pixel(px, py) ==> #[trigger] final(fb).pixel(px, py) == match r {
                    TrackChange::Keep => old(fb).pixel(px, py),
                    TrackChange::Clear => if on_track(px, py) {
                        rgb565_of(BG)
                    } else {
                        old(fb).pixel(px, py)
                    },
                    TrackChange::Draw => if in_fill(
                        DOCKER_TRACK_X as int,
                        thumb_top(offset as int, total as int),
                        DOCKER_TRACK_W as int,
                        thumb_height(total as int),
                        px,
                        py,
                    ) {
                        rgb565_of(GRAY)
                    } else if on_track(px, py) {
                        rgb565_of(SCROLL_TRACK)
                    } else {
                        old(fb).pixel(px, py)
                    },
                },
    {
        let pages = page_count(total);
        let ghost f0 = *fb;
        if pages <= 1 {
            if self.scroll_last.is_some() {
                fill_rect(fb, DOCKER_TRACK_X, TRACK_TOP, DOCKER_TRACK_W, TRACK_H, BG);
                proof {
                    lemma_fill_marks_changes(f0, *fb, DOCKER_TRACK_X, TRACK_TOP, DOCKER_TRACK_W, TRACK_H, BG);
                }
                self.scroll_last = None;
                return TrackChange::Clear;
            }
            proof {
                lemma_changes_marked_refl(*fb);
            }
            return TrackChange::Keep;
        }
        if let Some((lo, lt)) = self.scroll_last {
            if lo == offset && lt == total {
                proof {
                    lemma_changes_marked_refl(*fb);
                }
                return TrackChange::Keep;
            }
        }
        fill_rect(fb, DOCKER_TRACK_X, TRACK_TOP, DOCKER_TRACK_W, TRACK_H, BG);
        let ghost f1 = *fb;
        fill_rect(fb, DOCKER_TRACK_X, TRACK_TOP, DOCKER_TRACK_W, TRACK_H, SCROLL_TRACK);
        let ghost f2 = *fb;
        proof {
            lemma_fill_marks_changes(f0, f1, DOCKER_TRACK_X, TRACK_TOP, DOCKER_TRACK_W, TRACK_H, BG);
            lemma_fill_marks_changes(f1, f2, DOCKER_TRACK_X, TRACK_TOP, DOCKER_TRACK_W, TRACK_H, SCROLL_TRACK);
            lemma_changes_marked_trans(f0, f1, f2);
        }
        let max_offset = total - CONTAINER_PAGE_SIZE;
        let raw_h: usize = (TRACK_H as usize) * CONTAINER_PAGE_SIZE / total;
        assert(raw_h <= 112) by (nonlinear_arith)
            requires
                total >= 8,
                raw_h as int == 896int / (total as int),
        ;
        let thumb_h: usize = if raw_h > 8 { raw_h } else { 8 };
        assert(thumb_h == thumb_height(total as int));
        let thumb_y: i32 = if max_offset == 0 {
            TRACK_TOP
        } else {
            let prod: u64 = ((TRACK_H as usize - thumb_h) as u64) * (offset as u64);
            let span: u64 = prod / (max_offset as u64);
            assert(span <= prod) by (nonlinear_arith)
                requires
                    max_offset >= 1,
                    span as int == (prod as int) / (max_offset as int),
                    prod >= 0,
            ;
            assert(TRACK_TOP + span == thumb_top(offset as int, total as int));
            TRACK_TOP + span as i32
        };
        fill_rect(fb, DOCKER_TRACK_X, thumb_y, DOCKER_TRACK_W, thumb_h as i32, GRAY);
        proof {
            lemma_fill_marks_changes(f2, *fb, DOCKER_TRACK_X, thumb_y, DOCKER_TRACK_W, thumb_h as i32, GRAY);
            lemma_changes_marked_trans(f0, f2, *fb);
        }
        self.scroll_last = Some((offset, total));
        TrackChange::Draw
    }

    /// Plan one frame at `now_ms`; `outcome` is the result of a running
    /// power command if one arrived. The background is drawn when it is not
    /// yet, the dialog advances, the slow content is refreshed once per
    /// `SLOW_RENDER_INTERVAL_MS` while no dialog is open, a pending full
    /// refresh is handed out once, and the dialog is drawn while open.
    pub fn plan_frame(&mut self, now_ms: u64, outcome: Option<bool>) -> (p: FramePlan)
        ensures
            ({
                let t = power_tick(MonitorPage { bg_done: true, ..*old(self) }, now_ms, outcome);
                let due = match old(self).last_slow_render_ms {
                    None => true,
                    Some(s) => now_ms >= s && now_ms - s >= SLOW_RENDER_INTERVAL_MS,
                };
                &&& p.draw_background == !old(self).bg_done
                &&& p.full_refresh == t.pending_full_refresh
                &&& p.slow_content == (t.power_state == PowerState::Idle && due)
                &&& p.dialog == (t.power_state != PowerState::Idle)
                &&& *final(self) == (MonitorPage {
                    last_slow_render_ms: if p.slow_content {
                        Some(now_ms)
                    } else {
                        old(self).last_slow_render_ms
                    },
                    pending_full_refresh: false,
                    ..t
                })
            }),
    {
        let draw_background = !self.bg_done;
        self.bg_done = true;
        self.update_power_state(now_ms, outcome);
        let due = match self.last_slow_render_ms {
            None => true,
            Some(t) => now_ms >= t && now_ms - t >= SLOW_RENDER_INTERVAL_MS,
        };
        let idle = match self.power_state {
            PowerState::Idle => true,
            _ => false,
        };
        let slow_content = due && idle;
        if slow_content {
            self.last_slow_render_ms = Some(now_ms);
        }
        let full_refresh = self.pending_full_refresh;
        self.pending_full_refresh = false;
        FramePlan { draw_background, slow_content, full_refresh, dialog: !idle }
    }
}


// ---------------------------------------------------------------------------
// Layout of the widgets.
// ---------------------------------------------------------------------------

/// Left edge of hero card `idx` (0 to 3: temperature, memory, disk, network).
pub fn hero_card_x(idx: usize) -> (r: i32)
    requires
        idx < 4,
    ensures
        r == HERO_CARD_X0 + idx * HERO_CARD_STEP,
{
    HERO_CARD_X0 + (idx as i32) * HERO_CARD_STEP
}

/// Placement of CPU pill `idx` (0 to 3, two per row): the label's left edge
/// and top, the bar's left edge and top, and the right edge of the
/// percentage.
pub fn cpu_pill_layout(idx: usize) -> (r: (i32, i32, i32, i32, i32))
    requires
        idx < 4,
    ensures
        r.0 == if idx % 2 == 0 { 12i32 } else { 256i32 },
        r.1 == if idx / 2 == 0 { 100i32 } else { 126i32 },
        r.2 == r.0 + 34,
        r.3 == r.1 + 1,
        r.4 == if idx % 2 == 0 { 224i32 } else { 468i32 },
{
    let col: i32 = if idx % 2 == 0 { 12 } else { 256 };
    let row: i32 = if idx / 2 == 0 { 100 } else { 126 };
    let right: i32 = if idx % 2 == 0 { 224 } else { 468 };
    (col, row, col + 34, row + 1, right)
}

/// Top and background of container row `i`: rows are 14 px apart from the
/// list top, odd rows striped.
pub fn container_row_layout(i: usize) -> (r: (i32, u32))
    requires
        i < CONTAINER_PAGE_SIZE,
    ensures
        r.0 == DOCKER_LIST_Y + i * DOCKER_LINE_HEIGHT,
        r.1 == if i % 2 == 1 { ROW_STRIPE } else { BG },
{
    let y = DOCKER_LIST_Y + (i as i32) * DOCKER_LINE_HEIGHT;
    let bg = if i % 2 == 1 { ROW_STRIPE } else { BG };
    (y, bg)
}

// ---------------------------------------------------------------------------
// Container rows and the footer.
// ---------------------------------------------------------------------------

/// A container's status reports it unhealthy.
pub fn is_unhealthy(status: &str) -> (r: bool)
    ensures
        r == contains_seq(status@, "(unhealthy)"@),
{
    contains_chars(&str_chars(status), &str_chars("(unhealthy)"))
}

/// How a row's state dot changes when it should show `color`: whether the
/// old dot is erased first and whether the new one is drawn. Nothing
/// happens when the dot already has that colour.
pub fn dot_update(current: Option<u32>, color: u32) -> (r: (bool, bool))
    ensures
        r == if current == Some(color) {
            (false, false)
        } else {
            (current is Some, true)
        },
{
    match current {
        Some(c) => if c == color {
            (false, false)
        } else {
            (true, true)
        },
        None => (false, true),
    }
}

/// The load average shown in the footer: the first word of
/// `/proc/loadavg` (`None` when unreadable), else `"n/a"`.
pub fn loadavg_text(text: Option<&str>) -> (r: String)
    ensures
        r@ == match text {
            Some(t) => if words(t@).len() > 0 {
                words(t@)[0]
            } else {
                "n/a"@
            },
            None => "n/a"@,
        },
{
    match text {
        Some(t) => {
            let ws = split_words(&str_chars(t));
            if ws.len() > 0 {
                assert(views(ws@)[0] == ws@[0]@);
                string_of(&ws[0])
            } else {
                "n/a".to_owned()
            }
        },
        None => "n/a".to_owned(),
    }
}

/// Colour of a container's state and dot: red for unhealthy or dead, green
/// for running, gray for exited, yellow for created, paused or restarting,
/// gray for anything else.
pub open spec fn container_state_color_spec(state: Seq<char>, unhealthy: bool) -> u32 {
    if unhealthy || state == "dead"@ {
        ALARM
    } else if state == "running"@ {
        OK
    } else if state == "exited"@ {
        GRAY
    } else if state == "created"@ || state == "paused"@ || state == "restarting"@ {
        CAUTION
    } else {
        GRAY
    }
}

pub fn container_state_color(state: &str, status_unhealthy: bool) -> (r: u32)
    ensures
        r == container_state_color_spec(state@, status_unhealthy),
{
    if status_unhealthy || str_eq(state, "dead") {
        ALARM
    } else if str_eq(state, "running") {
        OK
    } else if str_eq(state, "exited") {
        GRAY
    } else if str_eq(state, "created") || str_eq(state, "paused") || str_eq(state, "restarting") {
        CAUTION
    } else {
        GRAY
    }
}

/// Number of pages for `total` containers (at least one).
pub fn page_count(total: usize) -> (r: usize)
    ensures
        r == total_pages(total),
{
    let full = total / CONTAINER_PAGE_SIZE;
    let r = if total % CONTAINER_PAGE_SIZE != 0 {
        full + 1
    } else {
        full
    };
    if r == 0 {
        1
    } else {
        r
    }
}

/// The page indicator `"current/total"` shown above the container list
/// when it spans more than one page.
pub fn page_indicator(offset: usize, total: usize) -> (r: Option<String>)
    ensures
        total_pages(total) <= 1 ==> r is None,
        total_pages(total) > 1 ==> (r matches Some(s) && s@ == dec_string(
            (offset / CONTAINER_PAGE_SIZE + 1) as nat,
        ) + seq!['/'] + dec_string(total_pages(total))),
{
    let pages = page_count(total);
    if pages <= 1 {
        return None;
    }
    let current = offset / CONTAINER_PAGE_SIZE + 1;
    let mut v: Vec<char> = Vec::new();
    push_decimal(&mut v, current as u64);
    v.push('/');
    push_decimal(&mut v, pages as u64);
    Some(string_of(&v))
}

/// Laws of the container list scroll.
///
/// The periodic scroll visits every page start of a list longer than a page
/// in turn and wraps back to the top: from the top, `max_offset` steps reach
/// the last start and one more returns to 0.
pub proof fn law_scroll_wraps(offset: usize, total: usize)
    requires
        total > CONTAINER_PAGE_SIZE,
        offset <= total - CONTAINER_PAGE_SIZE,
    ensures
        next_scroll(offset, total) <= total - CONTAINER_PAGE_SIZE,
        offset < total - CONTAINER_PAGE_SIZE ==> next_scroll(offset, total) == offset + 1,
        offset == total - CONTAINER_PAGE_SIZE ==> next_scroll(offset, total) == 0,
{
}


/// A power command is never run by a single tap: a touch that starts one
/// found the dialog already open and hit its confirm button.
pub proof fn law_confirm_required(o: MonitorPage, ev: TouchEvent, now: u64)
    ensures
        ({
            let f = touch_state(o, ev, now);
            (f.power_state is Executing && !(o.power_state is Executing)) || (f.pending_command
                != o.pending_command && f.pending_command is Some) ==> {
                &&& activates(ev)
                &&& o.power_state is Confirming
                &&& in_box(
                    DIALOG_CONFIRM_X as int,
                    DIALOG_BUTTON_Y as int,
                    DIALOG_BUTTON_W as int,
                    DIALOG_BUTTON_H as int,
                    ev.x as int,
                    ev.y as int,
                )
            }
        }),
{
}

/// While the dialog is open, a command runs or its failure shows, no touch
/// leads to another page or scrolls the container list.
pub proof fn law_dialog_is_modal(o: MonitorPage, ev: TouchEvent, now: u64)
    requires
        !(o.power_state is Idle),
    ensures
        touch_target(o, ev) is None,
        touch_state(o, ev, now).container_scroll_offset == o.container_scroll_offset,
{
}

/// A tap anywhere but on the confirm button of an open dialog cancels it:
/// no command is left pending and the page under it is redrawn in full.
pub proof fn law_outside_tap_cancels(o: MonitorPage, ev: TouchEvent, now: u64)
    requires
        o.power_state is Confirming,
        activates(ev),
        !in_box(
            DIALOG_CONFIRM_X as int,
            DIALOG_BUTTON_Y as int,
            DIALOG_BUTTON_W as int,
            DIALOG_BUTTON_H as int,
            ev.x as int,
            ev.y as int,
        ),
    ensures
        touch_state(o, ev, now) == cancelled(o),
        cancelled(o).power_state == PowerState::Idle,
        cancelled(o).pending_command is None,
        cancelled(o).pending_full_refresh && !cancelled(o).bg_done,
{
}

/// A dialog opened at `t` and left unanswered closes by itself at the first
/// tick from `t + POWER_CONFIRM_MS` on, and stays open before.
pub proof fn law_dialog_times_out(
    o: MonitorPage,
    action: PowerAction,
    t: u64,
    now: u64,
    outcome: Option<bool>,
)
    ensures
        power_tick(confirming(o, action, t), now, outcome) == if now >= later(t, POWER_CONFIRM_MS) {
            cancelled(confirming(o, action, t))
        } else {
            confirming(o, action, t)
        },
{
}

/// A failed command shows the failure notice for `POWER_FAILED_MS`, after
/// which the dialog closes and the page is redrawn.
pub proof fn law_failure_returns_to_idle(
    o: MonitorPage,
    action: PowerAction,
    t: u64,
    now: u64,
    now2: u64,
    outcome: Option<bool>,
)
    requires
        now < u64::MAX - POWER_FAILED_MS,
    ensures
        ({
            let failed = power_tick(executing(o, action, t), now, Some(false));
            &&& failed.power_state == (PowerState::Failed { deadline_ms: (now + POWER_FAILED_MS) as u64 })
            &&& power_tick(failed, now2, outcome) == if now2 >= now + POWER_FAILED_MS {
                cancelled(failed)
            } else {
                failed
            }
        }),
{
}


/// With no dialog open, an activation on a hero card leads to that card's
/// page: from left to right temperature, memory, disk and network.
pub proof fn law_hero_cards_lead_to_their_pages(o: MonitorPage, ev: TouchEvent)
    requires
        o.power_state is Idle,
        activates(ev),
        HERO_CARD_Y <= ev.y < HERO_CARD_Y + HERO_CARD_H,
    ensures
        HERO_CARD_X0 <= ev.x < HERO_CARD_X0 + HERO_CARD_W ==> touch_target(o, ev) == Some("temp"@),
        HERO_CARD_X0 + HERO_CARD_STEP <= ev.x < HERO_CARD_X0 + HERO_CARD_STEP + HERO_CARD_W
            ==> touch_target(o, ev) == Some("mem"@),
        HERO_CARD_X0 + 2 * HERO_CARD_STEP <= ev.x < HERO_CARD_X0 + 2 * HERO_CARD_STEP + HERO_CARD_W
            ==> touch_target(o, ev) == Some("disk"@),
        HERO_CARD_X0 + 3 * HERO_CARD_STEP <= ev.x < HERO_CARD_X0 + 3 * HERO_CARD_STEP + HERO_CARD_W
            ==> touch_target(o, ev) == Some("net"@),
        touch_state(o, ev, 0) == o,
{
}

/// The trend compares the latest reading with the newest one taken at least
/// `TEMP_TREND_COMPARE_MS` before `now` (here the reading at `j`): a rise of
/// `TEMP_TREND_DEADBAND` degrees or more is `Rising`, such a fall `Falling`,
/// anything between `Steady`, whatever came in between. The alarm shows
/// from `TEMP_ALARM_C` degrees.
pub proof fn law_trend_against_reading_compare_ms_old(h: Seq<(u64, i32)>, now: u64, j: int)
    requires
        h.len() >= 2,
        0 <= j < h.len(),
        h[j].0 + TEMP_TREND_COMPARE_MS <= now,
        forall|i: int| j < i < h.len() ==> #[trigger] h[i].0 + TEMP_TREND_COMPARE_MS > now,
    ensures
        trend_spec(h, now).0 == if h.last().1 - h[j].1 >= TEMP_TREND_DEADBAND {
            TrendState::Rising
        } else if h[j].1 - h.last().1 >= TEMP_TREND_DEADBAND {
            TrendState::Falling
        } else {
            TrendState::Steady
        },
        trend_spec(h, now).1 == (h.last().1 >= TEMP_ALARM_C),
{
    lemma_compare_index_at(h, h.len() as int, j, now);
}

/// With no reading yet `TEMP_TREND_COMPARE_MS` old, the latest reading is
/// compared with the oldest one kept.
pub proof fn law_trend_against_oldest_when_young(h: Seq<(u64, i32)>, now: u64)
    requires
        h.len() >= 2,
        forall|i: int| 0 <= i < h.len() ==> #[trigger] h[i].0 + TEMP_TREND_COMPARE_MS > now,
    ensures
        trend_spec(h, now).0 == if h.last().1 - h[0].1 >= TEMP_TREND_DEADBAND {
            TrendState::Rising
        } else if h[0].1 - h.last().1 >= TEMP_TREND_DEADBAND {
            TrendState::Falling
        } else {
            TrendState::Steady
        },
{
    lemma_compare_index_none(h, h.len() as int, now);
}

proof fn lemma_compare_index_at(h: Seq<(u64, i32)>, n: int, j: int, now: u64)
    requires
        0 <= j < n <= h.len(),
        h[j].0 + TEMP_TREND_COMPARE_MS <= now,
        forall|i: int| j < i < h.len() ==> #[trigger] h[i].0 + TEMP_TREND_COMPARE_MS > now,
    ensures
        compare_index(h, n, now) == j,
    decreases n,
{
    if n - 1 > j {
        assert(h[n - 1].0 + TEMP_TREND_COMPARE_MS > now);
        lemma_compare_index_at(h, n - 1, j, now);
    }
}

proof fn lemma_compare_index_none(h: Seq<(u64, i32)>, n: int, now: u64)
    requires
        0 <= n <= h.len(),
        forall|i: int| 0 <= i < h.len() ==> #[trigger] h[i].0 + TEMP_TREND_COMPARE_MS > now,
    ensures
        compare_index(h, n, now) == -1,
    decreases n,
{
    if n > 0 {
        assert(h[n - 1].0 + TEMP_TREND_COMPARE_MS > now);
        lemma_compare_index_none(h, n - 1, now);
    }
}

/// Container state colours: an unhealthy or dead container is `ALARM`; a
/// running one `OK`; a created, paused or restarting one `CAUTION`; any
/// other state (exited, unknown) `GRAY`.
pub proof fn law_container_state_colours(state: Seq<char>, unhealthy: bool)
    ensures
        unhealthy ==> container_state_color_spec(state, unhealthy) == ALARM,
        state == "dead"@ ==> container_state_color_spec(state, unhealthy) == ALARM,
        !unhealthy && state == "running"@ ==> container_state_color_spec(state, unhealthy) == OK,
        !unhealthy && (state == "created"@ || state == "paused"@ || state == "restarting"@)
            ==> container_state_color_spec(state, unhealthy) == CAUTION,
        !unhealthy && state != "dead"@ && state != "running"@ && state != "created"@ && state
            != "paused"@ && state != "restarting"@ ==> container_state_color_spec(state, unhealthy)
            == GRAY,
{
    reveal_strlit("dead");
    reveal_strlit("running");
    reveal_strlit("exited");
    reveal_strlit("created");
    reveal_strlit("paused");
    reveal_strlit("restarting");
    assert("dead"@.len() == 4 && "running"@.len() == 7 && "exited"@.len() == 6);
    assert("created"@.len() == 7 && "paused"@.len() == 6 && "restarting"@.len() == 10);
    assert("running"@[0] != "created"@[0]);
    assert("exited"@[0] != "paused"@[0]);
}

} // verus!
