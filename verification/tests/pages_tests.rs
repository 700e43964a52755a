use pi_dashboard::config::{ALARM, CAUTION, GRAY, OK, SCROLL_TRACK, W};
use pi_dashboard::fb::{Framebuffer, Rect};
use pi_dashboard::pages::cpu::parse_cpuinfo;
use pi_dashboard::pages::detail_common::{detail_on_touch, draw_chip_outline, BackButton};
use pi_dashboard::pages::disk::parse_root_mount;
use pi_dashboard::pages::monitor::{
    container_row_layout, container_state_color, cpu_pill_layout, dot_update, hero_card_x,
    is_unhealthy, loadavg_text, page_count, page_indicator, trend_layout, MonitorPage,
    PowerAction, PowerState, TrackChange, TrendState, DOCKER_TRACK_X, MENU_CHIP_X, MENU_CHIP_Y,
    PWR_CHIP_X, PWR_CHIP_Y, RST_CHIP_X, RST_CHIP_Y, HERO_CARD_Y, NetCard, ts_chip_layout, TsChip,
};
use pi_dashboard::pages::net::iface_for;
use pi_dashboard::pages::temp::throttled_text;
use pi_dashboard::pages::{PageAction, PageManager};
use pi_dashboard::config::{CONTAINER_PAGE_SIZE, DOCKER_LIST_Y};
use pi_dashboard::render::rgb888_to_rgb565;
use pi_dashboard::touch::{TouchEvent, TouchKind};

fn tap(x: i32, y: i32) -> TouchEvent {
    TouchEvent { x, y, kind: TouchKind::Tap, timestamp_ms: 0 }
}

fn make_page() -> MonitorPage {
    MonitorPage::new()
}

#[test]
fn touch_release_ignored() {
    let mut page = make_page();
    let ev = TouchEvent { x: 100, y: 200, kind: TouchKind::Release, timestamp_ms: 0 };
    assert_eq!(page.on_touch(ev, 0), PageAction::Nothing);
}

#[test]
fn touch_container_list_increments_offset() {
    let mut page = make_page();
    let y = DOCKER_LIST_Y + 4;
    assert_eq!(page.on_touch(tap(10, y), 0), PageAction::Nothing);
    assert_eq!(page.container_scroll_offset, 1);
}

#[test]
fn touch_hero_temp_switches_page() {
    let mut page = make_page();
    let ev = tap(hero_card_x(0) + 10, HERO_CARD_Y + 10);
    assert_eq!(page.on_touch(ev, 0), PageAction::Switch("temp"));
    assert_eq!(page.on_touch(tap(hero_card_x(3) + 10, HERO_CARD_Y + 10), 0), PageAction::Switch("net"));
}

#[test]
fn touch_cpu_area_switches_cpu_page() {
    let mut page = make_page();
    assert_eq!(page.on_touch(tap(100, 100), 0), PageAction::Switch("cpu"));
}

#[test]
fn touch_menu_noop() {
    let mut page = make_page();
    let ev = tap(MENU_CHIP_X + 5, MENU_CHIP_Y + 5);
    assert_eq!(page.on_touch(ev, 0), PageAction::Nothing);
    assert_eq!(page.power_state, PowerState::Idle);
}

#[test]
fn scroll_containers_wraps() {
    let mut page = make_page();
    let total = 25;
    let max_offset = total - CONTAINER_PAGE_SIZE;
    for expected in 1..=max_offset {
        let (offset, _) = page.scroll_containers(total).unwrap();
        assert_eq!(offset, expected);
    }
    let (offset, tot) = page.scroll_containers(total).unwrap();
    assert_eq!(offset, 0);
    assert_eq!(tot, total);
}

#[test]
fn short_list_does_not_scroll() {
    let mut page = make_page();
    assert_eq!(page.scroll_containers(5), Some((0, 5)));
    assert_eq!(page.container_scroll_offset, 0);
}

#[test]
fn touch_pwr_opens_confirm_dialog() {
    let mut page = make_page();
    let ev = tap(PWR_CHIP_X + 5, PWR_CHIP_Y + 5);
    assert_eq!(page.on_touch(ev, 1000), PageAction::Nothing);
    assert!(
        matches!(page.power_state, PowerState::Confirming { action: PowerAction::PowerOff, .. }),
        "expected power-off confirm dialog"
    );
}

#[test]
fn touch_rst_opens_confirm_dialog() {
    let mut page = make_page();
    let ev = tap(RST_CHIP_X + 5, RST_CHIP_Y + 5);
    assert_eq!(page.on_touch(ev, 1000), PageAction::Nothing);
    assert!(
        matches!(page.power_state, PowerState::Confirming { action: PowerAction::Reboot, .. }),
        "expected reboot confirm dialog"
    );
}

#[test]
fn power_dialog_cancel_returns_to_idle() {
    let mut page = make_page();
    page.enter_power_confirm(PowerAction::Reboot, 0);
    assert_eq!(page.on_touch(tap(155, 175), 0), PageAction::Nothing);
    assert!(matches!(page.power_state, PowerState::Idle));
    assert!(page.pending_full_refresh);
}

#[test]
fn power_dialog_outside_tap_cancels() {
    let mut page = make_page();
    page.enter_power_confirm(PowerAction::PowerOff, 0);
    assert_eq!(page.on_touch(tap(50, 50), 0), PageAction::Nothing);
    assert!(matches!(page.power_state, PowerState::Idle));
}

#[test]
fn power_confirm_executes_and_returns_via_failed() {
    let mut page = make_page();
    page.enter_power_confirm(PowerAction::Reboot, 0);
    assert_eq!(page.on_touch(tap(320, 175), 0), PageAction::Nothing);
    assert!(matches!(page.power_state, PowerState::Executing { .. }));
    assert_eq!(page.take_pending_command(), Some(PowerAction::Reboot));
    assert_eq!(page.take_pending_command(), None);
    // The command reports a failure: the failure notice shows for 2 s.
    let plan = page.plan_frame(10, Some(false));
    assert!(plan.dialog);
    assert!(matches!(page.power_state, PowerState::Failed { .. }));
    let plan = page.plan_frame(2110, None);
    assert!(!plan.dialog);
    assert!(matches!(page.power_state, PowerState::Idle));
}

#[test]
fn unanswered_confirmation_closes() {
    let mut page = make_page();
    page.enter_power_confirm(PowerAction::Reboot, 1000);
    page.update_power_state(10_999, None);
    assert!(matches!(page.power_state, PowerState::Confirming { .. }));
    page.update_power_state(11_000, None);
    assert_eq!(page.power_state, PowerState::Idle);
}

#[test]
fn long_running_command_fails() {
    let mut page = make_page();
    page.execute_power(PowerAction::PowerOff, 0);
    page.update_power_state(9_999, None);
    assert!(matches!(page.power_state, PowerState::Executing { .. }));
    page.update_power_state(10_000, None);
    assert_eq!(page.power_state, PowerState::Failed { deadline_ms: 12_000 });
    assert_eq!(page.dialog_title(), Some("Failed"));
}

#[test]
fn power_titles_and_commands() {
    assert_eq!(PowerAction::Reboot.title(), "Reboot?");
    assert_eq!(PowerAction::PowerOff.command(), ("sudo", ["systemctl", "poweroff"]));
}

#[test]
fn frame_plan_slow_content_once_per_second() {
    let mut page = make_page();
    let p = page.plan_frame(0, None);
    assert!(p.draw_background && p.slow_content && !p.dialog);
    let p = page.plan_frame(500, None);
    assert!(!p.draw_background && !p.slow_content);
    let p = page.plan_frame(1000, None);
    assert!(p.slow_content);
}

#[test]
fn temperature_trend() {
    let mut page = make_page();
    page.update_temp_trend(0, 50);
    assert_eq!(page.evaluate_temp_trend(0), (TrendState::Absent, false));
    page.update_temp_trend(10_000, 50);
    page.update_temp_trend(40_000, 52);
    assert_eq!(page.evaluate_temp_trend(40_000), (TrendState::Rising, false));
    page.update_temp_trend(70_000, 81);
    assert_eq!(page.temp_trend_history.len(), 3);
    assert_eq!(page.evaluate_temp_trend(70_000), (TrendState::Rising, true));
    page.update_temp_trend(71_000, 51);
    assert_eq!(page.evaluate_temp_trend(71_000), (TrendState::Falling, false));
}

#[test]
fn trend_display_redraws_on_change_only() {
    let mut fb = Framebuffer::headless();
    let mut page = make_page();
    let (tx, cy, ax, b) = trend_layout(Rect::new(20, 60, 60, 76), None);
    assert_eq!((tx, cy, ax), (69, 69, 79));
    assert_eq!(b, Rect::new(20, 60, 75, 76));
    assert!(page.trend_update(&mut fb, TrendState::Rising, false, b, 0x161b22));
    assert!(!page.trend_update(&mut fb, TrendState::Rising, false, b, 0x161b22));
    assert!(page.trend_update(&mut fb, TrendState::Steady, false, b, 0x161b22));
    assert!(!page.trend_update(&mut fb, TrendState::Absent, false, b, 0x161b22));
    assert_eq!(page.temp_trend_last_bbox, None);
}

#[test]
fn scroll_track_draws_thumb() {
    let mut fb = Framebuffer::headless();
    let mut page = make_page();
    assert_eq!(page.draw_scroll_track(&mut fb, 0, 5), TrackChange::Keep);
    assert_eq!(page.draw_scroll_track(&mut fb, 0, 16), TrackChange::Draw);
    let x = DOCKER_TRACK_X as usize;
    assert_eq!(fb.buffer()[176 * W + x], rgb888_to_rgb565(GRAY));
    assert_eq!(fb.buffer()[(176 + 56) * W + x], rgb888_to_rgb565(SCROLL_TRACK));
    assert_eq!(page.draw_scroll_track(&mut fb, 0, 16), TrackChange::Keep);
    assert_eq!(page.draw_scroll_track(&mut fb, 8, 16), TrackChange::Draw);
    assert_eq!(fb.buffer()[(176 + 111) * W + x], rgb888_to_rgb565(GRAY));
    assert_eq!(page.draw_scroll_track(&mut fb, 0, 3), TrackChange::Clear);
}

#[test]
fn page_indicator_text() {
    assert_eq!(page_count(0), 1);
    assert_eq!(page_count(17), 3);
    assert_eq!(page_indicator(0, 8), None);
    assert_eq!(page_indicator(9, 25).as_deref(), Some("2/4"));
}

#[test]
fn container_colours() {
    assert_eq!(container_state_color("running", false), OK);
    assert_eq!(container_state_color("running", true), ALARM);
    assert_eq!(container_state_color("dead", false), ALARM);
    assert_eq!(container_state_color("exited", false), GRAY);
    assert_eq!(container_state_color("paused", false), CAUTION);
    assert_eq!(container_state_color("weird", false), GRAY);
    assert!(is_unhealthy("Up 2 hours (unhealthy)"));
    assert!(!is_unhealthy("Up 2 hours (healthy)"));
    assert_eq!(dot_update(None, OK), (false, true));
    assert_eq!(dot_update(Some(OK), OK), (false, false));
    assert_eq!(dot_update(Some(GRAY), OK), (true, true));
}

#[test]
fn layout_helpers() {
    assert_eq!(hero_card_x(2), 244);
    assert_eq!(cpu_pill_layout(3), (256, 126, 290, 127, 468));
    assert_eq!(container_row_layout(1).0, 190);
    assert_eq!(loadavg_text(Some("0.52 0.58 0.59 1/180 1234\n")), "0.52");
    assert_eq!(loadavg_text(None), "n/a");
}

#[test]
fn page_manager_switching_and_idle_timeout() {
    let mut m = PageManager::new(0);
    m.register("monitor");
    m.register("temp");
    m.register("cpu");
    assert_eq!(m.active_id(), "monitor");
    assert!(m.is_registered("temp"));
    assert!(!m.is_registered("settings"));
    assert!(!m.switch("settings", 5));
    assert_eq!(m.active_id(), "monitor");
    assert!(m.switch("temp", 1_000));
    assert_eq!(m.active_id(), "temp");
    assert_eq!(m.check_idle_timeout(60_999), PageAction::Nothing);
    assert_eq!(m.check_idle_timeout(61_000), PageAction::Switch("monitor"));
    assert_eq!(m.route_touch(61_000), Some("temp"));
    assert_eq!(m.check_idle_timeout(61_500), PageAction::Nothing);
    assert!(m.switch("monitor", 62_000));
    assert_eq!(m.check_idle_timeout(1_000_000), PageAction::Nothing);
}

#[test]
fn detail_back_button() {
    let back = BackButton::new();
    assert_eq!(back.bbox, Rect::new(12, 4, 76, 24));
    assert_eq!(detail_on_touch(&back, &tap(20, 10)), PageAction::Switch("monitor"));
    let press = TouchEvent { x: 20, y: 10, kind: TouchKind::Press, timestamp_ms: 0 };
    assert_eq!(detail_on_touch(&back, &press), PageAction::Nothing);
    assert_eq!(detail_on_touch(&back, &tap(200, 10)), PageAction::Nothing);
}

#[test]
fn chip_outline_edges() {
    let mut fb = Framebuffer::headless();
    draw_chip_outline(&mut fb, 12, 4, 64, 20, 6, 0xffffff);
    assert_eq!(fb.buffer()[4 * W + 20], 0xffff);
    assert_eq!(fb.buffer()[4 * W + 12], 0);
    assert_eq!(fb.buffer()[12 * W + 12], 0xffff);
    assert_eq!(fb.buffer()[12 * W + 75], 0xffff);
    assert_eq!(fb.buffer()[12 * W + 40], 0);
}

#[test]
fn detail_page_texts() {
    assert_eq!(iface_for("100.118.236.1"), "tailscale0");
    assert_eq!(iface_for("192.168.137.2"), "eth0");
    assert_eq!(iface_for("192.168.1.250"), "wlan0");
    assert_eq!(iface_for("10.0.0.2"), "interface");
    let cpuinfo = "processor\t: 0\nmodel name\t: ARMv7 Processor rev 3 (v7l)\nHardware\t: BCM2835\n";
    assert_eq!(parse_cpuinfo(cpuinfo), ("BCM2835".to_string(), "ARMv7 Processor rev 3 (v7l)".to_string()));
    assert_eq!(parse_cpuinfo(""), ("BCM2711".to_string(), "n/a".to_string()));
    let mounts = "proc /proc proc rw 0 0\n/dev/mmcblk0p2 / ext4 rw,noatime 0 0\n";
    assert_eq!(parse_root_mount(mounts), ("mmcblk0p2".to_string(), "ext4".to_string()));
    assert_eq!(parse_root_mount(""), ("mmcblk0".to_string(), "ext4".to_string()));
    assert_eq!(throttled_text(Some("throttled=0x50000\n")), "0x50000");
    assert_eq!(throttled_text(Some("nothing")), "n/a");
    assert_eq!(throttled_text(None), "n/a");
}

#[test]
fn net_card_layout() {
    let card = NetCard::new(360, HERO_CARD_Y, 20);
    assert_eq!(card.up_label_x(), 360 + 8 + 20 + 7 + 3);
    assert_eq!(card.down_label_x(), 360 + 8 + 10 + 3);
    assert_eq!(card.up_arrow_center(), (360 + 8 + 20 + 2 + 3, HERO_CARD_Y + 3 + 2));
    assert_eq!(card.down_arrow_center(), (360 + 8 + 5, HERO_CARD_Y + 19 + 4));
    assert_eq!(card.up_bbox(), Rect::new(390, 43, 457, 52));
    assert_eq!(card.down_bbox(), Rect::new(368, 59, 458, 72));
}

#[test]
fn net_card_redraws_only_on_change() {
    let panel = 0x161b22;
    let mut fb = Framebuffer::headless();
    let mut card = NetCard::new(360, HERO_CARD_Y, 20);
    assert!(card.update_up(&mut fb, "1.0K", panel));
    assert_eq!(card.last_up, "1.0K");
    assert_eq!(card.last_up_bbox, Some(card.up_bbox()));
    // The strip from the arrow centre, 67 x 9 pixels, is painted.
    let c = rgb888_to_rgb565(panel);
    assert_eq!(fb.buffer()[43 * W + 393], c);
    assert_eq!(fb.buffer()[51 * W + 459], c);
    assert_eq!(fb.buffer()[51 * W + 460], 0);
    assert_eq!(fb.buffer()[43 * W + 392], 0);
    fb.clear_dirty();
    assert!(!card.update_up(&mut fb, "1.0K", panel));
    assert!(fb.dirty_rects().is_empty());
    assert!(card.update_down(&mut fb, "2.0M", panel));
    assert_eq!(card.last_down, "2.0M");
    assert_eq!(card.last_up, "1.0K");
    assert!(!fb.dirty_rects().is_empty());
}

#[test]
fn ts_chip_redraws_on_state_change_only() {
    let panel = 0x161b22;
    let mut fb = Framebuffer::headless();
    let mut chip = TsChip::new();
    assert_eq!(ts_chip_layout(), (145, 16, 153));
    assert!(chip.update(&mut fb, true, panel));
    assert!(fb.dirty_rects().is_empty());
    chip.set_text_box(153, 9, 14);
    assert_eq!(chip.last_text_bbox, Some(Rect::new(153, 9, 167, 20)));
    assert!(!chip.update(&mut fb, true, panel));
    assert!(fb.dirty_rects().is_empty());
    // Turning off erases the previous text box.
    assert!(chip.update(&mut fb, false, panel));
    assert_eq!(fb.dirty_rects(), &[Rect::new(153, 9, 167, 20)]);
    assert_eq!(chip.last_on, Some(false));
    chip.set_text_box(-3, -2, 2);
    assert_eq!(chip.last_text_bbox, Some(Rect::new(0, 0, 0, 9)));
}

#[test]
fn dialog_is_modal_and_needs_confirm() {
    let mut page = make_page();
    // A tap on the confirm button's place with no dialog open runs nothing.
    assert_eq!(page.on_touch(tap(300, 170), 0), PageAction::Nothing);
    assert!(matches!(page.power_state, PowerState::Idle));
    assert_eq!(page.take_pending_command(), None);
    page.enter_power_confirm(PowerAction::Reboot, 0);
    // A hero card under an open dialog does not switch pages; it cancels.
    assert_eq!(page.on_touch(tap(20, 50), 0), PageAction::Nothing);
    assert!(matches!(page.power_state, PowerState::Idle));
    assert_eq!(page.container_scroll_offset, 0);
    // Confirm runs the command once.
    page.enter_power_confirm(PowerAction::Reboot, 0);
    assert_eq!(page.on_touch(tap(300, 170), 5), PageAction::Nothing);
    assert!(matches!(page.power_state, PowerState::Executing { action: PowerAction::Reboot, started_ms: 5 }));
    assert_eq!(page.take_pending_command(), Some(PowerAction::Reboot));
    assert_eq!(page.take_pending_command(), None);
    // While the command runs, touches are ignored.
    assert_eq!(page.on_touch(tap(20, 50), 6), PageAction::Nothing);
    assert!(matches!(page.power_state, PowerState::Executing { .. }));
}

#[test]
fn trend_display_is_idempotent() {
    let panel = 0x161b22;
    let mut fb = Framebuffer::headless();
    let mut page = make_page();
    let (_, _, _, b) = trend_layout(Rect::new(20, 60, 60, 76), None);
    for state in [TrendState::Rising, TrendState::Falling, TrendState::Steady, TrendState::Absent] {
        for alarm in [false, true] {
            page.trend_update(&mut fb, state, alarm, b, panel);
            fb.clear_dirty();
            let before = fb.buffer().to_vec();
            assert!(!page.trend_update(&mut fb, state, alarm, b, panel));
            assert!(fb.dirty_rects().is_empty());
            assert_eq!(fb.buffer(), &before[..]);
        }
    }
}

#[test]
fn trend_erase_marks_its_box() {
    let panel = 0x161b22;
    let mut fb = Framebuffer::headless();
    let mut page = make_page();
    let (_, _, _, b) = trend_layout(Rect::new(20, 60, 60, 76), None);
    page.trend_update(&mut fb, TrendState::Rising, false, b, panel);
    assert!(fb.dirty_rects().is_empty());
    assert!(!page.trend_update(&mut fb, TrendState::Absent, false, b, panel));
    assert_eq!(fb.dirty_rects(), &[b]);
}
