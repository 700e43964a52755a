use pi_dashboard::config::{H, W};
use pi_dashboard::fb::Framebuffer;
use pi_dashboard::ipc::{mode_id, route_request, IpcRoute};
use pi_dashboard::screenshot::{encode_png, rgb565_to_rgb_bytes, screenshot_base64};

#[test]
fn routes_actions() {
    assert!(matches!(route_request("screenshot", None), IpcRoute::Screenshot));
    assert!(matches!(route_request("status", None), IpcRoute::Status));
    assert!(matches!(route_request("scroll_containers", None), IpcRoute::ScrollContainers));
    assert!(matches!(route_request("switch_mode", None), IpcRoute::SwitchMode("monitor")));
    assert!(matches!(route_request("switch_mode", Some("cpu")), IpcRoute::SwitchMode("cpu")));
    match route_request("switch_mode", Some("settings")) {
        IpcRoute::Reject(m) => assert_eq!(m, "unknown mode: settings"),
        other => panic!("unexpected {:?}", other),
    }
    match route_request("reboot", None) {
        IpcRoute::Reject(m) => assert_eq!(m, "unknown action: reboot"),
        other => panic!("unexpected {:?}", other),
    }
    assert_eq!(mode_id("net"), Some("net"));
    assert_eq!(mode_id("console"), None);
}

#[test]
fn rgb_bytes_expand_channels() {
    assert_eq!(rgb565_to_rgb_bytes(&[0xf800, 0x07e0], 3), vec![255, 0, 0, 0, 255, 0, 0, 0, 0]);
}

#[test]
fn png_has_signature() {
    let png = encode_png(&[0xffff, 0x0000, 0xf800, 0x001f], 2, 2).expect("png");
    assert_eq!(&png[..8], &[137, 80, 78, 71, 13, 10, 26, 10]);
    assert_eq!(encode_png(&[], 0, 0), None);
}

#[test]
fn screenshot_is_base64_png() {
    let fb = Framebuffer::headless();
    let text = screenshot_base64(fb.buffer()).expect("screenshot");
    assert!(text.starts_with("iVBORw0KGgo"));
    assert_eq!(text.len() % 4, 0);
    assert_eq!(fb.buffer().len(), W * H);
}
