use dsh_desktop::chrome::{
    frame_thickness, maximized_client_rect, nc_hit_test, point_from_lparam, HitZone, Rect,
};
use dsh_desktop::events::Command;
use dsh_desktop::ui::{
    chrome_colors, classify_ipc, js_str, prefers_dark, status_script, webview_background,
    ChromeColors, IpcMessage, RevealOnce,
};

#[test]
fn js_str_escapes() {
    assert_eq!(js_str("plain"), "\"plain\"");
    assert_eq!(js_str("a\"b\\c"), "\"a\\\"b\\\\c\"");
    assert_eq!(js_str("l1\nl2\r\t"), "\"l1\\nl2\\r\\t\"");
    assert_eq!(js_str("\u{1}\u{1f}"), "\"\\u0001\\u001f\"");
    assert_eq!(js_str("中文…"), "\"中文…\"");
    assert_eq!(js_str(""), "\"\"");
}

#[test]
fn status_script_layout() {
    let actions = vec!["retry".to_string()];
    assert_eq!(
        status_script("安装失败", "x\ny", &actions),
        "window.__dshSetStatus({title:\"安装失败\",detail:\"x\\ny\",actions:[\"retry\"]})"
    );
    let two = vec!["upgrade".to_string(), "skip".to_string()];
    assert_eq!(
        status_script("t", "", &two),
        "window.__dshSetStatus({title:\"t\",detail:\"\",actions:[\"upgrade\",\"skip\"]})"
    );
    assert_eq!(
        status_script("t", "d", &Vec::new()),
        "window.__dshSetStatus({title:\"t\",detail:\"d\",actions:[]})"
    );
}

#[test]
fn ipc_messages() {
    assert_eq!(classify_ipc("__theme:dark"), IpcMessage::Theme { dark: true });
    assert_eq!(classify_ipc("__theme:light"), IpcMessage::Theme { dark: false });
    assert_eq!(classify_ipc("__visible"), IpcMessage::Visible);
    assert_eq!(classify_ipc("upgrade"), IpcMessage::UserCommand { command: Command::Upgrade });
    assert_eq!(classify_ipc("skip"), IpcMessage::UserCommand { command: Command::SkipUpdate });
    assert_eq!(classify_ipc("retry"), IpcMessage::UserCommand { command: Command::Retry });
    assert_eq!(classify_ipc("hello"), IpcMessage::Ignored);
    assert_eq!(classify_ipc("upgrade-or-retry"), IpcMessage::UserCommand { command: Command::Upgrade });
    assert_eq!(classify_ipc("__visible retry"), IpcMessage::Visible);
}

#[test]
fn chrome_palette() {
    assert_eq!(chrome_colors(true), ChromeColors { background: 0x0017_1515, text: 0x00FB_FAF9 });
    assert_eq!(chrome_colors(false), ChromeColors { background: 0x00FB_FAF9, text: 0x0015_110F });
    assert_eq!(webview_background(true), (21, 21, 23, 255));
    assert_eq!(webview_background(false), (249, 250, 251, 255));
}

fn lparam(x: u16, y: u16) -> i64 {
    ((y as i64) << 16) | (x as i64)
}

fn signed_lparam(x: i32, y: i32) -> i64 {
    (((y as u16) as i64) << 16) | ((x as u16) as i64)
}

#[test]
fn lparam_words_are_signed() {
    assert_eq!(point_from_lparam(lparam(10, 20)), (10, 20));
    assert_eq!(point_from_lparam(lparam(0xFFFF, 0xFFFE)), (-1, -2));
    assert_eq!(point_from_lparam(lparam(0x8000, 0x7FFF)), (-32768, 32767));
    assert_eq!(point_from_lparam(-1), (-1, -1));
    assert_eq!(point_from_lparam(signed_lparam(-995, 450)), (-995, 450));
}

#[test]
fn hit_test_on_monitor_at_negative_coordinates() {
    let r = Rect { left: -1000, top: -800, right: -200, bottom: -100 };
    let f = 8;
    let hit = |x: i32, y: i32| nc_hit_test(true, false, signed_lparam(x, y), Some(r), f);
    assert_eq!(hit(-995, -450), Some(HitZone::Left));
    assert_eq!(hit(-205, -450), Some(HitZone::Right));
    assert_eq!(hit(-600, -795), Some(HitZone::Top));
    assert_eq!(hit(-600, -105), Some(HitZone::Bottom));
    assert_eq!(hit(-999, -799), Some(HitZone::TopLeft));
    assert_eq!(hit(-600, -450), None);
}

#[test]
fn hit_test_zones() {
    let r = Rect { left: 100, top: 100, right: 900, bottom: 700 };
    let f = frame_thickness(4, 4);
    assert_eq!(f, 8);
    assert_eq!(nc_hit_test(true, false, lparam(101, 101), Some(r), f), Some(HitZone::TopLeft));
    assert_eq!(nc_hit_test(true, false, lparam(899, 101), Some(r), f), Some(HitZone::TopRight));
    assert_eq!(nc_hit_test(true, false, lparam(101, 699), Some(r), f), Some(HitZone::BottomLeft));
    assert_eq!(nc_hit_test(true, false, lparam(899, 699), Some(r), f), Some(HitZone::BottomRight));
    assert_eq!(nc_hit_test(true, false, lparam(105, 400), Some(r), f), Some(HitZone::Left));
    assert_eq!(nc_hit_test(true, false, lparam(895, 400), Some(r), f), Some(HitZone::Right));
    assert_eq!(nc_hit_test(true, false, lparam(500, 109), Some(r), f), Some(HitZone::Top));
    assert_eq!(nc_hit_test(true, false, lparam(500, 691), Some(r), f), Some(HitZone::Bottom));
    assert_eq!(nc_hit_test(true, false, lparam(500, 110), Some(r), f), None);
    assert_eq!(nc_hit_test(true, false, lparam(500, 400), Some(r), f), None);
    assert_eq!(nc_hit_test(false, false, lparam(101, 101), Some(r), f), None);
    assert_eq!(nc_hit_test(true, true, lparam(101, 101), Some(r), f), None);
    assert_eq!(nc_hit_test(true, false, lparam(101, 101), None, f), None);
}

#[test]
fn maximized_rect_is_inset() {
    let r = Rect { left: -8, top: -8, right: 1928, bottom: 1048 };
    assert_eq!(
        maximized_client_rect(r, 8),
        Rect { left: 0, top: 0, right: 1920, bottom: 1040 }
    );
}

fn decode_literal(lit: &str) -> Option<String> {
    let inner = lit.strip_prefix('"')?.strip_suffix('"')?;
    let mut out = String::new();
    let mut it = inner.chars();
    while let Some(c) = it.next() {
        if c == '"' || (c as u32) < 0x20 {
            return None;
        }
        if c != '\\' {
            out.push(c);
            continue;
        }
        match it.next()? {
            '"' => out.push('"'),
            '\\' => out.push('\\'),
            '/' => out.push('/'),
            'n' => out.push('\n'),
            'r' => out.push('\r'),
            't' => out.push('\t'),
            'b' => out.push('\u{8}'),
            'f' => out.push('\u{c}'),
            'u' => {
                let hex: String = (0..4).filter_map(|_| it.next()).collect();
                out.push(char::from_u32(u32::from_str_radix(&hex, 16).ok()?)?);
            }
            _ => return None,
        }
    }
    Some(out)
}

#[test]
fn js_str_decodes_back_and_is_injective() {
    let samples = ["", "plain", "a\"b\\c", "l1\nl2\r\t", "\u{1}\u{1f}\u{7f}", "中文…", "\\n", "\n"];
    for s in samples {
        assert_eq!(decode_literal(&js_str(s)).as_deref(), Some(s));
    }
    for a in samples {
        for b in samples {
            assert_eq!(js_str(a) == js_str(b), a == b);
        }
    }
}

#[test]
fn dark_theme_only_when_read_and_zero() {
    assert!(prefers_dark(true, 0));
    assert!(!prefers_dark(true, 1));
    assert!(!prefers_dark(false, 0));
}

#[test]
fn window_is_revealed_once() {
    let mut r = RevealOnce::new();
    assert!(r.show_now());
    assert!(!r.show_now());
    assert!(!r.show_now());
}
