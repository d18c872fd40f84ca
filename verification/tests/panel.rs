use clipboard_saver::item::{ClipboardItem, ItemKind};
use clipboard_saver::panel::{is_url, item_dto, preview, time_ago, unix_now, PREVIEW_CHARS};

#[test]
fn panel_preview_collapses_newlines_and_truncates() {
    assert_eq!(preview("hola\nmundo"), "hola mundo");
    let long = "x".repeat(300);
    let p = preview(&long);
    assert_eq!(p.chars().count(), PREVIEW_CHARS + 1);
    assert!(p.ends_with('…'));
}

#[test]
fn url_detection() {
    assert!(is_url("https://github.com/Luiss0606"));
    assert!(is_url("  http://example.com"));
    assert!(is_url("www.apple.com"));
    assert!(!is_url("hola https://example.com"));
    assert!(!is_url("texto normal"));
}

#[test]
fn time_ago_buckets() {
    assert_eq!(time_ago(1000, 1030), "ahora");
    assert_eq!(time_ago(1000, 1000 + 5 * 60), "hace 5 min");
    assert_eq!(time_ago(1000, 1000 + 3 * 3600), "hace 3 h");
    assert_eq!(time_ago(1000, 1000 + 2 * 86_400), "hace 2 d");
    assert_eq!(time_ago(2000, 1000), "ahora");
}

#[test]
fn item_dto_maps_kinds() {
    let text_item = ClipboardItem {
        id: 1,
        kind: ItemKind::Text("https://tauri.app".into()),
        copied_at: 0,
    };
    let dto = item_dto(&text_item, None, 30);
    assert_eq!(dto.kind, "text");
    assert!(dto.is_url);
    assert!(dto.thumb.is_none());

    let img_item = ClipboardItem {
        id: 2,
        kind: ItemKind::Image {
            width: 800,
            height: 600,
            png: "x.png".into(),
            hash: 1,
        },
        copied_at: 0,
    };
    let dto = item_dto(&img_item, Some("data:image/png;base64,AA==".into()), 30);
    assert_eq!(dto.kind, "image");
    assert_eq!(dto.preview, "Imagen 800×600");
    assert!(dto.thumb.is_some());
}

#[test]
fn time_ago_bucket_edges() {
    assert_eq!(time_ago(0, 59), "ahora");
    assert_eq!(time_ago(0, 60), "hace 1 min");
    assert_eq!(time_ago(0, 3_599), "hace 59 min");
    assert_eq!(time_ago(0, 3_600), "hace 1 h");
    assert_eq!(time_ago(0, 86_399), "hace 23 h");
    assert_eq!(time_ago(0, 86_400), "hace 1 d");
    assert_eq!(time_ago(0, 86_400 * 365), "hace 365 d");
    assert_eq!(time_ago(0, u64::MAX), format!("hace {} d", u64::MAX / 86_400));
}

#[test]
fn preview_trims_and_keeps_short_text() {
    assert_eq!(preview("  \r\n hola \t "), "hola");
    assert_eq!(preview("a\r\nb"), "a  b");
    assert_eq!(preview(""), "");
    let exact = "y".repeat(PREVIEW_CHARS);
    assert_eq!(preview(&exact), exact);
    let long: String = "ñ".repeat(PREVIEW_CHARS + 1);
    let p = preview(&long);
    assert_eq!(p, format!("{}…", "ñ".repeat(PREVIEW_CHARS)));
}

#[test]
fn url_detection_edges() {
    assert!(is_url("https://a.b\n"));
    assert!(!is_url("https://a b"));
    assert!(!is_url("ftp://example.com"));
    assert!(!is_url(""));
    assert!(!is_url("http:/x"));
    assert!(is_url("\u{3000}www.x\u{3000}"));
}

#[test]
fn item_dto_text_fields() {
    let item = ClipboardItem { id: 7, kind: ItemKind::Text(" hola\nmundo ".into()), copied_at: 100 };
    let dto = item_dto(&item, Some("ignored".into()), 100 + 7200);
    assert_eq!(dto.id, 7);
    assert_eq!(dto.preview, "hola mundo");
    assert!(!dto.is_url);
    assert_eq!(dto.ago, "hace 2 h");
    assert!(dto.thumb.is_none());
}

#[test]
fn unix_now_is_after_2020() {
    assert!(unix_now() > 1_577_836_800);
}
