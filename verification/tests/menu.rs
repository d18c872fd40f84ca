use clipboard_saver::history::History;
use clipboard_saver::item::{ClipboardItem, ItemKind};
use clipboard_saver::menu::{
    entries, item_menu_id, panel_tray_entries, parse_item_id, preview, MenuEntry, ITEM_ID_PREFIX,
    PREVIEW_CHARS,
};

#[test]
fn menu_preview_collapses_newlines_and_truncates() {
    assert_eq!(preview("hola\nmundo"), "hola⏎mundo");
    let long = "x".repeat(100);
    let p = preview(&long);
    assert_eq!(p.chars().count(), PREVIEW_CHARS + 1);
    assert!(p.ends_with('…'));
}

#[test]
fn preview_escapes_mnemonic_ampersand() {
    assert_eq!(preview("a & b"), "a && b");
}

#[test]
fn parse_item_id_roundtrip() {
    let id = format!("{ITEM_ID_PREFIX}17");
    assert_eq!(parse_item_id(&id), Some(17));
    assert_eq!(parse_item_id("quit"), None);
}

#[test]
fn parse_item_id_follows_u64_parsing() {
    assert_eq!(parse_item_id("item:+5"), Some(5));
    assert_eq!(parse_item_id("item:007"), Some(7));
    assert_eq!(parse_item_id("item:"), None);
    assert_eq!(parse_item_id("item:+"), None);
    assert_eq!(parse_item_id("item:-1"), None);
    assert_eq!(parse_item_id("item:12a"), None);
    assert_eq!(parse_item_id("item:18446744073709551615"), Some(u64::MAX));
    assert_eq!(parse_item_id("item:18446744073709551616"), None);
    assert_eq!(parse_item_id("Item:1"), None);
    assert_eq!(parse_item_id(&item_menu_id(u64::MAX)), Some(u64::MAX));
    assert_eq!(item_menu_id(42), "item:42");
}

#[test]
fn menu_preview_escapes_within_the_limit() {
    let amps = "&".repeat(PREVIEW_CHARS + 5);
    let p = preview(&amps);
    assert_eq!(p, format!("{}…", "&&".repeat(PREVIEW_CHARS)));
    assert_eq!(preview("  \r\nx  "), "x");
}

fn label(e: &MenuEntry) -> (&str, &str) {
    match e {
        MenuEntry::Item { id, label, .. } => (id, label),
        MenuEntry::Image { id, label, .. } => (id, label),
        MenuEntry::Check { id, label, .. } => (id, label),
        MenuEntry::Separator => ("-", "-"),
    }
}

#[test]
fn entries_for_empty_history() {
    let history = History::from_items(Vec::new());
    let e = entries(&history, true, "dev", None);
    let labels: Vec<_> = e.iter().map(label).collect();
    assert_eq!(
        labels,
        vec![
            ("empty", "Historial vacío"),
            ("-", "-"),
            ("version", "Clipboard Saver dev"),
            ("autostart", "Iniciar con el sistema"),
            ("clear", "Limpiar historial"),
            ("quit", "Salir"),
        ]
    );
    assert!(matches!(e[0], MenuEntry::Item { enabled: false, .. }));
    assert!(matches!(e[3], MenuEntry::Check { checked: true, .. }));
    assert!(matches!(e[4], MenuEntry::Item { enabled: false, .. }));
}

#[test]
fn entries_number_items_and_offer_update() {
    let history = History::from_items(vec![
        ClipboardItem { id: 5, kind: ItemKind::Text("a&b".into()), copied_at: 0 },
        ClipboardItem {
            id: 3,
            kind: ItemKind::Image { width: 4, height: 2, png: "p.png".into(), hash: 9 },
            copied_at: 0,
        },
    ]);
    let e = entries(&history, false, "v1", Some("v2"));
    let labels: Vec<_> = e.iter().map(label).collect();
    assert_eq!(
        labels,
        vec![
            ("item:5", "1. a&&b"),
            ("item:3", "2. Imagen (4×2)"),
            ("-", "-"),
            ("version", "Clipboard Saver v1"),
            ("update", "⬇ Actualizar a v2 y reiniciar"),
            ("autostart", "Iniciar con el sistema"),
            ("clear", "Limpiar historial"),
            ("quit", "Salir"),
        ]
    );
    assert!(matches!(e[1], MenuEntry::Image { item_id: 3, .. }));
    assert!(matches!(e[6], MenuEntry::Item { enabled: true, .. }));
}

#[test]
fn panel_tray_entries_reflect_update_state() {
    let e = panel_tray_entries(false, "v1", None);
    let labels: Vec<_> = e.iter().map(label).collect();
    assert_eq!(
        labels,
        vec![
            ("show", "Mostrar Clipboard Saver"),
            ("-", "-"),
            ("autostart", "Iniciar al iniciar sesión"),
            ("clear", "Limpiar historial"),
            ("update", "Buscar actualizaciones"),
            ("-", "-"),
            ("version", "Clipboard Saver v1"),
            ("quit", "Salir"),
        ]
    );
    assert!(matches!(e[4], MenuEntry::Item { enabled: false, .. }));
    let e = panel_tray_entries(true, "v1", Some("v9"));
    assert_eq!(label(&e[4]), ("update", "Actualizar a v9 y reiniciar"));
    assert!(matches!(e[4], MenuEntry::Item { enabled: true, .. }));
    assert!(matches!(e[2], MenuEntry::Check { checked: true, .. }));
}
