use std::collections::HashMap;

use clipboard_saver::actions::{
    copy_plan, drag_plan, forget_thumbs, ingest_text, menu_command, recall_image, restore_plan,
    state_dto, tray_command, CopyPlan, DragPlan, MenuCommand, Restore, TrayCommand,
};
use clipboard_saver::history::{History, MAX_ITEMS};
use clipboard_saver::item::{fnv1a, ClipboardItem, ItemKind};

fn text(id: u64, s: &str) -> ClipboardItem {
    ClipboardItem { id, kind: ItemKind::Text(s.into()), copied_at: 0 }
}

fn image(id: u64, png: &str, hash: u64) -> ClipboardItem {
    ClipboardItem {
        id,
        kind: ItemKind::Image { width: 2, height: 3, png: png.into(), hash },
        copied_at: 0,
    }
}

fn ids(h: &History) -> Vec<u64> {
    h.items().map(|i| i.id).collect()
}

#[test]
fn ingest_text_promotes_instead_of_duplicating() {
    let mut h = History::from_items(vec![text(1, "a"), text(2, "b"), text(3, "c")]);
    let evicted = ingest_text(&mut h, "b".to_string(), 500);
    assert!(evicted.is_empty());
    assert_eq!(ids(&h), vec![2, 1, 3]);
    assert_eq!(h.items().next().unwrap().copied_at, 500);
    assert_eq!(h.next_id(), 4);
    // A new text goes in front with a fresh id.
    ingest_text(&mut h, "d".to_string(), 600);
    assert_eq!(ids(&h), vec![4, 2, 1, 3]);
    assert_eq!(h.find_text("d"), Some(4));
}

#[test]
fn ingest_text_evicts_at_the_cap() {
    let items: Vec<ClipboardItem> = (0..MAX_ITEMS as u64).map(|i| text(i + 1, &format!("t{i}"))).collect();
    let mut h = History::from_items(items);
    let evicted = ingest_text(&mut h, "new".to_string(), 1);
    assert_eq!(evicted.len(), 1);
    assert_eq!(evicted[0].id, MAX_ITEMS as u64);
    assert_eq!(h.len(), MAX_ITEMS);
    // Copying something already there evicts nothing.
    assert!(ingest_text(&mut h, "t0".to_string(), 2).is_empty());
    assert_eq!(h.len(), MAX_ITEMS);
}

#[test]
fn recall_image_by_content_hash() {
    let rgba = vec![1u8, 2, 3, 4];
    let hash = fnv1a(&rgba);
    let mut h = History::from_items(vec![text(1, "a"), image(2, "x.png", hash)]);
    assert_eq!(recall_image(&mut h, &rgba, 9), None);
    assert_eq!(ids(&h), vec![2, 1]);
    assert_eq!(h.items().next().unwrap().copied_at, 9);
    let other = vec![4u8, 3, 2, 1];
    assert_eq!(recall_image(&mut h, &other, 10), Some(fnv1a(&other)));
    assert_eq!(ids(&h), vec![2, 1]);
}

#[test]
fn restore_plan_puts_back_the_item() {
    let h = History::from_items(vec![text(1, "hola"), image(2, "p.png", 5)]);
    assert_eq!(restore_plan(&h, 1), Some(Restore::Text("hola".into())));
    assert_eq!(restore_plan(&h, 2), Some(Restore::Image("p.png".into())));
    assert_eq!(restore_plan(&h, 3), None);
}

#[test]
fn copy_plan_single_and_many() {
    let h = History::from_items(vec![text(1, "a"), image(2, "p.png", 5), text(3, "c"), image(4, "q.png", 6)]);
    assert!(matches!(copy_plan(&h, &[]), CopyPlan::Nothing));
    assert!(matches!(copy_plan(&h, &[2]), CopyPlan::Single(Restore::Image(ref p)) if p == "p.png"));
    match copy_plan(&h, &[3, 4, 1, 2, 99]) {
        CopyPlan::Many { text, pngs } => {
            assert_eq!(text.as_deref(), Some("c\na"));
            assert_eq!(pngs, vec!["q.png".to_string(), "p.png".to_string()]);
        }
        _ => panic!("expected several items"),
    }
    match copy_plan(&h, &[99]) {
        CopyPlan::Many { text, pngs } => {
            assert!(text.is_none());
            assert!(pngs.is_empty());
        }
        _ => panic!("unknown single id falls through to the multi-item path"),
    }
}

#[test]
fn drag_plan_text_or_files() {
    let h = History::from_items(vec![text(1, "a"), image(2, "p.png", 5), text(3, "c")]);
    assert!(drag_plan(&h, &[]).is_none());
    assert!(drag_plan(&h, &[42]).is_none());
    match drag_plan(&h, &[3, 1]) {
        Some(DragPlan::Text(t)) => assert_eq!(t, "c\na"),
        _ => panic!("all text drags as text"),
    }
    match drag_plan(&h, &[1, 2]) {
        Some(DragPlan::Files { pngs, text }) => {
            assert_eq!(pngs, vec!["p.png".to_string()]);
            assert_eq!(text.as_deref(), Some("a"));
        }
        _ => panic!("an image makes a file drag"),
    }
    match drag_plan(&h, &[2]) {
        Some(DragPlan::Files { pngs, text }) => {
            assert_eq!(pngs.len(), 1);
            assert!(text.is_none());
        }
        _ => panic!("an image makes a file drag"),
    }
}

#[test]
fn menu_commands() {
    assert_eq!(menu_command("quit"), MenuCommand::Quit);
    assert_eq!(menu_command("clear"), MenuCommand::Clear);
    assert_eq!(menu_command("update"), MenuCommand::Update);
    assert_eq!(menu_command("autostart"), MenuCommand::ToggleAutostart);
    assert_eq!(menu_command("item:12"), MenuCommand::Restore(12));
    assert_eq!(menu_command("version"), MenuCommand::Ignore);
    assert_eq!(menu_command("item:x"), MenuCommand::Ignore);
}

#[test]
fn tray_commands() {
    assert_eq!(tray_command("show"), TrayCommand::TogglePanel);
    assert_eq!(tray_command("autostart"), TrayCommand::ToggleAutostart);
    assert_eq!(tray_command("clear"), TrayCommand::Clear);
    assert_eq!(tray_command("update"), TrayCommand::Update);
    assert_eq!(tray_command("quit"), TrayCommand::Quit);
    assert_eq!(tray_command("item:1"), TrayCommand::Ignore);
}

#[test]
fn state_dto_lists_items_with_thumbs() {
    let h = History::from_items(vec![text(1, "https://x.y"), image(2, "p.png", 5), image(3, "q.png", 6)]);
    let mut thumbs = HashMap::new();
    thumbs.insert(2u64, "data:image/png;base64,AA==".to_string());
    let s = state_dto(&h, &thumbs, 120, true, "v1".into(), Some("v2".into()));
    assert_eq!(s.items.len(), 3);
    assert_eq!(s.items[0].kind, "text");
    assert!(s.items[0].is_url);
    assert_eq!(s.items[0].ago, "hace 2 min");
    assert_eq!(s.items[1].thumb.as_deref(), Some("data:image/png;base64,AA=="));
    assert_eq!(s.items[1].preview, "Imagen 2×3");
    assert!(s.items[2].thumb.is_none());
    assert!(s.autostart);
    assert_eq!(s.version, "v1");
    assert_eq!(s.pending_update.as_deref(), Some("v2"));
    assert_eq!(s.max_items, MAX_ITEMS);
}

#[test]
fn forget_thumbs_drops_only_gone_items() {
    let mut thumbs: HashMap<u64, u8> = HashMap::new();
    thumbs.insert(1, 10);
    thumbs.insert(2, 20);
    thumbs.insert(3, 30);
    forget_thumbs(&mut thumbs, &[text(1, "a"), image(3, "p", 0), text(9, "z")]);
    assert_eq!(thumbs.len(), 1);
    assert_eq!(thumbs.get(&2), Some(&20));
}
