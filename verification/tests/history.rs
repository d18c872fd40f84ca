use clipboard_saver::history::{History, MAX_ITEMS};
use clipboard_saver::item::{ClipboardItem, ItemKind};

fn text(s: &str) -> ItemKind {
    ItemKind::Text(s.to_string())
}

#[test]
fn insert_caps_at_max_items_and_evicts_oldest() {
    let mut history = History::from_items(Vec::new());
    for i in 0..MAX_ITEMS + 3 {
        history.insert_front(text(&format!("copy {i}")));
    }
    assert_eq!(history.len(), MAX_ITEMS);
    // Newest first; the three oldest ("copy 0".."copy 2") are gone.
    assert!(history.find_text("copy 0").is_none());
    assert!(history.find_text("copy 2").is_none());
    assert!(history.find_text("copy 3").is_some());
    let first = history.items().next().unwrap();
    assert_eq!(first.kind, text(&format!("copy {}", MAX_ITEMS + 2)));
}

#[test]
fn insert_reports_evicted_items() {
    let mut history = History::from_items(Vec::new());
    for i in 0..MAX_ITEMS {
        let (_, evicted) = history.insert_front(text(&format!("copy {i}")));
        assert!(evicted.is_empty());
    }
    let (_, evicted) = history.insert_front(text("one more"));
    assert_eq!(evicted.len(), 1);
    assert_eq!(evicted[0].kind, text("copy 0"));
}

#[test]
fn promote_moves_item_to_front() {
    let mut history = History::from_items(Vec::new());
    let (first_id, _) = history.insert_front(text("a"));
    history.insert_front(text("b"));
    history.insert_front(text("c"));

    assert!(history.promote(first_id));
    assert_eq!(history.items().next().unwrap().id, first_id);
    assert_eq!(history.len(), 3);
    assert!(!history.promote(9999));
}

#[test]
fn find_text_and_find_image_match_by_content() {
    let mut history = History::from_items(Vec::new());
    let (text_id, _) = history.insert_front(text("hello"));
    let (img_id, _) = history.insert_front(ItemKind::Image {
        width: 2,
        height: 2,
        png: "x.png".into(),
        hash: 42,
    });

    assert_eq!(history.find_text("hello"), Some(text_id));
    assert_eq!(history.find_text("nope"), None);
    assert_eq!(history.find_image(42), Some(img_id));
    assert_eq!(history.find_image(7), None);
}

#[test]
fn from_items_truncates_and_continues_ids() {
    let items: Vec<ClipboardItem> = (0..MAX_ITEMS as u64 + 5)
        .map(|id| ClipboardItem {
            id,
            kind: text(&format!("copy {id}")),
            copied_at: 0,
        })
        .collect();
    let mut history = History::from_items(items);
    assert_eq!(history.len(), MAX_ITEMS);
    let (new_id, _) = history.insert_front(text("new"));
    assert_eq!(new_id, MAX_ITEMS as u64 + 5);
}

fn stored(id: u64, s: &str, at: u64) -> ClipboardItem {
    ClipboardItem { id, kind: text(s), copied_at: at }
}

#[test]
fn from_items_on_empty_starts_at_one() {
    let mut history = History::from_items(Vec::new());
    assert!(history.is_empty());
    assert_eq!(history.next_id(), 1);
    let (id, _) = history.insert_front(text("x"));
    assert_eq!(id, 1);
    assert_eq!(history.next_id(), 2);
}

#[test]
fn from_items_keeps_order_and_uses_largest_id() {
    let history = History::from_items(vec![stored(3, "a", 1), stored(9, "b", 2), stored(5, "c", 3)]);
    let ids: Vec<u64> = history.items().map(|i| i.id).collect();
    assert_eq!(ids, vec![3, 9, 5]);
    assert_eq!(history.next_id(), 10);
}

#[test]
fn insert_front_at_stamps_time_and_evicts_last() {
    let items: Vec<ClipboardItem> = (0..MAX_ITEMS as u64).map(|i| stored(i + 1, &format!("t{i}"), i)).collect();
    let mut history = History::from_items(items);
    let (id, evicted) = history.insert_front_at(text("new"), 777);
    assert_eq!(id, MAX_ITEMS as u64 + 1);
    assert_eq!(evicted.len(), 1);
    assert_eq!(evicted[0].id, MAX_ITEMS as u64);
    let first = history.items().next().unwrap();
    assert_eq!(first.copied_at, 777);
    assert_eq!(first.kind, text("new"));
    assert_eq!(history.len(), MAX_ITEMS);
}

#[test]
fn promote_at_restamps_only_moved_items() {
    let mut history = History::from_items(vec![stored(1, "a", 10), stored(2, "b", 20), stored(3, "c", 30)]);
    // The front item stays as it is.
    assert!(history.promote_at(1, 99));
    assert_eq!(history.items().next().unwrap().copied_at, 10);
    // Another item moves to the front with the new time; the rest keep their order.
    assert!(history.promote_at(3, 50));
    let v = history.to_vec();
    assert_eq!(v.iter().map(|i| i.id).collect::<Vec<_>>(), vec![3, 1, 2]);
    assert_eq!(v[0].copied_at, 50);
    assert_eq!(v[1].copied_at, 10);
    assert!(!history.promote_at(42, 60));
    assert_eq!(history.to_vec(), v);
}

#[test]
fn get_finds_by_id() {
    let history = History::from_items(vec![stored(1, "a", 0), stored(2, "b", 0)]);
    assert_eq!(history.get(2).unwrap().kind, text("b"));
    assert!(history.get(3).is_none());
}

#[test]
fn clear_returns_everything_newest_first() {
    let mut history = History::from_items(vec![stored(1, "a", 0), stored(2, "b", 0)]);
    let removed = history.clear();
    assert_eq!(removed.iter().map(|i| i.id).collect::<Vec<_>>(), vec![1, 2]);
    assert!(history.is_empty());
    assert_eq!(history.len(), 0);
    // Ids keep counting after a clear.
    let (id, _) = history.insert_front(text("c"));
    assert_eq!(id, 3);
}

#[test]
fn remove_many_splits_by_id() {
    let mut history =
        History::from_items(vec![stored(1, "a", 0), stored(2, "b", 0), stored(3, "c", 0), stored(4, "d", 0)]);
    let removed = history.remove_many(&[3, 1, 99]);
    assert_eq!(removed.iter().map(|i| i.id).collect::<Vec<_>>(), vec![1, 3]);
    assert_eq!(history.to_vec().iter().map(|i| i.id).collect::<Vec<_>>(), vec![2, 4]);
}

#[test]
fn find_text_is_exact() {
    let history = History::from_items(vec![stored(1, "hello ", 0), stored(2, "hello", 0)]);
    assert_eq!(history.find_text("hello"), Some(2));
    assert_eq!(history.find_text("hello "), Some(1));
    assert_eq!(history.find_text("Hello"), None);
}

#[test]
fn eviction_loses_nothing() {
    let items: Vec<ClipboardItem> = (0..MAX_ITEMS as u64).map(|i| stored(i + 1, &format!("t{i}"), 0)).collect();
    let mut history = History::from_items(items.clone());
    let (id, evicted) = history.insert_front_at(text("n"), 5);
    let mut all = history.to_vec();
    all.extend(evicted.into_iter().rev());
    let mut expected = vec![ClipboardItem { id, kind: text("n"), copied_at: 5 }];
    expected.extend(items);
    assert_eq!(all, expected);
}

#[test]
fn inserted_ids_are_fresh_and_found_first() {
    let mut history = History::from_items(vec![stored(4, "a", 0), stored(2, "b", 0)]);
    let (id, _) = history.insert_front_at(text("c"), 1);
    assert_eq!(id, 5);
    assert_eq!(history.get(id).unwrap().kind, text("c"));
    let ids: Vec<u64> = history.items().map(|i| i.id).collect();
    assert_eq!(ids, vec![5, 4, 2]);
}

#[test]
fn ids_never_reused_across_promote_and_clear() {
    let mut history = History::from_items(vec![stored(3, "a", 0), stored(9, "b", 0)]);
    let (a, _) = history.insert_front(text("c"));
    assert_eq!(a, 10);
    assert!(history.promote(3));
    history.clear();
    let (b, _) = history.insert_front(text("d"));
    assert_eq!(b, 11);
    let (c, _) = history.insert_front(text("a"));
    assert_eq!(c, 12);
}
