use clipboard_saver::autostart::{launch_agent_plist, LABEL};
use clipboard_saver::glyph::{glyph_rgba, tray_rgba};
use clipboard_saver::item::{fnv1a, ClipboardItem, ItemKind, FNV_OFFSET};
use clipboard_saver::storage::image_file_name;
use clipboard_saver::thumbs::png_data_url;
use clipboard_saver::watcher::{captured_text, Captured, ChangeTracker};

#[test]
fn fnv1a_known_values() {
    assert_eq!(fnv1a(&[]), FNV_OFFSET);
    assert_eq!(fnv1a(b"a"), 0xaf63_dc4c_8601_ec8c);
    assert_eq!(fnv1a(b"foobar"), 0x8594_4171_f739_67e8);
}

#[test]
fn png_file_only_for_images() {
    let t = ClipboardItem { id: 1, kind: ItemKind::Text("x".into()), copied_at: 0 };
    assert_eq!(t.png_file(), None);
    let i = ClipboardItem {
        id: 2,
        kind: ItemKind::Image { width: 1, height: 1, png: "f.png".into(), hash: 3 },
        copied_at: 0,
    };
    assert_eq!(i.png_file(), Some("f.png"));
    assert_eq!(i.duplicate(), i);
}

#[test]
fn image_file_names_are_padded_hex() {
    assert_eq!(image_file_name(7), "0000000000000007.png");
    assert_eq!(image_file_name(0xdead_beef), "00000000deadbeef.png");
    assert_eq!(image_file_name(u64::MAX), "ffffffffffffffff.png");
    assert_eq!(image_file_name(7), format!("{:016x}.png", 7u64));
}

#[test]
fn png_data_url_encodes_base64() {
    assert_eq!(png_data_url(&[0]), "data:image/png;base64,AA==");
    assert_eq!(png_data_url(b"hola"), "data:image/png;base64,aG9sYQ==");
    assert_eq!(png_data_url(&[]), "data:image/png;base64,");
}

#[test]
fn glyph_shapes() {
    let small = glyph_rgba();
    assert_eq!(small.len(), 18 * 18 * 4);
    // Row 0, column 6 is ink; column 0 is transparent.
    assert_eq!(&small[6 * 4..6 * 4 + 4], &[0, 0, 0, 255]);
    assert_eq!(&small[0..4], &[0, 0, 0, 0]);
    let big = tray_rgba();
    assert_eq!(big.len(), 36 * 36 * 4);
    // Each art cell becomes a 2×2 block.
    for (y, x) in [(0usize, 12usize), (0, 13), (1, 12), (1, 13)] {
        assert_eq!(big[(y * 36 + x) * 4 + 3], 255);
    }
    assert_eq!(big[(35 * 36 + 35) * 4 + 3], 0);
}

#[test]
fn change_tracker_reports_moves_only() {
    let mut t = ChangeTracker::new(5);
    assert!(!t.observe(5));
    assert!(t.observe(6));
    assert!(!t.observe(6));
    t.sync(9);
    assert!(!t.observe(9));
    assert!(t.observe(3));
}

#[test]
fn captured_text_skips_blank() {
    assert!(captured_text("  \n\t ".to_string()).is_none());
    assert!(captured_text(String::new()).is_none());
    match captured_text(" hi ".to_string()) {
        Some(Captured::Text(t)) => assert_eq!(t, " hi "),
        _ => panic!("non-blank text is captured as it is"),
    }
}

#[test]
fn plist_names_label_and_exe() {
    let p = launch_agent_plist("/Applications/X.app/Contents/MacOS/x");
    assert!(p.starts_with("<?xml version=\"1.0\" encoding=\"UTF-8\"?>\n"));
    assert!(p.contains(&format!("<string>{LABEL}</string>")));
    assert!(p.contains("<string>/Applications/X.app/Contents/MacOS/x</string>"));
    assert!(p.ends_with("</plist>\n"));
}

#[test]
fn different_hashes_get_different_files() {
    let names: Vec<String> = [0u64, 1, 16, 256, u64::MAX - 1, u64::MAX].iter().map(|h| image_file_name(*h)).collect();
    for i in 0..names.len() {
        for j in i + 1..names.len() {
            assert_ne!(names[i], names[j]);
        }
    }
}
