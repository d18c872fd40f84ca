use clipboard_saver::updater::{pick_asset, release_step, Asset, Release};

#[test]
fn pick_asset_finds_app_zip() {
    let assets = vec![
        Asset {
            name: "ClipboardSaver.dmg".into(),
            browser_download_url: "u1".into(),
        },
        Asset {
            name: "ClipboardSaver.app.zip".into(),
            browser_download_url: "u2".into(),
        },
    ];
    assert_eq!(pick_asset(&assets).unwrap().name, "ClipboardSaver.app.zip");
    assert!(pick_asset(&assets[..1]).is_none());
}

fn asset(name: &str) -> Asset {
    Asset { name: name.into(), browser_download_url: format!("https://x/{name}") }
}

#[test]
fn release_step_decides() {
    let release = Release { tag_name: "v2".into(), assets: vec![asset("a.dmg"), asset("b.app.zip"), asset("c.app.zip")] };
    assert!(matches!(release_step("v2", &release), Ok(None)));
    let chosen = release_step("v1", &release).unwrap().unwrap();
    assert_eq!(chosen.name, "b.app.zip");
    let bare = Release { tag_name: "v3".into(), assets: vec![asset("x.zip")] };
    assert_eq!(release_step("v1", &bare).unwrap_err(), "release v3 has no .app.zip asset");
    assert!(pick_asset(&[asset(".app.zip")]).is_some());
    assert!(pick_asset(&[asset("app.zip")]).is_none());
}
