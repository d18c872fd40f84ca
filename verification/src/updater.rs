//! Choosing what to download from a GitHub release.
use std::path::PathBuf;
use vstd::prelude::*;
use vstd::string::*;

use crate::text::{chars_of, ends_with, str_eq};

verus! {

/// A release as GitHub describes it.
#[derive(Debug)]
pub struct Release {
    pub tag_name: String,
    pub assets: Vec<Asset>,
}

/// A downloadable file of a release.
#[derive(Debug)]
pub struct Asset {
    pub name: String,
    pub browser_download_url: String,
}

/// A downloaded release, ready to install.
pub struct Update {
    pub tag: String,
    pub zip_path: PathBuf,
}

pub const APP_ZIP_SUFFIX: &'static str = ".app.zip";

/// Whether an asset is the zipped app bundle.
pub open spec fn is_app_zip(a: Asset) -> bool {
    ends_with(a.name@, APP_ZIP_SUFFIX@)
}

/// Whether the characters of `name` end with those of `suffix`.
fn name_ends_with(name: &str, suffix: &str) -> (r: bool)
    ensures
        r == ends_with(name@, suffix@),
{
    let v = chars_of(name);
    let p = chars_of(suffix);
    if p.len() > v.len() {
        return false;
    }
    let off = v.len() - p.len();
    let mut k: usize = off;
    while k < v.len()
        invariant
            p@ == suffix@,
            v@ == name@,
            p@.len() <= v@.len(),
            off == v@.len() - p@.len(),
            off <= k <= v@.len(),
            forall|j: int| 0 <= j < k - off ==> v@[off + j] == p@[j],
        decreases v@.len() - k,
    {
        if v[k] != p[k - off] {
            assert(v@.skip(off as int)[k - off] != p@[k - off]);
            return false;
        }
        k += 1;
    }
    assert(v@.skip(off as int) =~= p@);
    true
}

/// The first asset that is a `.app.zip`.
pub fn pick_asset(assets: &[Asset]) -> (r: Option<&Asset>)
    ensures
        match r {
            Some(a) => exists|i: int|
                0 <= i < assets@.len() && *a == assets@[i] && is_app_zip(assets@[i]) && forall|j: int|
                    0 <= j < i ==> !is_app_zip(#[trigger] assets@[j]),
            None => forall|i: int| 0 <= i < assets@.len() ==> !is_app_zip(#[trigger] assets@[i]),
        },
{
    let mut i: usize = 0;
    while i < assets.len()
        invariant
            i <= assets@.len(),
            forall|j: int| 0 <= j < i ==> !is_app_zip(#[trigger] assets@[j]),
        decreases assets@.len() - i,
    {
        if name_ends_with(assets[i].name.as_str(), APP_ZIP_SUFFIX) {
            return Some(&assets[i]);
        }
        i += 1;
    }
    None
}

/// The error reported for a release without an app bundle.
pub open spec fn no_asset_message(tag: Seq<char>) -> Seq<char> {
    "release "@ + tag + " has no .app.zip asset"@
}

/// What to do with the latest release when running `current_tag`: nothing
/// if it is the running one; otherwise download its first `.app.zip`
/// asset, or fail when it has none.
pub fn release_step<'a>(current_tag: &str, release: &'a Release) -> (r: Result<
    Option<&'a Asset>,
    String,
>)
    ensures
        release.tag_name@ == current_tag@ ==> r == Ok::<Option<&'a Asset>, String>(None),
        release.tag_name@ != current_tag@ ==> match r {
            Ok(Some(a)) => exists|i: int|
                0 <= i < release.assets@.len() && *a == release.assets@[i] && is_app_zip(
                    release.assets@[i],
                ) && forall|j: int| 0 <= j < i ==> !is_app_zip(#[trigger] release.assets@[j]),
            Ok(None) => false,
            Err(msg) => msg@ == no_asset_message(release.tag_name@) && forall|i: int|
                0 <= i < release.assets@.len() ==> !is_app_zip(#[trigger] release.assets@[i]),
        },
{
    if str_eq(release.tag_name.as_str(), current_tag) {
        return Ok(None);
    }
    match pick_asset(release.assets.as_slice()) {
        Some(a) => Ok(Some(a)),
        None => {
            let mut msg: String = "release ".to_owned();
            msg.append(release.tag_name.as_str());
            msg.append(" has no .app.zip asset");
            Err(msg)
        },
    }
}

} // verus!
