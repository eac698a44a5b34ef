//! Release metadata: platform targets, the latest version, and the asset to
//! download for this platform.

use vstd::prelude::*;
use crate::json::{as_str, get, json_as_array, json_as_str, json_get, JsonValue};
use crate::text::{append_str, chars_of, contains_exec, contains_seq, str_eq, string_from};

verus! {

/// The OS part of release asset names.
pub open spec fn os_target(os: Seq<char>) -> Seq<char> {
    if os == "linux"@ {
        "unknown-linux"@
    } else if os == "macos"@ || os == "darwin"@ {
        "apple-darwin"@
    } else if os == "windows"@ {
        "pc-windows"@
    } else {
        os
    }
}

/// The platform target used in release asset names: `<arch>-<os part>`.
pub fn platform_target(os: &str, arch: &str) -> (r: String)
    ensures
        r@ == arch@ + "-"@ + os_target(os@),
{
    let mut v: Vec<char> = Vec::new();
    append_str(&mut v, arch);
    append_str(&mut v, "-");
    if str_eq(os, "linux") {
        append_str(&mut v, "unknown-linux");
    } else if str_eq(os, "macos") || str_eq(os, "darwin") {
        append_str(&mut v, "apple-darwin");
    } else if str_eq(os, "windows") {
        append_str(&mut v, "pc-windows");
    } else {
        append_str(&mut v, os);
    }
    string_from(&v)
}

/// The full target triple, ABI included.
pub open spec fn triple_spec(os: Seq<char>, arch: Seq<char>) -> Seq<char> {
    if os == "windows"@ {
        arch + "-pc-windows-msvc"@
    } else if os == "macos"@ {
        arch + "-apple-darwin"@
    } else if os == "linux"@ {
        arch + "-unknown-linux-gnu"@
    } else {
        arch + "-"@ + os
    }
}

/// Full target triple including ABI (e.g. `x86_64-pc-windows-msvc`).
pub fn full_target_triple(os: &str, arch: &str) -> (r: String)
    ensures
        r@ == triple_spec(os@, arch@),
{
    let mut v: Vec<char> = Vec::new();
    append_str(&mut v, arch);
    if str_eq(os, "windows") {
        append_str(&mut v, "-pc-windows-msvc");
    } else if str_eq(os, "macos") {
        append_str(&mut v, "-apple-darwin");
    } else if str_eq(os, "linux") {
        append_str(&mut v, "-unknown-linux-gnu");
    } else {
        append_str(&mut v, "-");
        append_str(&mut v, os);
    }
    string_from(&v)
}

/// The version of a release: its `tag_name`, a leading `v` dropped.
pub open spec fn release_version(release: JsonValue) -> Option<Seq<char>> {
    match as_str(get(release, "tag_name"@)) {
        Some(t) => Some(
            if t.len() > 0 && t[0] == 'v' {
                t.drop_first()
            } else {
                t
            },
        ),
        None => None,
    }
}

/// The latest version named by a release document.
pub fn latest_version(release: &JsonValue) -> (r: Option<String>)
    ensures
        match r {
            Some(v) => release_version(*release) == Some(v@),
            None => release_version(*release) is None,
        },
{
    match json_as_str(json_get(release, "tag_name")) {
        Some(t) => Some(crate::config::version_from_tag(t)),
        None => None,
    }
}

/// Why no asset could be chosen.
#[derive(Debug, Clone, Copy, PartialEq, Eq, Structural)]
pub enum AssetError {
    /// The release has no `assets` array.
    NoAssets,
    /// No asset matches the platform.
    NoMatch,
}

/// The string `name` of an asset.
pub open spec fn asset_name(a: JsonValue) -> Option<Seq<char>> {
    as_str(get(a, "name"@))
}

/// The first asset name, from index `i` on, that contains `pat`.
pub open spec fn first_name_with(assets: Seq<JsonValue>, pat: Seq<char>, i: int) -> Option<Seq<char>>
    decreases assets.len() - i,
{
    if i < 0 || i >= assets.len() {
        None
    } else {
        match asset_name(assets[i]) {
            Some(n) => if contains_seq(n, pat) {
                Some(n)
            } else {
                first_name_with(assets, pat, i + 1)
            },
            None => first_name_with(assets, pat, i + 1),
        }
    }
}

/// The download URL of the first asset, from index `i` on, named `name` that
/// has one.
pub open spec fn url_named(assets: Seq<JsonValue>, name: Seq<char>, i: int) -> Option<Seq<char>>
    decreases assets.len() - i,
{
    if i < 0 || i >= assets.len() {
        None
    } else if asset_name(assets[i]) == Some(name) && as_str(
        get(assets[i], "browser_download_url"@),
    ) is Some {
        as_str(get(assets[i], "browser_download_url"@))
    } else {
        url_named(assets, name, i + 1)
    }
}

/// The asset for a platform: the first asset name containing the full
/// triple, else the first containing the OS target; its download URL.
pub open spec fn asset_url_spec(release: JsonValue, triple: Seq<char>, target: Seq<char>) -> Result<
    Seq<char>,
    AssetError,
> {
    match crate::json::as_array(get(release, "assets"@)) {
        None => Err(AssetError::NoAssets),
        Some(assets) => {
            let pick = match first_name_with(assets, triple, 0) {
                Some(n) => Some(n),
                None => first_name_with(assets, target, 0),
            };
            match pick {
                Some(n) => match url_named(assets, n, 0) {
                    Some(u) => Ok(u),
                    None => Err(AssetError::NoMatch),
                },
                None => Err(AssetError::NoMatch),
            }
        },
    }
}

/// The first asset name containing `pat`.
fn first_name_exec(assets: &Vec<JsonValue>, pat: &[char]) -> (r: Option<Vec<char>>)
    ensures
        match r {
            Some(n) => first_name_with(assets@, pat@, 0) == Some(n@),
            None => first_name_with(assets@, pat@, 0) is None,
        },
{
    let mut i: usize = 0;
    while i < assets.len()
        invariant
            i <= assets@.len(),
            first_name_with(assets@, pat@, 0) == first_name_with(assets@, pat@, i as int),
        decreases assets@.len() - i,
    {
        match json_as_str(json_get(&assets[i], "name")) {
            Some(n) => {
                let nv = chars_of(n);
                if contains_exec(&nv, pat) {
                    return Some(nv);
                }
            },
            None => {},
        }
        i = i + 1;
    }
    None
}

/// Choose the release asset for a platform and give its download URL.
pub fn find_asset_url(release: &JsonValue, full_triple: &str, target: &str) -> (r: Result<
    String,
    AssetError,
>)
    ensures
        match r {
            Ok(u) => asset_url_spec(*release, full_triple@, target@) == Ok::<Seq<char>, AssetError>(u@),
            Err(e) => asset_url_spec(*release, full_triple@, target@) == Err::<Seq<char>, AssetError>(e),
        },
{
    let assets = match json_as_array(json_get(release, "assets")) {
        Some(a) => a,
        None => {
            return Err(AssetError::NoAssets);
        },
    };
    let tv = chars_of(full_triple);
    let pick = match first_name_exec(assets, &tv) {
        Some(n) => Some(n),
        None => {
            let gv = chars_of(target);
            first_name_exec(assets, &gv)
        },
    };
    let name = match pick {
        Some(n) => n,
        None => {
            return Err(AssetError::NoMatch);
        },
    };
    assert(asset_url_spec(*release, full_triple@, target@) == match url_named(assets@, name@, 0) {
        Some(u) => Ok::<Seq<char>, AssetError>(u),
        None => Err::<Seq<char>, AssetError>(AssetError::NoMatch),
    });
    let mut i: usize = 0;
    while i < assets.len()
        invariant
            i <= assets@.len(),
            url_named(assets@, name@, 0) == url_named(assets@, name@, i as int),
            asset_url_spec(*release, full_triple@, target@) == match url_named(assets@, name@, 0) {
                Some(u) => Ok::<Seq<char>, AssetError>(u),
                None => Err::<Seq<char>, AssetError>(AssetError::NoMatch),
            },
        decreases assets@.len() - i,
    {
        let matches_name = match json_as_str(json_get(&assets[i], "name")) {
            Some(n) => {
                let nv = chars_of(n);
                crate::text::same_chars(&nv, &name)
            },
            None => false,
        };
        if matches_name {
            match json_as_str(json_get(&assets[i], "browser_download_url")) {
                Some(u) => {
                    let uv = chars_of(u);
                    return Ok(string_from(&uv));
                },
                None => {},
            }
        }
        i = i + 1;
    }
    Err(AssetError::NoMatch)
}

} // verus!
