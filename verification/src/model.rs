//! Embedding models and the ONNX Runtime release they run on.

use vstd::prelude::*;
use crate::text::{
    ascii_lower, chars_eq_str, chars_of, is_ascii_text, lowercase_chars, str_eq, unicode_lowercase,
    append_str,
};

verus! {

/// Supported embedding models.
#[derive(Debug, Clone, Copy, PartialEq, Eq, Structural)]
pub enum Model {
    /// BGE-base-en-v1.5 (768-dim), the default.
    BgeBase,
    /// BGE-small-en-v1.5 (384-dim): faster, half the storage.
    BgeSmall,
}

pub open spec fn model_dimensions(m: Model) -> nat {
    match m {
        Model::BgeBase => 768,
        Model::BgeSmall => 384,
    }
}

pub open spec fn model_name(m: Model) -> Seq<char> {
    match m {
        Model::BgeBase => "bge-base-en-v1.5"@,
        Model::BgeSmall => "bge-small-en-v1.5"@,
    }
}

/// The model that an already lowercased name selects.
pub open spec fn model_for_lowercase(s: Seq<char>) -> Option<Model> {
    if s == "bge-base-en-v1.5"@ || s == "bge-base"@ || s == "base"@ {
        Some(Model::BgeBase)
    } else if s == "bge-small-en-v1.5"@ || s == "bge-small"@ || s == "small"@ {
        Some(Model::BgeSmall)
    } else {
        None
    }
}

/// The default model.
pub open spec fn default_model() -> Model {
    Model::BgeBase
}

impl Model {
    /// Embedding dimensions of the model.
    pub fn dimensions(self) -> (d: usize)
        ensures
            d == model_dimensions(self),
    {
        match self {
            Model::BgeBase => 768,
            Model::BgeSmall => 384,
        }
    }

    /// The model's canonical name.
    pub fn name(self) -> (n: &'static str)
        ensures
            n@ == model_name(self),
    {
        match self {
            Model::BgeBase => "bge-base-en-v1.5",
            Model::BgeSmall => "bge-small-en-v1.5",
        }
    }

    /// The model an already lowercased name selects: `bge-base-en-v1.5`,
    /// `bge-base`, `base`, or the same three for the small model.
    pub fn from_lowercase_name(lower: &[char]) -> (r: Option<Model>)
        ensures
            r == model_for_lowercase(lower@),
    {
        if chars_eq_str(lower, "bge-base-en-v1.5") || chars_eq_str(lower, "bge-base")
            || chars_eq_str(lower, "base") {
            Some(Model::BgeBase)
        } else if chars_eq_str(lower, "bge-small-en-v1.5") || chars_eq_str(lower, "bge-small")
            || chars_eq_str(lower, "small") {
            Some(Model::BgeSmall)
        } else {
            None
        }
    }

    /// Parse a model name, ignoring case.
    pub fn from_name(name: &str) -> (r: Option<Model>)
        ensures
            r == model_for_lowercase(unicode_lowercase(name@)),
            is_ascii_text(name@) ==> r == model_for_lowercase(
                name@.map_values(|c: char| ascii_lower(c)),
            ),
    {
        let v = chars_of(name);
        let lower = lowercase_chars(&v);
        Model::from_lowercase_name(&lower)
    }
}

/// A model's name parses back to the model: the name is ASCII, and its
/// lowercase selects the model (so `from_name(m.name())` is `Some(m)`).
pub proof fn lemma_model_name_roundtrip(m: Model)
    ensures
        is_ascii_text(model_name(m)),
        model_for_lowercase(model_name(m).map_values(|c: char| ascii_lower(c))) == Some(m),
{
    reveal_strlit("bge-base-en-v1.5");
    reveal_strlit("bge-small-en-v1.5");
    reveal_strlit("bge-base");
    reveal_strlit("base");
    reveal_strlit("bge-small");
    reveal_strlit("small");
    let n = model_name(m);
    assert(n.map_values(|c: char| ascii_lower(c)) =~= n);
    match m {
        Model::BgeBase => {},
        Model::BgeSmall => {
            assert(n != "bge-base-en-v1.5"@);
            assert(n.len() != "bge-base"@.len());
            assert(n.len() != "base"@.len());
        },
    }
}

/// The model that the setting `RECALL_MODEL` selects: the named model when the
/// setting names one, the default otherwise.
pub fn configured_model(setting: Option<&str>) -> (m: Model)
    ensures
        m == match setting {
            Some(s) => match model_for_lowercase(unicode_lowercase(s@)) {
                Some(x) => x,
                None => default_model(),
            },
            None => default_model(),
        },
{
    match setting {
        Some(s) => match Model::from_name(s) {
            Some(x) => x,
            None => Model::BgeBase,
        },
        None => Model::BgeBase,
    }
}

/// The model a database was built with, when it differs from the configured
/// one (what a mismatch warning reports).
pub fn check_model_mismatch(stored: Option<&str>, configured: Model) -> (r: Option<Model>)
    ensures
        r == match stored {
            Some(s) => match model_for_lowercase(unicode_lowercase(s@)) {
                Some(x) => if x != configured {
                    Some(x)
                } else {
                    None
                },
                None => None,
            },
            None => None,
        },
{
    match stored {
        Some(s) => match Model::from_name(s) {
            Some(x) => {
                if x != configured {
                    Some(x)
                } else {
                    None
                }
            },
            None => None,
        },
        None => None,
    }
}

// ───────────────────────────── ONNX Runtime ─────────────────────────────

/// The ONNX Runtime version the embedding backend requires.
pub open spec fn ort_version() -> Seq<char> {
    "1.20.0"@
}

/// The ONNX Runtime version, as text.
pub fn ort_runtime_version() -> (r: &'static str)
    ensures
        r@ == ort_version(),
{
    "1.20.0"
}

/// The release slug and archive extension for an operating system and CPU
/// architecture (as `std::env::consts::OS` and `ARCH` name them).
pub open spec fn ort_platform_spec(os: Seq<char>, arch: Seq<char>) -> Option<(Seq<char>, Seq<char>)> {
    if os == "windows"@ && arch == "x86_64"@ {
        Some(("win-x64"@, "zip"@))
    } else if os == "linux"@ && arch == "x86_64"@ {
        Some(("linux-x64"@, "tgz"@))
    } else if os == "macos"@ && arch == "x86_64"@ {
        Some(("osx-x86_64"@, "tgz"@))
    } else if os == "macos"@ && arch == "aarch64"@ {
        Some(("osx-arm64"@, "tgz"@))
    } else if os == "linux"@ && arch == "aarch64"@ {
        Some(("linux-aarch64"@, "tgz"@))
    } else {
        None
    }
}

/// The ONNX Runtime release (slug, extension) for a platform; `None` for a
/// platform without a release.
pub fn ort_platform(os: &str, arch: &str) -> (r: Option<(&'static str, &'static str)>)
    ensures
        match r {
            Some((slug, ext)) => ort_platform_spec(os@, arch@) == Some((slug@, ext@)),
            None => ort_platform_spec(os@, arch@) is None,
        },
{
    if str_eq(os, "windows") && str_eq(arch, "x86_64") {
        Some(("win-x64", "zip"))
    } else if str_eq(os, "linux") && str_eq(arch, "x86_64") {
        Some(("linux-x64", "tgz"))
    } else if str_eq(os, "macos") && str_eq(arch, "x86_64") {
        Some(("osx-x86_64", "tgz"))
    } else if str_eq(os, "macos") && str_eq(arch, "aarch64") {
        Some(("osx-arm64", "tgz"))
    } else if str_eq(os, "linux") && str_eq(arch, "aarch64") {
        Some(("linux-aarch64", "tgz"))
    } else {
        None
    }
}

/// The download URL of an ONNX Runtime release archive.
pub open spec fn ort_url_spec(slug: Seq<char>, ext: Seq<char>) -> Seq<char> {
    "https://github.com/microsoft/onnxruntime/releases/download/v"@ + ort_version() + "/"@
        + "onnxruntime-"@ + slug + "-"@ + ort_version() + "."@ + ext
}

/// The download URL of the ONNX Runtime release for a platform, derived from
/// the required version.
pub fn ort_download_url(os: &str, arch: &str) -> (r: Option<String>)
    ensures
        match ort_platform_spec(os@, arch@) {
            Some((slug, ext)) => r is Some && r->0@ == ort_url_spec(slug, ext),
            None => r is None,
        },
{
    match ort_platform(os, arch) {
        Some((slug, ext)) => {
            let mut v: Vec<char> = Vec::new();
            append_str(&mut v, "https://github.com/microsoft/onnxruntime/releases/download/v");
            append_str(&mut v, "1.20.0");
            append_str(&mut v, "/");
            append_str(&mut v, "onnxruntime-");
            append_str(&mut v, slug);
            append_str(&mut v, "-");
            append_str(&mut v, "1.20.0");
            append_str(&mut v, ".");
            append_str(&mut v, ext);
            Some(crate::text::string_from(&v))
        },
        None => None,
    }
}

/// The ONNX Runtime library file name for an operating system.
pub open spec fn ort_lib_filename_spec(os: Seq<char>) -> Option<Seq<char>> {
    if os == "windows"@ {
        Some("onnxruntime.dll"@)
    } else if os == "linux"@ {
        Some("libonnxruntime.so"@)
    } else if os == "macos"@ {
        Some("libonnxruntime.dylib"@)
    } else {
        None
    }
}

/// The platform's ONNX Runtime library file name.
pub fn ort_lib_filename(os: &str) -> (r: Option<&'static str>)
    ensures
        match r {
            Some(n) => ort_lib_filename_spec(os@) == Some(n@),
            None => ort_lib_filename_spec(os@) is None,
        },
{
    if str_eq(os, "windows") {
        Some("onnxruntime.dll")
    } else if str_eq(os, "linux") {
        Some("libonnxruntime.so")
    } else if str_eq(os, "macos") {
        Some("libonnxruntime.dylib")
    } else {
        None
    }
}

/// A cached runtime library below this size (in bytes) is a leftover of an
/// interrupted download.
pub open spec fn min_runtime_size() -> u64 {
    1_000_000
}

/// What to do with the cached runtime library before using it.
#[derive(Debug, Clone, Copy, PartialEq, Eq, Structural)]
pub enum RuntimeCacheAction {
    /// The cached library is usable as it is.
    Use,
    /// Nothing is cached: download it.
    Download,
    /// The cached file is too small to be the library: delete it, then download.
    ReplaceCorrupt,
}

/// Decide what to do with the cached runtime library, from whether it exists
/// and its size.
pub fn ort_cache_action(exists: bool, size: u64) -> (a: RuntimeCacheAction)
    ensures
        a == (if !exists {
            RuntimeCacheAction::Download
        } else if size < min_runtime_size() {
            RuntimeCacheAction::ReplaceCorrupt
        } else {
            RuntimeCacheAction::Use
        }),
{
    if !exists {
        RuntimeCacheAction::Download
    } else if size < 1_000_000 {
        RuntimeCacheAction::ReplaceCorrupt
    } else {
        RuntimeCacheAction::Use
    }
}

/// Whether an extracted runtime library is large enough to keep.
pub fn extracted_runtime_ok(size: u64) -> (ok: bool)
    ensures
        ok == (size >= min_runtime_size()),
{
    size >= 1_000_000
}

} // verus!
