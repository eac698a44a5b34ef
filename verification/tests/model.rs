use recall::model::{
    check_model_mismatch, configured_model, extracted_runtime_ok, ort_cache_action, ort_download_url,
    ort_lib_filename, ort_platform, ort_runtime_version, Model, RuntimeCacheAction,
};

// The platform the tests run on.
fn this_os() -> &'static str {
    "linux"
}

fn this_arch() -> &'static str {
    "x86_64"
}

#[test]
fn ort_url_derives_from_version() {
    let url = ort_download_url(this_os(), this_arch()).expect("supported platform");
    let (slug, ext) = ort_platform(this_os(), this_arch()).expect("supported platform");
    let version = ort_runtime_version();
    // URL is built from the runtime version + platform table.
    assert!(
        url.contains(&format!("v{}/", version)),
        "url must embed the release tag from the runtime version: {url}"
    );
    assert!(
        url.contains(&format!("onnxruntime-{}-{}.{}", slug, version, ext)),
        "url must use the platform slug/ext and version: {url}"
    );
    assert!(url.ends_with(&format!(".{}", ext)), "url ext must match: {url}");
    assert!(
        url.starts_with("https://github.com/microsoft/onnxruntime/releases/download/"),
        "url host/path unchanged: {url}"
    );
}

#[test]
fn ort_platform_ext_is_zip_or_tgz() {
    let (_slug, ext) = ort_platform(this_os(), this_arch()).expect("supported platform");
    assert!(matches!(ext, "zip" | "tgz"), "unexpected ext: {ext}");
}

#[test]
fn ort_url_exact_for_linux_x64() {
    assert_eq!(
        ort_download_url("linux", "x86_64").unwrap(),
        "https://github.com/microsoft/onnxruntime/releases/download/v1.20.0/onnxruntime-linux-x64-1.20.0.tgz"
    );
    assert_eq!(ort_platform("windows", "x86_64"), Some(("win-x64", "zip")));
    assert_eq!(ort_platform("freebsd", "x86_64"), None);
    assert_eq!(ort_download_url("windows", "aarch64"), None);
}

#[test]
fn ort_lib_filename_per_os() {
    assert_eq!(ort_lib_filename("windows"), Some("onnxruntime.dll"));
    assert_eq!(ort_lib_filename("linux"), Some("libonnxruntime.so"));
    assert_eq!(ort_lib_filename("macos"), Some("libonnxruntime.dylib"));
    assert_eq!(ort_lib_filename("haiku"), None);
}

#[test]
fn from_name_bge_base_variants() {
    assert_eq!(Model::from_name("bge-base-en-v1.5"), Some(Model::BgeBase));
    assert_eq!(Model::from_name("bge-base"), Some(Model::BgeBase));
    assert_eq!(Model::from_name("base"), Some(Model::BgeBase));
}

#[test]
fn from_name_bge_small_variants() {
    assert_eq!(Model::from_name("bge-small-en-v1.5"), Some(Model::BgeSmall));
    assert_eq!(Model::from_name("bge-small"), Some(Model::BgeSmall));
    assert_eq!(Model::from_name("small"), Some(Model::BgeSmall));
}

#[test]
fn from_name_case_insensitive() {
    assert_eq!(Model::from_name("BGE-BASE"), Some(Model::BgeBase));
    assert_eq!(Model::from_name("Bge-Small"), Some(Model::BgeSmall));
}

#[test]
fn from_name_invalid() {
    assert_eq!(Model::from_name("nonexistent"), None);
    assert_eq!(Model::from_name(""), None);
    assert_eq!(Model::from_name("bge-large"), None);
}

#[test]
fn model_dimensions() {
    assert_eq!(Model::BgeBase.dimensions(), 768);
    assert_eq!(Model::BgeSmall.dimensions(), 384);
}

#[test]
fn model_name_roundtrip() {
    assert_eq!(Model::from_name(Model::BgeBase.name()), Some(Model::BgeBase));
    assert_eq!(Model::from_name(Model::BgeSmall.name()), Some(Model::BgeSmall));
}

#[test]
fn configured_model_falls_back_to_default() {
    assert_eq!(configured_model(None), Model::BgeBase);
    assert_eq!(configured_model(Some("small")), Model::BgeSmall);
    assert_eq!(configured_model(Some("bge-large")), Model::BgeBase);
}

#[test]
fn model_mismatch_reports_stored_model() {
    assert_eq!(check_model_mismatch(Some("bge-small-en-v1.5"), Model::BgeBase), Some(Model::BgeSmall));
    assert_eq!(check_model_mismatch(Some("bge-base-en-v1.5"), Model::BgeBase), None);
    assert_eq!(check_model_mismatch(Some("unknown"), Model::BgeBase), None);
    assert_eq!(check_model_mismatch(None, Model::BgeSmall), None);
}

#[test]
fn runtime_cache_decisions() {
    assert!(matches!(ort_cache_action(false, 0), RuntimeCacheAction::Download));
    assert!(matches!(ort_cache_action(true, 999_999), RuntimeCacheAction::ReplaceCorrupt));
    assert!(matches!(ort_cache_action(true, 1_000_000), RuntimeCacheAction::Use));
    assert!(!extracted_runtime_ok(999_999));
    assert!(extracted_runtime_ok(12_000_000));
}
