use std::io::{Cursor, Write};

use recall::archive::{extract_binary, extract_from_tar_gz, extract_named_from_zip, is_zip_url, ArchiveError, TarPick};
use recall::archive::{file_name_range, path_file_name_exec, pick_tar_entry, pick_zip_entry, TarEntry};

/// Build a small in-memory zip containing `entries` (path, contents).
fn make_zip(entries: &[(&str, &[u8])]) -> Vec<u8> {
    let mut buf = Vec::new();
    {
        let mut zw = zip::ZipWriter::new(Cursor::new(&mut buf));
        let opts = zip::write::SimpleFileOptions::default()
            .compression_method(zip::CompressionMethod::Deflated);
        for (path, data) in entries {
            zw.start_file(*path, opts).unwrap();
            zw.write_all(data).unwrap();
        }
        zw.finish().unwrap();
    }
    buf
}

/// Build a small in-memory `.tar.gz` containing `entries` (path, contents).
fn make_tgz(entries: &[(&str, &[u8])]) -> Vec<u8> {
    let enc = flate2::write::GzEncoder::new(Vec::new(), flate2::Compression::default());
    let mut builder = tar::Builder::new(enc);
    for (path, data) in entries {
        let mut header = tar::Header::new_gnu();
        header.set_size(data.len() as u64);
        header.set_mode(0o644);
        header.set_cksum();
        builder.append_data(&mut header, path, *data).unwrap();
    }
    builder.into_inner().unwrap().finish().unwrap()
}

#[test]
fn extracts_nested_named_file() {
    let zip = make_zip(&[("pkg-1.2.3/lib/libthing.dll", b"DLLBYTES"), ("pkg-1.2.3/README", b"ignore me")]);
    let got = extract_named_from_zip(&zip, "libthing.dll").unwrap();
    assert_eq!(got, b"DLLBYTES");
}

#[test]
fn extracts_top_level_named_file() {
    let zip = make_zip(&[("recall.exe", b"BINARY")]);
    let got = extract_named_from_zip(&zip, "recall.exe").unwrap();
    assert_eq!(got, b"BINARY");
}

#[test]
fn missing_entry_errors() {
    let zip = make_zip(&[("something-else.txt", b"x")]);
    assert!(extract_named_from_zip(&zip, "recall.exe").is_err());
}

#[test]
fn zip_errors_are_told_apart() {
    let zip = make_zip(&[("something-else.txt", b"x")]);
    assert_eq!(extract_named_from_zip(&zip, "recall.exe"), Err(ArchiveError::NotFound));
    assert_eq!(extract_named_from_zip(b"not a zip", "recall.exe"), Err(ArchiveError::Unreadable));
    // The first matching file wins.
    let two = make_zip(&[("a/recall.exe", b"FIRST"), ("b/recall.exe", b"SECOND")]);
    assert_eq!(extract_named_from_zip(&two, "recall.exe").unwrap(), b"FIRST");
}

#[test]
fn tar_gz_binary_extraction() {
    let tgz = make_tgz(&[("recall-x86_64/README.md", b"docs"), ("recall-x86_64/recall", b"ELFBYTES")]);
    assert_eq!(extract_binary(&tgz, false).unwrap(), b"ELFBYTES");
    assert_eq!(extract_binary(&tgz, true), Err(ArchiveError::NotFound));
    // Garbage is not a gzip stream: nothing can be read.
    assert_eq!(extract_binary(b"garbage", false), Err(ArchiveError::EntryUnreadable));
}

#[test]
fn tar_gz_runtime_library_skips_empty_entries() {
    let tgz = make_tgz(&[
        ("onnxruntime-linux-x64-1.20.0/lib/libonnxruntime.so", b""),
        ("onnxruntime-linux-x64-1.20.0/lib/libonnxruntime.so.1.20.0", b"SHARED"),
    ]);
    let got = extract_from_tar_gz(&tgz, TarPick::LibraryPrefix, "libonnxruntime.so").unwrap();
    assert_eq!(got, b"SHARED");
    assert!(is_zip_url("https://h/onnxruntime-win-x64-1.20.0.zip"));
    assert!(!is_zip_url("https://h/onnxruntime-linux-x64-1.20.0.tgz"));
}

#[test]
fn picking_entries_from_listings() {
    let listing = vec![
        ("pkg/".to_string(), false),
        ("pkg/lib/libthing.dll".to_string(), true),
        ("pkg/libthing.dll.sig".to_string(), true),
    ];
    assert_eq!(pick_zip_entry(&listing, "libthing.dll"), Some(1));
    assert_eq!(pick_zip_entry(&listing, "pkg/"), None);
    let entry = |p: &str, size: u64| TarEntry { path: p.as_bytes().to_vec(), size, data: vec![1, 2] };
    let tars = vec![entry("d/recall/", 0), entry("d/libonnxruntime.so", 0), entry("d/libonnxruntime.so.1", 2), entry("d/recall", 2)];
    assert_eq!(pick_tar_entry(&tars, TarPick::LibraryPrefix, "libonnxruntime.so"), Some(2));
    // A trailing separator is ignored: the directory entry `d/recall/` is named `recall`.
    assert_eq!(pick_tar_entry(&tars, TarPick::Exact, "recall"), Some(0));
    assert_eq!(pick_tar_entry(&tars, TarPick::Exact, "missing"), None);
}

#[test]
fn file_names_follow_path_components() {
    let name = |p: &[u8]| path_file_name_exec(p).map(|v| v.into_iter().collect::<String>());
    assert_eq!(name(b"a/b/lib.so"), Some("lib.so".to_string()));
    assert_eq!(name(b"lib.so"), Some("lib.so".to_string()));
    // Trailing separators and `.` components are passed over.
    assert_eq!(name(b"a/b/"), Some("b".to_string()));
    assert_eq!(name(b"a/b/."), Some("b".to_string()));
    assert_eq!(name(b"a/b/./"), Some("b".to_string()));
    // A final `..`, or no component at all, has no file name.
    assert_eq!(name(b"a/.."), None);
    assert_eq!(name(b"."), None);
    assert_eq!(name(b"/"), None);
    assert_eq!(name(b""), None);
    // Only the final component has to be UTF-8.
    assert_eq!(name(b"dir\xff/recall"), Some("recall".to_string()));
    assert_eq!(name(b"dir/re\xffcall"), None);
    assert_eq!(file_name_range(b"x/abc//"), Some((2, 5)));
}

#[test]
fn tar_picks_use_the_file_name() {
    let entry = |p: &[u8], size: u64| TarEntry { path: p.to_vec(), size, data: vec![1] };
    let tars = vec![entry(b"d\xff/recall", 1), entry(b"d/..", 1)];
    // A non-UTF-8 directory does not hide the file name.
    assert_eq!(pick_tar_entry(&tars, TarPick::Exact, "recall"), Some(0));
    // An entry ending in `..` has no file name: it matches neither pick.
    let dots = vec![entry(b"d/..", 1)];
    assert_eq!(pick_tar_entry(&dots, TarPick::Exact, ".."), None);
    assert_eq!(pick_tar_entry(&dots, TarPick::LibraryPrefix, "."), None);
    // The library pick reads a missing file name as empty text.
    assert_eq!(pick_tar_entry(&dots, TarPick::LibraryPrefix, ""), Some(0));
}

#[test]
fn zip_names_with_dot_components() {
    let listing = vec![("pkg/lib/libthing.dll/.".to_string(), true)];
    // The file name of `pkg/lib/libthing.dll/.` is `libthing.dll`.
    assert_eq!(pick_zip_entry(&listing, "libthing.dll"), Some(0));
    let up = vec![("pkg/libthing.dll/..".to_string(), true)];
    assert_eq!(pick_zip_entry(&up, "libthing.dll"), None);
}
