//! Picking one named file out of a `.zip` (read by `zip`) or a `.tar.gz`
//! (read by `flate2` and `tar`) held in memory.

use vstd::prelude::*;
use vstd::utf8::{decode_utf8, encode_utf8, encode_utf8_decode_utf8, encode_utf8_valid_utf8, valid_utf8};
use crate::text::{chars_of, ends_with, ends_with_exec, starts_with, starts_with_exec};

verus! {

/// Why no file could be taken from an archive.
#[derive(Debug, Clone, Copy, PartialEq, Eq, Structural)]
pub enum ArchiveError {
    /// The data is not an archive of the expected kind.
    Unreadable,
    /// An entry could not be read before the wanted file was found.
    EntryUnreadable,
    /// No entry is the wanted file.
    NotFound,
}

/// The part of `p` after its last `/` byte (all of `p` when there is none).
pub open spec fn after_last_slash(p: Seq<u8>) -> Seq<u8>
    decreases p.len(),
{
    if p.len() == 0 {
        seq![]
    } else if p.last() == 47u8 {
        seq![]
    } else {
        after_last_slash(p.drop_last()).push(p.last())
    }
}

/// The final component of a path given as bytes, as `std::path::Path::file_name`
/// reads it on Unix: trailing `/` and `.` components are passed over, a final
/// `..` (or no component at all) gives `None`.
pub open spec fn file_name_bytes(p: Seq<u8>) -> Option<Seq<u8>>
    decreases p.len(),
{
    if p.len() == 0 {
        None
    } else if p.last() == 47u8 {
        file_name_bytes(p.drop_last())
    } else {
        let c = after_last_slash(p);
        if c == seq![46u8] {
            file_name_bytes(p.drop_last())
        } else if c == seq![46u8, 46u8] {
            None
        } else {
            Some(c)
        }
    }
}

/// The text of bytes that are valid UTF-8 (`str::to_str` of an `OsStr`).
pub open spec fn utf8_text_spec(b: Seq<u8>) -> Option<Seq<char>> {
    if valid_utf8(b) {
        Some(decode_utf8(b))
    } else {
        None
    }
}

/// The final component of a path as text: `Path::file_name` followed by
/// `OsStr::to_str`.
pub open spec fn path_file_name(p: Seq<u8>) -> Option<Seq<char>> {
    match file_name_bytes(p) {
        Some(c) => utf8_text_spec(c),
        None => None,
    }
}

/// Reads bytes as UTF-8 text with `std::str::from_utf8`: the text whose
/// UTF-8 encoding is exactly the bytes, or `None` when they are not valid
/// UTF-8.
#[verifier::external_body]
fn utf8_text(b: &[u8]) -> (r: Option<String>)
    ensures
        match r {
            Some(s) => encode_utf8(s@) == b@,
            None => !valid_utf8(b@),
        },
{
    std::str::from_utf8(b).ok().map(String::from)
}

fn utf8_text_checked(b: &[u8]) -> (r: Option<Vec<char>>)
    ensures
        match r {
            Some(v) => utf8_text_spec(b@) == Some(v@),
            None => utf8_text_spec(b@) is None,
        },
{
    match utf8_text(b) {
        Some(s) => {
            proof {
                encode_utf8_valid_utf8(s@);
                encode_utf8_decode_utf8(s@);
            }
            Some(chars_of(s.as_str()))
        },
        None => None,
    }
}

/// The start of the component that ends at `end`: the byte after the last
/// `/` before `end` (zero when there is none).
fn component_start(p: &[u8], end: usize) -> (k: usize)
    requires
        end <= p@.len(),
    ensures
        k <= end,
        after_last_slash(p@.take(end as int)) == p@.subrange(k as int, end as int),
{
    let mut k: usize = end;
    while k > 0 && p[k - 1] != 47u8
        invariant
            k <= end <= p@.len(),
            after_last_slash(p@.take(end as int)) == after_last_slash(p@.take(k as int)) + p@.subrange(
                k as int,
                end as int,
            ),
        decreases k,
    {
        assert(p@.take(k as int).drop_last() =~= p@.take(k - 1));
        assert(p@.subrange(k - 1, end as int) =~= seq![p@[k - 1]] + p@.subrange(k as int, end as int));
        k = k - 1;
    }
    if k > 0 {
        assert(p@.take(k as int).last() == 47u8);
    }
    assert(after_last_slash(p@.take(k as int)) =~= Seq::<u8>::empty());
    assert(Seq::<u8>::empty() + p@.subrange(k as int, end as int) =~= p@.subrange(k as int, end as int));
    k
}

/// The byte range of the final component of a path (`Path::file_name`).
pub fn file_name_range(p: &[u8]) -> (r: Option<(usize, usize)>)
    ensures
        match r {
            Some((a, b)) => a <= b <= p@.len() && file_name_bytes(p@) == Some(p@.subrange(a as int, b as int)),
            None => file_name_bytes(p@) is None,
        },
{
    let mut end: usize = p.len();
    assert(p@.take(end as int) =~= p@);
    loop
        invariant
            end <= p@.len(),
            file_name_bytes(p@) == file_name_bytes(p@.take(end as int)),
        decreases end,
    {
        if end == 0 {
            assert(p@.take(0) =~= Seq::<u8>::empty());
            return None;
        }
        assert(p@.take(end as int).drop_last() =~= p@.take(end - 1));
        if p[end - 1] == 47u8 {
            end = end - 1;
        } else {
            let k = component_start(p, end);
            let ghost c = p@.subrange(k as int, end as int);
            if end - k == 1 && p[k] == 46u8 {
                assert(c =~= seq![46u8]);
                end = end - 1;
            } else if end - k == 2 && p[k] == 46u8 && p[k + 1] == 46u8 {
                assert(c =~= seq![46u8, 46u8]);
                return None;
            } else {
                assert(c != seq![46u8]) by {
                    if c == seq![46u8] {
                        assert(c.len() == 1 && c[0] == 46u8);
                    }
                }
                assert(c != seq![46u8, 46u8]) by {
                    if c == seq![46u8, 46u8] {
                        assert(c.len() == 2 && c[0] == 46u8 && c[1] == 46u8);
                    }
                }
                return Some((k, end));
            }
        }
    }
}

/// The final component of a path as text (`Path::file_name` and `to_str`).
pub fn path_file_name_exec(p: &[u8]) -> (r: Option<Vec<char>>)
    ensures
        match r {
            Some(v) => path_file_name(p@) == Some(v@),
            None => path_file_name(p@) is None,
        },
{
    match file_name_range(p) {
        Some((a, b)) => {
            let mut c: Vec<u8> = Vec::new();
            let mut i: usize = a;
            while i < b
                invariant
                    a <= i <= b <= p@.len(),
                    c@ == p@.subrange(a as int, i as int),
                decreases b - i,
            {
                c.push(p[i]);
                i = i + 1;
                assert(c@ =~= p@.subrange(a as int, i as int));
            }
            utf8_text_checked(c.as_slice())
        },
        None => None,
    }
}

// ─────────────────────────────────── zip ───────────────────────────────────

/// The entries of a zip archive as `zip::ZipArchive` lists them: each
/// entry's in-archive name and whether it is a regular file, up to the first
/// entry that cannot be read, and whether every entry could be read; `None`
/// when the data is not a zip archive.
pub uninterp spec fn zip_entries(data: Seq<u8>) -> Option<(Seq<(Seq<char>, bool)>, bool)>;

/// The decompressed contents of entry `index` of a zip archive, or `None`
/// when it cannot be read.
pub uninterp spec fn zip_entry_contents(data: Seq<u8>, index: nat) -> Option<Seq<u8>>;

pub open spec fn zip_index_view(r: Option<(Vec<(String, bool)>, bool)>) -> Option<
    (Seq<(Seq<char>, bool)>, bool),
> {
    match r {
        Some((v, complete)) => Some((v@.map_values(|e: (String, bool)| (e.0@, e.1)), complete)),
        None => None,
    }
}

/// Lists a zip archive with `zip::ZipArchive::new`, `len`, `by_index`,
/// `ZipFile::name` and `ZipFile::is_file`. The result is named by
/// `zip_entries`; nothing more is stated of it.
#[verifier::external_body]
fn zip_index(data: &[u8]) -> (r: Option<(Vec<(String, bool)>, bool)>)
    ensures
        zip_index_view(r) == zip_entries(data@),
{
    let mut archive = zip::ZipArchive::new(std::io::Cursor::new(data)).ok()?;
    let mut out = Vec::new();
    for i in 0..archive.len() {
        match archive.by_index(i) {
            Ok(e) => out.push((e.name().to_string(), e.is_file())),
            Err(_) => return Some((out, false)),
        }
    }
    Some((out, true))
}

/// Reads entry `index` of a zip archive with `zip::ZipArchive::by_index` and
/// `read_to_end`. The result is named by `zip_entry_contents`.
#[verifier::external_body]
fn zip_entry_bytes(data: &[u8], index: usize) -> (r: Option<Vec<u8>>)
    ensures
        match r {
            Some(b) => zip_entry_contents(data@, index as nat) == Some(b@),
            None => zip_entry_contents(data@, index as nat) is None,
        },
{
    let mut archive = zip::ZipArchive::new(std::io::Cursor::new(data)).ok()?;
    let mut entry = archive.by_index(index).ok()?;
    let mut out = Vec::new();
    std::io::Read::read_to_end(&mut entry, &mut out).ok()?;
    Some(out)
}

/// Whether a zip entry is the wanted file: its final component (as
/// `Path::file_name` reads the name), or its whole in-archive path, ends with
/// `wanted`.
pub open spec fn zip_name_matches(name: Seq<char>, wanted: Seq<char>) -> bool {
    let in_file_name = match path_file_name(encode_utf8(name)) {
        Some(f) => ends_with(f, wanted),
        None => false,
    };
    in_file_name || ends_with(name, wanted)
}

/// The first regular-file entry, from `i` on, that is the wanted file.
pub open spec fn first_zip_match(es: Seq<(Seq<char>, bool)>, wanted: Seq<char>, i: int) -> Option<int>
    decreases es.len() - i,
{
    if i < 0 || i >= es.len() {
        None
    } else if es[i].1 && zip_name_matches(es[i].0, wanted) {
        Some(i)
    } else {
        first_zip_match(es, wanted, i + 1)
    }
}

/// What extracting `wanted` from zip data gives.
pub open spec fn zip_extract_spec(data: Seq<u8>, wanted: Seq<char>) -> Result<Seq<u8>, ArchiveError> {
    match zip_entries(data) {
        None => Err(ArchiveError::Unreadable),
        Some((es, complete)) => match first_zip_match(es, wanted, 0) {
            Some(i) => match zip_entry_contents(data, i as nat) {
                Some(b) => Ok(b),
                None => Err(ArchiveError::EntryUnreadable),
            },
            None => if complete {
                Err(ArchiveError::NotFound)
            } else {
                Err(ArchiveError::EntryUnreadable)
            },
        },
    }
}

pub open spec fn bytes_result_view(r: Result<Vec<u8>, ArchiveError>) -> Result<Seq<u8>, ArchiveError> {
    match r {
        Ok(b) => Ok(b@),
        Err(e) => Err(e),
    }
}

fn zip_name_matches_exec(name: &str, wanted: &[char]) -> (b: bool)
    ensures
        b == zip_name_matches(name@, wanted@),
{
    let nv = chars_of(name);
    let nb = name.as_bytes();
    let in_file_name = match path_file_name_exec(nb) {
        Some(f) => ends_with_exec(&f, wanted),
        None => false,
    };
    in_file_name || ends_with_exec(&nv, wanted)
}

pub open spec fn zip_listing_view(v: Seq<(String, bool)>) -> Seq<(Seq<char>, bool)> {
    v.map_values(|e: (String, bool)| (e.0@, e.1))
}

/// The index of the first regular file in a zip listing whose name ends with
/// `wanted` (final component or whole path).
pub fn pick_zip_entry(entries: &Vec<(String, bool)>, wanted: &str) -> (r: Option<usize>)
    ensures
        match r {
            Some(i) => first_zip_match(zip_listing_view(entries@), wanted@, 0) == Some(i as int),
            None => first_zip_match(zip_listing_view(entries@), wanted@, 0) is None,
        },
{
    let ghost es = zip_listing_view(entries@);
    let w = chars_of(wanted);
    let mut i: usize = 0;
    while i < entries.len()
        invariant
            i <= entries@.len(),
            es == zip_listing_view(entries@),
            w@ == wanted@,
            first_zip_match(es, wanted@, 0) == first_zip_match(es, wanted@, i as int),
        decreases entries@.len() - i,
    {
        assert(es[i as int] == (entries@[i as int].0@, entries@[i as int].1));
        if entries[i].1 && zip_name_matches_exec(entries[i].0.as_str(), &w) {
            return Some(i);
        }
        i = i + 1;
    }
    None
}

/// Extract the first regular file whose name ends with `wanted` from a zip
/// archive in memory. Archives nest files in versioned directories, so the
/// match is on the end of the name.
pub fn extract_named_from_zip(bytes: &[u8], wanted: &str) -> (r: Result<Vec<u8>, ArchiveError>)
    ensures
        bytes_result_view(r) == zip_extract_spec(bytes@, wanted@),
{
    let (entries, complete) = match zip_index(bytes) {
        Some(x) => x,
        None => {
            return Err(ArchiveError::Unreadable);
        },
    };
    assert(zip_listing_view(entries@) =~= entries@.map_values(|e: (String, bool)| (e.0@, e.1)));
    match pick_zip_entry(&entries, wanted) {
        Some(i) => match zip_entry_bytes(bytes, i) {
            Some(b) => Ok(b),
            None => Err(ArchiveError::EntryUnreadable),
        },
        None => if complete {
            Err(ArchiveError::NotFound)
        } else {
            Err(ArchiveError::EntryUnreadable)
        },
    }
}

// ───────────────────────────────── tar.gz ─────────────────────────────────

/// One entry of a tar archive: the bytes of its path, the size in its header
/// (zero when unreadable), and its contents.
pub struct TarEntry {
    pub path: Vec<u8>,
    pub size: u64,
    pub data: Vec<u8>,
}

pub open spec fn tar_entry_view(e: TarEntry) -> (Seq<u8>, u64, Seq<u8>) {
    (e.path@, e.size, e.data@)
}

/// The entries of a gzip-compressed tar archive, as `flate2::read::GzDecoder`
/// and `tar::Archive::entries` give them, up to the first that cannot be
/// read, and whether every entry could be read.
pub uninterp spec fn tar_gz_entries(data: Seq<u8>) -> (Seq<(Seq<u8>, u64, Seq<u8>)>, bool);

/// Reads every entry of a `.tar.gz` with `flate2::read::GzDecoder`,
/// `tar::Archive::entries`, `Entry::path_bytes`, `Header::size` and
/// `read_to_end`.
/// The result is named by `tar_gz_entries`; nothing more is stated of it.
#[verifier::external_body]
fn read_tar_gz(data: &[u8]) -> (r: (Vec<TarEntry>, bool))
    ensures
        (r.0@.map_values(|e: TarEntry| tar_entry_view(e)), r.1) == tar_gz_entries(data@),
{
    let mut archive = tar::Archive::new(flate2::read::GzDecoder::new(data));
    let mut out = Vec::new();
    let Ok(entries) = archive.entries() else { return (out, false) };
    for entry in entries {
        let Ok(mut e) = entry else { return (out, false) };
        let size = e.header().size().unwrap_or(0);
        let p = e.path_bytes().into_owned();
        let mut data = Vec::new();
        let Ok(_) = std::io::Read::read_to_end(&mut e, &mut data) else { return (out, false) };
        out.push(TarEntry { path: p, size, data });
    }
    (out, true)
}

/// The final component of a tar entry's path as text; empty when it has
/// none or it is not UTF-8.
pub open spec fn tar_base(p: Seq<u8>) -> Seq<char> {
    match path_file_name(p) {
        Some(s) => s,
        None => seq![],
    }
}

/// Which tar entries are wanted: the binary (final component equal to the
/// name), or a runtime library (final component starting with the name, and
/// data in the header).
#[derive(Debug, Clone, Copy, PartialEq, Eq, Structural)]
pub enum TarPick {
    Exact,
    LibraryPrefix,
}

pub open spec fn tar_matches(pick: TarPick, e: (Seq<u8>, u64, Seq<u8>), name: Seq<char>) -> bool {
    match pick {
        TarPick::Exact => path_file_name(e.0) == Some(name),
        TarPick::LibraryPrefix => starts_with(tar_base(e.0), name) && e.1 > 0,
    }
}

pub open spec fn first_tar_match(
    es: Seq<(Seq<u8>, u64, Seq<u8>)>,
    pick: TarPick,
    name: Seq<char>,
    i: int,
) -> Option<int>
    decreases es.len() - i,
{
    if i < 0 || i >= es.len() {
        None
    } else if tar_matches(pick, es[i], name) {
        Some(i)
    } else {
        first_tar_match(es, pick, name, i + 1)
    }
}

/// What picking `name` from `.tar.gz` data gives.
pub open spec fn tar_extract_spec(data: Seq<u8>, pick: TarPick, name: Seq<char>) -> Result<
    Seq<u8>,
    ArchiveError,
> {
    let (es, complete) = tar_gz_entries(data);
    match first_tar_match(es, pick, name, 0) {
        Some(i) => Ok(es[i].2),
        None => if complete {
            Err(ArchiveError::NotFound)
        } else {
            Err(ArchiveError::EntryUnreadable)
        },
    }
}

pub open spec fn tar_listing_view(v: Seq<TarEntry>) -> Seq<(Seq<u8>, u64, Seq<u8>)> {
    v.map_values(|e: TarEntry| tar_entry_view(e))
}

/// The index of the first wanted entry of a tar listing.
pub fn pick_tar_entry(entries: &Vec<TarEntry>, pick: TarPick, name: &str) -> (r: Option<usize>)
    ensures
        match r {
            Some(i) => first_tar_match(tar_listing_view(entries@), pick, name@, 0) == Some(i as int)
                && i < entries@.len(),
            None => first_tar_match(tar_listing_view(entries@), pick, name@, 0) is None,
        },
{
    let ghost es = tar_listing_view(entries@);
    let nv = chars_of(name);
    let mut i: usize = 0;
    while i < entries.len()
        invariant
            i <= entries@.len(),
            es == tar_listing_view(entries@),
            nv@ == name@,
            first_tar_match(es, pick, name@, 0) == first_tar_match(es, pick, name@, i as int),
        decreases entries@.len() - i,
    {
        assert(es[i as int] == tar_entry_view(entries@[i as int]));
        let file_name = path_file_name_exec(entries[i].path.as_slice());
        let hit = match pick {
            TarPick::Exact => match &file_name {
                Some(f) => crate::text::same_chars(f, &nv),
                None => false,
            },
            TarPick::LibraryPrefix => {
                let base: Vec<char> = match file_name {
                    Some(f) => f,
                    None => Vec::new(),
                };
                assert(base@ == tar_base(es[i as int].0));
                starts_with_exec(&base, &nv) && entries[i].size > 0
            },
        };
        if hit {
            return Some(i);
        }
        i = i + 1;
    }
    None
}

/// The contents of the first wanted entry of a `.tar.gz` in memory.
pub fn extract_from_tar_gz(bytes: &[u8], pick: TarPick, name: &str) -> (r: Result<Vec<u8>, ArchiveError>)
    ensures
        bytes_result_view(r) == tar_extract_spec(bytes@, pick, name@),
{
    let (entries, complete) = read_tar_gz(bytes);
    assert(tar_listing_view(entries@) =~= entries@.map_values(|e: TarEntry| tar_entry_view(e)));
    match pick_tar_entry(&entries, pick, name) {
        Some(i) => {
            let mut out: Vec<u8> = Vec::new();
            let mut j: usize = 0;
            while j < entries[i].data.len()
                invariant
                    i < entries@.len(),
                    j <= entries@[i as int].data@.len(),
                    out@ == entries@[i as int].data@.take(j as int),
                decreases entries@[i as int].data@.len() - j,
            {
                out.push(entries[i].data[j]);
                j = j + 1;
                assert(out@ =~= entries@[i as int].data@.take(j as int));
            }
            assert(entries@[i as int].data@.take(j as int) =~= entries@[i as int].data@);
            assert(tar_listing_view(entries@)[i as int] == tar_entry_view(entries@[i as int]));
            Ok(out)
        },
        None => if complete {
            Err(ArchiveError::NotFound)
        } else {
            Err(ArchiveError::EntryUnreadable)
        },
    }
}

/// The file name of the program inside its release archive.
pub fn binary_name(windows: bool) -> (r: &'static str)
    ensures
        r@ == (if windows {
            "recall.exe"@
        } else {
            "recall"@
        }),
{
    if windows {
        "recall.exe"
    } else {
        "recall"
    }
}

/// Extract the program from a release `.tar.gz`.
pub fn extract_binary(archive: &[u8], windows: bool) -> (r: Result<Vec<u8>, ArchiveError>)
    ensures
        bytes_result_view(r) == tar_extract_spec(
            archive@,
            TarPick::Exact,
            if windows {
                "recall.exe"@
            } else {
                "recall"@
            },
        ),
{
    extract_from_tar_gz(archive, TarPick::Exact, binary_name(windows))
}

/// Whether a runtime download is a `.zip` (otherwise a `.tar.gz`).
pub fn is_zip_url(url: &str) -> (b: bool)
    ensures
        b == ends_with(url@, ".zip"@),
{
    let v = chars_of(url);
    let s = chars_of(".zip");
    ends_with_exec(&v, &s)
}

} // verus!
