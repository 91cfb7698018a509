//! Archives, told by their names.

use crate::paths::{chars_extension, chars_file_name, extension_of, file_name_of};
use crate::text::{chars_end_with, chars_eq, chars_slice, ends_with, to_chars};
use vstd::prelude::*;

verus! {

/// The formats of archive that can be unpacked.
#[derive(Debug, Clone, Copy, PartialEq, Eq)]
pub enum ArchiveKind {
    Zip,
    TarGz,
    Tar,
}

/// The extension of a path, or the empty text where it has none.
pub open spec fn extension_or_empty(path: Seq<char>) -> Seq<char> {
    match extension_of(path) {
        Some(ext) => ext,
        None => Seq::empty(),
    }
}

/// The file name of a path, or the empty text where it has none.
pub open spec fn name_or_empty(path: Seq<char>) -> Seq<char> {
    match file_name_of(path) {
        Some(name) => name,
        None => Seq::empty(),
    }
}

/// Whether a path names an archive: its extension is `zip`, `tar`, `gz` or
/// `tgz`, or its name ends in `.tar.gz`.
pub open spec fn names_archive(path: Seq<char>) -> bool {
    let ext = extension_or_empty(path);
    ext == "zip"@ || ext == "tar"@ || ext == "gz"@ || ext == "tgz"@ || ends_with(
        name_or_empty(path),
        ".tar.gz"@,
    )
}

/// The format in which a path is unpacked: by its extension `zip`; else
/// gzipped tar for `tgz` or a name that ends in `.tar.gz`; else `tar`; else
/// gzipped tar for `gz`; else none.
pub open spec fn kind_of(path: Seq<char>) -> Option<ArchiveKind> {
    let ext = extension_or_empty(path);
    if ext == "zip"@ {
        Some(ArchiveKind::Zip)
    } else if ext == "tgz"@ || ends_with(name_or_empty(path), ".tar.gz"@) {
        Some(ArchiveKind::TarGz)
    } else if ext == "tar"@ {
        Some(ArchiveKind::Tar)
    } else if ext == "gz"@ {
        Some(ArchiveKind::TarGz)
    } else {
        None
    }
}

fn is_text(chars: &[char], text: &str) -> (r: bool)
    ensures
        r == (chars@ == text@),
{
    let other = to_chars(text);
    chars_eq(chars, other.as_slice())
}

fn extension_chars(p: &[char]) -> (r: Vec<char>)
    ensures
        r@ == extension_or_empty(p@),
{
    match chars_extension(p) {
        Some((start, end)) => chars_slice(p, start, end),
        None => Vec::new(),
    }
}

fn name_chars(p: &[char]) -> (r: Vec<char>)
    ensures
        r@ == name_or_empty(p@),
{
    match chars_file_name(p) {
        Some((start, end)) => chars_slice(p, start, end),
        None => Vec::new(),
    }
}

/// Whether a path names an archive.
pub fn is_archive(path: &str) -> (r: bool)
    ensures
        r == names_archive(path@),
{
    let p = to_chars(path);
    let ext = extension_chars(p.as_slice());
    let name = name_chars(p.as_slice());
    let suffix = to_chars(".tar.gz");
    is_text(ext.as_slice(), "zip") || is_text(ext.as_slice(), "tar") || is_text(
        ext.as_slice(),
        "gz",
    ) || is_text(ext.as_slice(), "tgz") || chars_end_with(name.as_slice(), suffix.as_slice())
}

/// The format in which a path is unpacked, if it names an archive.
pub fn archive_kind(path: &str) -> (r: Option<ArchiveKind>)
    ensures
        r == kind_of(path@),
        r is Some == names_archive(path@),
{
    let p = to_chars(path);
    let ext = extension_chars(p.as_slice());
    let name = name_chars(p.as_slice());
    let suffix = to_chars(".tar.gz");
    if is_text(ext.as_slice(), "zip") {
        Some(ArchiveKind::Zip)
    } else if is_text(ext.as_slice(), "tgz") || chars_end_with(name.as_slice(), suffix.as_slice()) {
        Some(ArchiveKind::TarGz)
    } else if is_text(ext.as_slice(), "tar") {
        Some(ArchiveKind::Tar)
    } else if is_text(ext.as_slice(), "gz") {
        Some(ArchiveKind::TarGz)
    } else {
        None
    }
}

} // verus!
