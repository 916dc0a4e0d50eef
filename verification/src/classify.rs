//! The classification and scoring engine: an ordered rule cascade that
//! assigns every filesystem entry a category and a 0-100 usefulness score.
//!
//! The cascade is first-match-wins. The protection rule has the highest
//! precedence, so a protected entry is never claimed by a later rule, no
//! matter its extension or size.

use vstd::prelude::*;

use crate::text::{
    contains_ci, eq_ci, ends_with_ci, ext_is, ext_matches, ext_of, file_name_of, file_name_eq_ci,
    file_name_starts_with_ci, lower, starts_with_ci, str_contains_ci, str_ends_with_ci, str_eq_ci,
    str_starts_with_ci,
};

verus! {

/// How much an entry is worth keeping.
#[derive(Clone, Copy, PartialEq, Eq, Structural, Debug)]
pub enum FileCategory {
    /// Critical system files and locations that must never be deleted.
    MustKeep,
    /// System files that should generally be kept.
    System,
    /// Normal files.
    Regular,
    /// Temporary data, caches, logs: safe to delete.
    Useless,
    /// Could not be determined.
    Unknown,
}

/// Rule 1: protected system locations, judged by name alone.
pub open spec fn spec_protected_name(name: Seq<char>) -> bool {
    ||| starts_with_ci(name, "$"@)
    ||| eq_ci(name, "system volume information"@)
    ||| eq_ci(name, "recovery"@)
    ||| eq_ci(name, "boot"@)
    ||| eq_ci(name, "bootmgr"@)
    ||| eq_ci(name, "pagefile.sys"@)
    ||| eq_ci(name, "hiberfil.sys"@)
}

/// Rule 1 for the classification cascade: protected locations, judged by
/// path and name.
pub open spec fn spec_rule_protected(path: Seq<char>, name: Seq<char>) -> bool {
    ||| contains_ci(path, "windows\\system32"@)
    ||| contains_ci(path, "windows\\syswow64"@)
    ||| contains_ci(path, "program files"@)
    ||| contains_ci(path, "programdata"@)
    ||| eq_ci(name, "windows"@)
    ||| eq_ci(name, "boot"@)
    ||| eq_ci(name, "bootmgr"@)
    ||| eq_ci(name, "pagefile.sys"@)
    ||| eq_ci(name, "hiberfil.sys"@)
    ||| eq_ci(name, "$recycle.bin"@)
    ||| eq_ci(name, "system volume information"@)
    ||| eq_ci(name, "recovery"@)
    ||| starts_with_ci(name, "$"@)
}

/// Rule 2: transient data markers (temp, cache, logs, lock files).
pub open spec fn spec_rule_disposable(path: Seq<char>, name: Seq<char>) -> bool {
    ||| contains_ci(name, "temp"@)
    ||| contains_ci(name, "cache"@)
    ||| contains_ci(name, "tmp"@)
    ||| ends_with_ci(name, ".tmp"@)
    ||| ends_with_ci(name, ".log"@)
    ||| contains_ci(path, "\\temp\\"@)
    ||| contains_ci(path, "\\cache\\"@)
    ||| contains_ci(path, "\\tmp\\"@)
    ||| starts_with_ci(name, "~$"@)
}

/// Rule 3: operating-system binary and support extensions.
pub open spec fn spec_rule_system(path: Seq<char>, name: Seq<char>) -> bool {
    ||| ends_with_ci(name, ".sys"@)
    ||| ends_with_ci(name, ".dll"@)
    ||| (ends_with_ci(name, ".exe"@) && contains_ci(path, "windows"@))
    ||| ends_with_ci(name, ".inf"@)
    ||| ends_with_ci(name, ".cat"@)
}

/// Office and document formats.
pub open spec fn spec_ext_document(path: Seq<char>) -> bool {
    ||| ext_is(path, "doc"@)
    ||| ext_is(path, "docx"@)
    ||| ext_is(path, "xls"@)
    ||| ext_is(path, "xlsx"@)
    ||| ext_is(path, "ppt"@)
    ||| ext_is(path, "pptx"@)
    ||| ext_is(path, "pdf"@)
    ||| ext_is(path, "txt"@)
    ||| ext_is(path, "md"@)
    ||| ext_is(path, "rtf"@)
    ||| ext_is(path, "odt"@)
    ||| ext_is(path, "ods"@)
    ||| ext_is(path, "odp"@)
}

/// Photo formats.
pub open spec fn spec_ext_photo(path: Seq<char>) -> bool {
    ||| ext_is(path, "jpg"@)
    ||| ext_is(path, "jpeg"@)
    ||| ext_is(path, "png"@)
    ||| ext_is(path, "gif"@)
    ||| ext_is(path, "bmp"@)
    ||| ext_is(path, "webp"@)
    ||| ext_is(path, "raw"@)
    ||| ext_is(path, "cr2"@)
    ||| ext_is(path, "nef"@)
    ||| ext_is(path, "arw"@)
}

/// Video formats.
pub open spec fn spec_ext_video(path: Seq<char>) -> bool {
    ||| ext_is(path, "mp4"@)
    ||| ext_is(path, "avi"@)
    ||| ext_is(path, "mkv"@)
    ||| ext_is(path, "mov"@)
    ||| ext_is(path, "wmv"@)
    ||| ext_is(path, "flv"@)
    ||| ext_is(path, "webm"@)
    ||| ext_is(path, "m4v"@)
}

/// Audio formats.
pub open spec fn spec_ext_audio(path: Seq<char>) -> bool {
    ||| ext_is(path, "mp3"@)
    ||| ext_is(path, "wav"@)
    ||| ext_is(path, "flac"@)
    ||| ext_is(path, "ogg"@)
    ||| ext_is(path, "aac"@)
    ||| ext_is(path, "m4a"@)
    ||| ext_is(path, "wma"@)
}

/// Source-code and configuration formats.
pub open spec fn spec_ext_code(path: Seq<char>) -> bool {
    ||| ext_is(path, "rs"@)
    ||| ext_is(path, "py"@)
    ||| ext_is(path, "js"@)
    ||| ext_is(path, "ts"@)
    ||| ext_is(path, "java"@)
    ||| ext_is(path, "c"@)
    ||| ext_is(path, "cpp"@)
    ||| ext_is(path, "h"@)
    ||| ext_is(path, "cs"@)
    ||| ext_is(path, "go"@)
    ||| ext_is(path, "html"@)
    ||| ext_is(path, "css"@)
    ||| ext_is(path, "json"@)
    ||| ext_is(path, "xml"@)
    ||| ext_is(path, "yaml"@)
    ||| ext_is(path, "toml"@)
    ||| ext_is(path, "sql"@)
}

/// Archive formats.
pub open spec fn spec_ext_archive(path: Seq<char>) -> bool {
    ||| ext_is(path, "zip"@)
    ||| ext_is(path, "rar"@)
    ||| ext_is(path, "7z"@)
    ||| ext_is(path, "tar"@)
    ||| ext_is(path, "gz"@)
    ||| ext_is(path, "bz2"@)
}

/// Disk-image formats.
pub open spec fn spec_ext_disk_image(path: Seq<char>) -> bool {
    ||| ext_is(path, "iso"@)
    ||| ext_is(path, "dmg"@)
    ||| ext_is(path, "img"@)
}

/// Installer and script formats.
pub open spec fn spec_ext_installer(path: Seq<char>) -> bool {
    ||| ext_is(path, "exe"@)
    ||| ext_is(path, "msi"@)
    ||| ext_is(path, "bat"@)
    ||| ext_is(path, "cmd"@)
    ||| ext_is(path, "ps1"@)
}

/// Backup-named files.
pub open spec fn spec_rule_backup(name: Seq<char>) -> bool {
    ||| ends_with_ci(name, ".bak"@)
    ||| ends_with_ci(name, ".old"@)
    ||| contains_ci(name, "backup"@)
}

/// Video usefulness: large videos are statistically more expendable.
pub open spec fn spec_video_score(size: u64) -> u32 {
    if size > 1_000_000_000 {
        70
    } else {
        85
    }
}

/// Archive usefulness, graded by size: bigger archives are more likely
/// post-extraction junk.
pub open spec fn spec_archive_score(size: u64) -> u32 {
    if size > 1_000_000_000 {
        30
    } else if size > 100_000_000 {
        45
    } else {
        55
    }
}

/// Directory usefulness, by folder name.
pub open spec fn spec_dir_score(name: Seq<char>) -> u32 {
    if eq_ci(name, "node_modules"@) || eq_ci(name, "target"@) || eq_ci(name, "build"@) || eq_ci(
        name,
        "dist"@,
    ) || eq_ci(name, ".git"@) {
        30
    } else if eq_ci(name, "documents"@) || eq_ci(name, "pictures"@) || eq_ci(name, "music"@)
        || eq_ci(name, "videos"@) {
        95
    } else if eq_ci(name, "downloads"@) {
        50
    } else {
        65
    }
}

/// Fallback usefulness for unmatched files, graded by size.
pub open spec fn spec_fallback_score(size: u64) -> u32 {
    if size > 500_000_000 {
        45
    } else if size > 100_000_000 {
        55
    } else {
        60
    }
}

/// The whole ordered cascade: the first matching rule decides, later rules
/// are not consulted.
pub open spec fn spec_categorize(path: Seq<char>, name: Seq<char>, is_dir: bool, size: u64) -> (
    FileCategory,
    u32,
) {
    if spec_rule_protected(path, name) {
        (FileCategory::MustKeep, 100u32)
    } else if spec_rule_disposable(path, name) {
        (FileCategory::Useless, 5u32)
    } else if spec_rule_system(path, name) {
        (FileCategory::System, 85u32)
    } else if spec_ext_document(path) {
        (FileCategory::Regular, 90u32)
    } else if spec_ext_photo(path) {
        (FileCategory::Regular, 95u32)
    } else if spec_ext_video(path) {
        (FileCategory::Regular, spec_video_score(size))
    } else if spec_ext_audio(path) {
        (FileCategory::Regular, 80u32)
    } else if spec_ext_code(path) {
        (FileCategory::Regular, 85u32)
    } else if spec_ext_archive(path) {
        (FileCategory::Regular, spec_archive_score(size))
    } else if spec_ext_disk_image(path) {
        (FileCategory::Regular, 25u32)
    } else if spec_ext_installer(path) {
        (FileCategory::Regular, if contains_ci(path, "downloads"@) {
            35u32
        } else {
            60u32
        })
    } else if spec_rule_backup(name) {
        (FileCategory::Regular, 40u32)
    } else if is_dir {
        (FileCategory::Regular, spec_dir_score(name))
    } else {
        (FileCategory::Regular, spec_fallback_score(size))
    }
}

/// Categorize one filesystem entry from its path, name, kind and size.
/// Total: every entry gets exactly one category and score, and identical
/// inputs always yield the identical result.
pub fn categorize_file(path: &str, name: &str, is_dir: bool, size: u64) -> (r: (FileCategory, u32))
    ensures
        r == spec_categorize(path@, name@, is_dir, size),
{
    if str_contains_ci(path, "windows\\system32") || str_contains_ci(path, "windows\\syswow64")
        || str_contains_ci(path, "program files") || str_contains_ci(path, "programdata")
        || str_eq_ci(name, "windows") || str_eq_ci(name, "boot") || str_eq_ci(name, "bootmgr")
        || str_eq_ci(name, "pagefile.sys") || str_eq_ci(name, "hiberfil.sys") || str_eq_ci(
        name,
        "$recycle.bin",
    ) || str_eq_ci(name, "system volume information") || str_eq_ci(name, "recovery")
        || str_starts_with_ci(name, "$") {
        return (FileCategory::MustKeep, 100);
    }
    if str_contains_ci(name, "temp") || str_contains_ci(name, "cache") || str_contains_ci(
        name,
        "tmp",
    ) || str_ends_with_ci(name, ".tmp") || str_ends_with_ci(name, ".log") || str_contains_ci(
        path,
        "\\temp\\",
    ) || str_contains_ci(path, "\\cache\\") || str_contains_ci(path, "\\tmp\\")
        || str_starts_with_ci(name, "~$") {
        return (FileCategory::Useless, 5);
    }
    if str_ends_with_ci(name, ".sys") || str_ends_with_ci(name, ".dll") || (str_ends_with_ci(
        name,
        ".exe",
    ) && str_contains_ci(path, "windows")) || str_ends_with_ci(name, ".inf") || str_ends_with_ci(
        name,
        ".cat",
    ) {
        return (FileCategory::System, 85);
    }
    if ext_matches(path, "doc") || ext_matches(path, "docx") || ext_matches(path, "xls")
        || ext_matches(path, "xlsx") || ext_matches(path, "ppt") || ext_matches(path, "pptx")
        || ext_matches(path, "pdf") || ext_matches(path, "txt") || ext_matches(path, "md")
        || ext_matches(path, "rtf") || ext_matches(path, "odt") || ext_matches(path, "ods")
        || ext_matches(path, "odp") {
        return (FileCategory::Regular, 90);
    }
    if ext_matches(path, "jpg") || ext_matches(path, "jpeg") || ext_matches(path, "png")
        || ext_matches(path, "gif") || ext_matches(path, "bmp") || ext_matches(path, "webp")
        || ext_matches(path, "raw") || ext_matches(path, "cr2") || ext_matches(path, "nef")
        || ext_matches(path, "arw") {
        return (FileCategory::Regular, 95);
    }
    if ext_matches(path, "mp4") || ext_matches(path, "avi") || ext_matches(path, "mkv")
        || ext_matches(path, "mov") || ext_matches(path, "wmv") || ext_matches(path, "flv")
        || ext_matches(path, "webm") || ext_matches(path, "m4v") {
        let score: u32 = if size > 1_000_000_000 {
            70
        } else {
            85
        };
        return (FileCategory::Regular, score);
    }
    if ext_matches(path, "mp3") || ext_matches(path, "wav") || ext_matches(path, "flac")
        || ext_matches(path, "ogg") || ext_matches(path, "aac") || ext_matches(path, "m4a")
        || ext_matches(path, "wma") {
        return (FileCategory::Regular, 80);
    }
    if ext_matches(path, "rs") || ext_matches(path, "py") || ext_matches(path, "js")
        || ext_matches(path, "ts") || ext_matches(path, "java") || ext_matches(path, "c")
        || ext_matches(path, "cpp") || ext_matches(path, "h") || ext_matches(path, "cs")
        || ext_matches(path, "go") || ext_matches(path, "html") || ext_matches(path, "css")
        || ext_matches(path, "json") || ext_matches(path, "xml") || ext_matches(path, "yaml")
        || ext_matches(path, "toml") || ext_matches(path, "sql") {
        return (FileCategory::Regular, 85);
    }
    if ext_matches(path, "zip") || ext_matches(path, "rar") || ext_matches(path, "7z")
        || ext_matches(path, "tar") || ext_matches(path, "gz") || ext_matches(path, "bz2") {
        let score: u32 = if size > 1_000_000_000 {
            30
        } else if size > 100_000_000 {
            45
        } else {
            55
        };
        return (FileCategory::Regular, score);
    }
    if ext_matches(path, "iso") || ext_matches(path, "dmg") || ext_matches(path, "img") {
        return (FileCategory::Regular, 25);
    }
    if ext_matches(path, "exe") || ext_matches(path, "msi") || ext_matches(path, "bat")
        || ext_matches(path, "cmd") || ext_matches(path, "ps1") {
        if str_contains_ci(path, "downloads") {
            return (FileCategory::Regular, 35);
        }
        return (FileCategory::Regular, 60);
    }
    if str_ends_with_ci(name, ".bak") || str_ends_with_ci(name, ".old") || str_contains_ci(
        name,
        "backup",
    ) {
        return (FileCategory::Regular, 40);
    }
    if is_dir {
        if str_eq_ci(name, "node_modules") || str_eq_ci(name, "target") || str_eq_ci(name, "build")
            || str_eq_ci(name, "dist") || str_eq_ci(name, ".git") {
            return (FileCategory::Regular, 30);
        }
        if str_eq_ci(name, "documents") || str_eq_ci(name, "pictures") || str_eq_ci(name, "music")
            || str_eq_ci(name, "videos") {
            return (FileCategory::Regular, 95);
        }
        if str_eq_ci(name, "downloads") {
            return (FileCategory::Regular, 50);
        }
        return (FileCategory::Regular, 65);
    }
    let score: u32 = if size > 500_000_000 {
        45
    } else if size > 100_000_000 {
        55
    } else {
        60
    };
    (FileCategory::Regular, score)
}

/// Is this name a protected system location? Judged by name alone.
pub fn is_protected_path(name: &str) -> (r: bool)
    ensures
        r == spec_protected_name(name@),
{
    str_starts_with_ci(name, "$") || str_eq_ci(name, "system volume information") || str_eq_ci(
        name,
        "recovery",
    ) || str_eq_ci(name, "boot") || str_eq_ci(name, "bootmgr") || str_eq_ci(name, "pagefile.sys")
        || str_eq_ci(name, "hiberfil.sys")
}

/// Protected locations, judged by a full path: a protected final component,
/// anything inside the OS installation directory, or the vendor program
/// directories.
pub open spec fn spec_protected_full_path(path: Seq<char>) -> bool {
    ||| spec_protected_name(file_name_of(path))
    ||| contains_ci(path, "\\windows\\"@)
    ||| ends_with_ci(path, "\\windows"@)
    ||| contains_ci(path, "program files"@)
}

/// Is this full path a protected system location?
pub fn is_protected_full_path(path: &str) -> (r: bool)
    ensures
        r == spec_protected_full_path(path@),
{
    file_name_starts_with_ci(path, "$") || file_name_eq_ci(path, "system volume information")
        || file_name_eq_ci(path, "recovery") || file_name_eq_ci(path, "boot") || file_name_eq_ci(
        path,
        "bootmgr",
    ) || file_name_eq_ci(path, "pagefile.sys") || file_name_eq_ci(path, "hiberfil.sys")
        || str_contains_ci(path, "\\windows\\") || str_ends_with_ci(path, "\\windows")
        || str_contains_ci(path, "program files")
}

/// Should entering a folder be blocked? Only a folder known to be empty is.
pub fn should_block_folder_entry(child_count: Option<usize>) -> (r: bool)
    ensures
        r == (child_count == Some(0usize)),
{
    match child_count {
        Some(n) => n == 0,
        None => false,
    }
}

/// Protection has precedence over every other rule: a protected entry is
/// always `MustKeep` with score 100, regardless of its extension or size.
pub proof fn lemma_protected_overrides_all(
    path: Seq<char>,
    name: Seq<char>,
    is_dir: bool,
    size: u64,
)
    requires
        spec_rule_protected(path, name),
    ensures
        spec_categorize(path, name, is_dir, size) == (FileCategory::MustKeep, 100u32),
{
}

/// A disposable-patterned entry that is not protected is always `Useless`
/// with score 5.
pub proof fn lemma_disposable_scores_five(
    path: Seq<char>,
    name: Seq<char>,
    is_dir: bool,
    size: u64,
)
    requires
        spec_rule_disposable(path, name),
        !spec_rule_protected(path, name),
    ensures
        spec_categorize(path, name, is_dir, size) == (FileCategory::Useless, 5u32),
{
}

/// An extension that matches `lit` agrees with `lit` on every folded
/// character, and has its length.
proof fn lemma_ext_char(path: Seq<char>, lit: Seq<char>, j: int)
    requires
        ext_is(path, lit),
        0 <= j < lit.len(),
    ensures
        lower(ext_of(path)[j]) == lower(lit[j]),
        ext_of(path).len() == lit.len(),
{
    assert(lower(ext_of(path)[0 + j]) == lower(lit[j]));
}

/// A video file scores 85 when at most 1 GB and 70 above, all else equal:
/// whenever none of the earlier rules (protection, disposable markers,
/// system extensions) claims the entry, its size alone decides between the
/// two video scores. No document or photo extension can also be a video
/// extension, so those rules need not be excluded by hand.
pub proof fn lemma_video_usefulness(path: Seq<char>, name: Seq<char>, is_dir: bool, size: u64)
    requires
        spec_ext_video(path),
        !spec_rule_protected(path, name),
        !spec_rule_disposable(path, name),
        !spec_rule_system(path, name),
    ensures
        spec_categorize(path, name, is_dir, size).0 == FileCategory::Regular,
        size <= 1_000_000_000 ==> spec_categorize(path, name, is_dir, size).1 == 85,
        size > 1_000_000_000 ==> spec_categorize(path, name, is_dir, size).1 == 70,
{
    let e = ext_of(path);
    reveal_strlit("mp4");
    reveal_strlit("avi");
    reveal_strlit("mkv");
    reveal_strlit("mov");
    reveal_strlit("wmv");
    reveal_strlit("flv");
    reveal_strlit("webm");
    reveal_strlit("m4v");
    assert((e.len() == 3 && (lower(e[0]) == 109 || (lower(e[0]) == 97 && lower(e[1]) == 118)
        || lower(e[0]) == 119 || lower(e[0]) == 102)) || (e.len() == 4 && lower(e[0]) == 119
        && lower(e[3]) == 109)) by {
        if ext_is(path, "mp4"@) {
            lemma_ext_char(path, "mp4"@, 0);
        } else if ext_is(path, "avi"@) {
            lemma_ext_char(path, "avi"@, 0);
            lemma_ext_char(path, "avi"@, 1);
        } else if ext_is(path, "mkv"@) {
            lemma_ext_char(path, "mkv"@, 0);
        } else if ext_is(path, "mov"@) {
            lemma_ext_char(path, "mov"@, 0);
        } else if ext_is(path, "wmv"@) {
            lemma_ext_char(path, "wmv"@, 0);
        } else if ext_is(path, "flv"@) {
            lemma_ext_char(path, "flv"@, 0);
        } else if ext_is(path, "webm"@) {
            lemma_ext_char(path, "webm"@, 0);
            lemma_ext_char(path, "webm"@, 3);
        } else {
            lemma_ext_char(path, "m4v"@, 0);
        }
    }
    assert(!spec_ext_document(path)) by {
        reveal_strlit("doc");
        reveal_strlit("docx");
        reveal_strlit("xls");
        reveal_strlit("xlsx");
        reveal_strlit("ppt");
        reveal_strlit("pptx");
        reveal_strlit("pdf");
        reveal_strlit("txt");
        reveal_strlit("md");
        reveal_strlit("rtf");
        reveal_strlit("odt");
        reveal_strlit("ods");
        reveal_strlit("odp");
        if ext_is(path, "doc"@) {
            lemma_ext_char(path, "doc"@, 0);
        } else if ext_is(path, "docx"@) {
            lemma_ext_char(path, "docx"@, 0);
        } else if ext_is(path, "xls"@) {
            lemma_ext_char(path, "xls"@, 0);
        } else if ext_is(path, "xlsx"@) {
            lemma_ext_char(path, "xlsx"@, 0);
        } else if ext_is(path, "ppt"@) {
            lemma_ext_char(path, "ppt"@, 0);
        } else if ext_is(path, "pptx"@) {
            lemma_ext_char(path, "pptx"@, 0);
        } else if ext_is(path, "pdf"@) {
            lemma_ext_char(path, "pdf"@, 0);
        } else if ext_is(path, "txt"@) {
            lemma_ext_char(path, "txt"@, 0);
        } else if ext_is(path, "md"@) {
            lemma_ext_char(path, "md"@, 0);
        } else if ext_is(path, "rtf"@) {
            lemma_ext_char(path, "rtf"@, 0);
        } else if ext_is(path, "odt"@) {
            lemma_ext_char(path, "odt"@, 0);
        } else if ext_is(path, "ods"@) {
            lemma_ext_char(path, "ods"@, 0);
        } else if ext_is(path, "odp"@) {
            lemma_ext_char(path, "odp"@, 0);
        }
    }
    assert(!spec_ext_photo(path)) by {
        reveal_strlit("jpg");
        reveal_strlit("jpeg");
        reveal_strlit("png");
        reveal_strlit("gif");
        reveal_strlit("bmp");
        reveal_strlit("webp");
        reveal_strlit("raw");
        reveal_strlit("cr2");
        reveal_strlit("nef");
        reveal_strlit("arw");
        if ext_is(path, "jpg"@) {
            lemma_ext_char(path, "jpg"@, 0);
        } else if ext_is(path, "jpeg"@) {
            lemma_ext_char(path, "jpeg"@, 0);
        } else if ext_is(path, "png"@) {
            lemma_ext_char(path, "png"@, 0);
        } else if ext_is(path, "gif"@) {
            lemma_ext_char(path, "gif"@, 0);
        } else if ext_is(path, "bmp"@) {
            lemma_ext_char(path, "bmp"@, 0);
        } else if ext_is(path, "webp"@) {
            lemma_ext_char(path, "webp"@, 0);
            lemma_ext_char(path, "webp"@, 3);
        } else if ext_is(path, "raw"@) {
            lemma_ext_char(path, "raw"@, 0);
        } else if ext_is(path, "cr2"@) {
            lemma_ext_char(path, "cr2"@, 0);
        } else if ext_is(path, "nef"@) {
            lemma_ext_char(path, "nef"@, 0);
        } else if ext_is(path, "arw"@) {
            lemma_ext_char(path, "arw"@, 0);
            lemma_ext_char(path, "arw"@, 1);
        }
    }
}

/// Classification is a pure function of its inputs: any two results that
/// `categorize_file` can return for the same arguments are equal.
pub proof fn lemma_categorize_deterministic(
    path: &str,
    name: &str,
    is_dir: bool,
    size: u64,
    r1: (FileCategory, u32),
    r2: (FileCategory, u32),
)
    requires
        call_ensures(categorize_file, (path, name, is_dir, size), r1),
        call_ensures(categorize_file, (path, name, is_dir, size), r2),
    ensures
        r1 == r2,
{
}

} // verus!
