//! Icon selection for directory listings: an extension-keyed table with a
//! category fallback. The icon strings are kept exactly as the dashboard
//! renders them.

use vstd::prelude::*;

use crate::classify::FileCategory;
use crate::text::{ext_is, ext_matches};

verus! {

/// The icon shown for an entry: folders by fill state, files by extension,
/// and otherwise by category.
pub open spec fn spec_file_icon(
    name: Seq<char>,
    is_dir: bool,
    is_empty_folder: bool,
    category: FileCategory,
) -> Seq<char> {
    if is_dir {
        if is_empty_folder {
            "\u{f8ff}\u{fc}\u{ec}\u{c7}"@
        } else {
            "\u{f8ff}\u{fc}\u{ec}\u{c5}"@
        }
    } else if ext_is(name, "jpg"@) || ext_is(name, "jpeg"@) || ext_is(name, "png"@) || ext_is(
        name,
        "gif"@,
    ) || ext_is(name, "bmp"@) || ext_is(name, "webp"@) || ext_is(name, "svg"@) || ext_is(
        name,
        "ico"@,
    ) {
        "\u{f8ff}\u{fc}\u{f1}\u{ba}\u{d4}\u{220f}\u{e8}"@
    } else if ext_is(name, "mp4"@) || ext_is(name, "avi"@) || ext_is(name, "mkv"@) || ext_is(
        name,
        "mov"@,
    ) || ext_is(name, "wmv"@) || ext_is(name, "flv"@) || ext_is(name, "webm"@) {
        "\u{f8ff}\u{fc}\u{e9}\u{a8}"@
    } else if ext_is(name, "mp3"@) || ext_is(name, "wav"@) || ext_is(name, "flac"@) || ext_is(
        name,
        "ogg"@,
    ) || ext_is(name, "aac"@) || ext_is(name, "m4a"@) {
        "\u{f8ff}\u{fc}\u{e9}\u{b5}"@
    } else if ext_is(name, "pdf"@) {
        "\u{f8ff}\u{fc}\u{ec}\u{ef}"@
    } else if ext_is(name, "doc"@) || ext_is(name, "docx"@) {
        "\u{f8ff}\u{fc}\u{ec}\u{f2}"@
    } else if ext_is(name, "xls"@) || ext_is(name, "xlsx"@) {
        "\u{f8ff}\u{fc}\u{ec}\u{f3}"@
    } else if ext_is(name, "ppt"@) || ext_is(name, "pptx"@) {
        "\u{f8ff}\u{fc}\u{ec}\u{f4}"@
    } else if ext_is(name, "txt"@) || ext_is(name, "md"@) || ext_is(name, "rtf"@) {
        "\u{f8ff}\u{fc}\u{ec}\u{f9}"@
    } else if ext_is(name, "rs"@) || ext_is(name, "py"@) || ext_is(name, "js"@) || ext_is(
        name,
        "ts"@,
    ) || ext_is(name, "java"@) || ext_is(name, "c"@) || ext_is(name, "cpp"@) || ext_is(name, "h"@)
        || ext_is(name, "cs"@) || ext_is(name, "go"@) {
        "\u{f8ff}\u{fc}\u{ed}\u{aa}"@
    } else if ext_is(name, "html"@) || ext_is(name, "css"@) || ext_is(name, "json"@) || ext_is(
        name,
        "xml"@,
    ) || ext_is(name, "yaml"@) || ext_is(name, "toml"@) {
        "\u{f8ff}\u{fc}\u{e5}\u{ea}"@
    } else if ext_is(name, "zip"@) || ext_is(name, "rar"@) || ext_is(name, "7z"@) || ext_is(
        name,
        "tar"@,
    ) || ext_is(name, "gz"@) || ext_is(name, "bz2"@) {
        "\u{f8ff}\u{fc}\u{ec}\u{b6}"@
    } else if ext_is(name, "exe"@) || ext_is(name, "msi"@) || ext_is(name, "bat"@) || ext_is(
        name,
        "cmd"@,
    ) || ext_is(name, "ps1"@) || ext_is(name, "sh"@) {
        "\u{201a}\u{f6}\u{b0}"@
    } else {
        match category {
            FileCategory::MustKeep => "\u{f8ff}\u{fc}\u{ee}\u{ed}"@,
            FileCategory::System => "\u{201a}\u{f6}\u{f4}\u{d4}\u{220f}\u{e8}"@,
            FileCategory::Regular => "\u{f8ff}\u{fc}\u{ec}\u{d1}"@,
            FileCategory::Useless => "\u{f8ff}\u{fc}\u{f3}\u{eb}\u{d4}\u{220f}\u{e8}"@,
            FileCategory::Unknown => "\u{201a}\u{f9}\u{ec}"@,
        }
    }
}

/// Pick the icon for an entry from its name, kind, fill state and category.
pub fn get_file_icon(
    name: &str,
    is_dir: bool,
    is_empty_folder: bool,
    category: FileCategory,
) -> (r: &'static str)
    ensures
        r@ == spec_file_icon(name@, is_dir, is_empty_folder, category),
{
    if is_dir {
        return if is_empty_folder {
            "\u{f8ff}\u{fc}\u{ec}\u{c7}"
        } else {
            "\u{f8ff}\u{fc}\u{ec}\u{c5}"
        };
    }
    if ext_matches(name, "jpg") || ext_matches(name, "jpeg") || ext_matches(name, "png")
        || ext_matches(name, "gif") || ext_matches(name, "bmp") || ext_matches(name, "webp")
        || ext_matches(name, "svg") || ext_matches(name, "ico") {
        return "\u{f8ff}\u{fc}\u{f1}\u{ba}\u{d4}\u{220f}\u{e8}";
    }
    if ext_matches(name, "mp4") || ext_matches(name, "avi") || ext_matches(name, "mkv")
        || ext_matches(name, "mov") || ext_matches(name, "wmv") || ext_matches(name, "flv")
        || ext_matches(name, "webm") {
        return "\u{f8ff}\u{fc}\u{e9}\u{a8}";
    }
    if ext_matches(name, "mp3") || ext_matches(name, "wav") || ext_matches(name, "flac")
        || ext_matches(name, "ogg") || ext_matches(name, "aac") || ext_matches(name, "m4a") {
        return "\u{f8ff}\u{fc}\u{e9}\u{b5}";
    }
    if ext_matches(name, "pdf") {
        return "\u{f8ff}\u{fc}\u{ec}\u{ef}";
    }
    if ext_matches(name, "doc") || ext_matches(name, "docx") {
        return "\u{f8ff}\u{fc}\u{ec}\u{f2}";
    }
    if ext_matches(name, "xls") || ext_matches(name, "xlsx") {
        return "\u{f8ff}\u{fc}\u{ec}\u{f3}";
    }
    if ext_matches(name, "ppt") || ext_matches(name, "pptx") {
        return "\u{f8ff}\u{fc}\u{ec}\u{f4}";
    }
    if ext_matches(name, "txt") || ext_matches(name, "md") || ext_matches(name, "rtf") {
        return "\u{f8ff}\u{fc}\u{ec}\u{f9}";
    }
    if ext_matches(name, "rs") || ext_matches(name, "py") || ext_matches(name, "js")
        || ext_matches(name, "ts") || ext_matches(name, "java") || ext_matches(name, "c")
        || ext_matches(name, "cpp") || ext_matches(name, "h") || ext_matches(name, "cs")
        || ext_matches(name, "go") {
        return "\u{f8ff}\u{fc}\u{ed}\u{aa}";
    }
    if ext_matches(name, "html") || ext_matches(name, "css") || ext_matches(name, "json")
        || ext_matches(name, "xml") || ext_matches(name, "yaml") || ext_matches(name, "toml") {
        return "\u{f8ff}\u{fc}\u{e5}\u{ea}";
    }
    if ext_matches(name, "zip") || ext_matches(name, "rar") || ext_matches(name, "7z")
        || ext_matches(name, "tar") || ext_matches(name, "gz") || ext_matches(name, "bz2") {
        return "\u{f8ff}\u{fc}\u{ec}\u{b6}";
    }
    if ext_matches(name, "exe") || ext_matches(name, "msi") || ext_matches(name, "bat")
        || ext_matches(name, "cmd") || ext_matches(name, "ps1") || ext_matches(name, "sh") {
        return "\u{201a}\u{f6}\u{b0}";
    }
    match category {
        FileCategory::MustKeep => "\u{f8ff}\u{fc}\u{ee}\u{ed}",
        FileCategory::System => "\u{201a}\u{f6}\u{f4}\u{d4}\u{220f}\u{e8}",
        FileCategory::Regular => "\u{f8ff}\u{fc}\u{ec}\u{d1}",
        FileCategory::Useless => "\u{f8ff}\u{fc}\u{f3}\u{eb}\u{d4}\u{220f}\u{e8}",
        FileCategory::Unknown => "\u{201a}\u{f9}\u{ec}",
    }
}

} // verus!
