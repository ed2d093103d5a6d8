//! File-type → icon mapping and human "kind" strings, and the path helpers for "/" and "C:\" roots.
use vstd::prelude::*;
use crate::text::{chars_of, push_char, string_of, same, to_lower, to_upper, push_str, last_of, lemma_last_of, rfind, slice_vec, lowercase, uppercase};
use vstd::string::*;

verus! {

// ---- extensions --------------------------------------------------------------------------------

/// The lower-cased extension of `name`: what follows its last dot, unless that dot starts the name.
pub open spec fn ext_spec(name: Seq<char>) -> Seq<char> {
    let i = last_of(name, '.');
    if i > 0 {
        lowercase(name.subrange(i + 1, name.len() as int))
    } else {
        Seq::empty()
    }
}

pub fn ext(name: &str) -> (e: String)
    ensures
        e@ == ext_spec(name@),
{
    let v = chars_of(name);
    proof {
        lemma_last_of(v@, '.');
    }
    match rfind(&v, '.') {
        Some(i) => {
            if i > 0 {
                let tail = string_of(&slice_vec(&v, i + 1, v.len()));
                to_lower(tail.as_str())
            } else {
                String::new()
            }
        },
        None => String::new(),
    }
}

pub open spec fn text_ext(e: Seq<char>) -> bool {
    e == "txt"@ || e == "md"@ || e == "log"@ || e == "csv"@ || e == "json"@ || e == "yaml"@ || e
        == "yml"@ || e == "toml"@ || e == "ini"@
}

pub open spec fn image_ext(e: Seq<char>) -> bool {
    e == "png"@ || e == "jpg"@ || e == "jpeg"@ || e == "gif"@ || e == "bmp"@ || e == "webp"@ || e
        == "svg"@ || e == "icns"@ || e == "ico"@
}

pub open spec fn archive_ext(e: Seq<char>) -> bool {
    e == "zip"@ || e == "tar"@ || e == "gz"@ || e == "tgz"@ || e == "bz2"@ || e == "xz"@ || e
        == "7z"@ || e == "rar"@ || e == "dmg"@
}

pub open spec fn code_ext(e: Seq<char>) -> bool {
    e == "c"@ || e == "h"@ || e == "cpp"@ || e == "go"@ || e == "rs"@ || e == "py"@ || e == "js"@
        || e == "ts"@ || e == "sh"@ || e == "zig"@ || e == "rb"@ || e == "java"@ || e == "swift"@
        || e == "m"@
}

pub open spec fn audio_ext(e: Seq<char>) -> bool {
    e == "mp3"@ || e == "wav"@ || e == "flac"@ || e == "aac"@ || e == "m4a"@ || e == "ogg"@
}

pub open spec fn video_ext(e: Seq<char>) -> bool {
    e == "mp4"@ || e == "mov"@ || e == "mkv"@ || e == "avi"@ || e == "webm"@
}

pub open spec fn app_ext(e: Seq<char>) -> bool {
    e == "app"@ || e == "exe"@ || e == "lnk"@
}

/// The 48×48 icon of a document whose extension is `e`; the first group that lists it wins.
pub open spec fn icon_of_ext(e: Seq<char>) -> Seq<char> {
    if text_ext(e) {
        "file-text"@
    } else if image_ext(e) {
        "file-image"@
    } else if archive_ext(e) {
        "file-archive"@
    } else if code_ext(e) {
        "file-code"@
    } else if e == "pdf"@ {
        "file-pdf"@
    } else if audio_ext(e) {
        "file-audio"@
    } else if video_ext(e) {
        "file-video"@
    } else if app_ext(e) {
        "application"@
    } else {
        "file-generic"@
    }
}

/// The text extensions are in no group listed before theirs.
proof fn lemma_text_icons()
    ensures
        icon_of_ext("txt"@) == "file-text"@,
        icon_of_ext("md"@) == "file-text"@,
        icon_of_ext("log"@) == "file-text"@,
        icon_of_ext("csv"@) == "file-text"@,
        icon_of_ext("json"@) == "file-text"@,
        icon_of_ext("yaml"@) == "file-text"@,
        icon_of_ext("yml"@) == "file-text"@,
        icon_of_ext("toml"@) == "file-text"@,
        icon_of_ext("ini"@) == "file-text"@,
        kind_word("file-text"@) == "text document"@,
{
    reveal_strlit("txt");
    assert("txt"@.len() == 3);
    reveal_strlit("md");
    assert("md"@.len() == 2);
    reveal_strlit("log");
    assert("log"@.len() == 3);
    reveal_strlit("csv");
    assert("csv"@.len() == 3);
    reveal_strlit("json");
    assert("json"@.len() == 4);
    reveal_strlit("yaml");
    assert("yaml"@.len() == 4);
    reveal_strlit("yml");
    assert("yml"@.len() == 3);
    reveal_strlit("toml");
    assert("toml"@.len() == 4);
    reveal_strlit("ini");
    assert("ini"@.len() == 3);
    reveal_strlit("file-text");
    assert("file-text"@.len() == 9);
}

/// The image extensions are in no group listed before theirs.
proof fn lemma_image_icons()
    ensures
        icon_of_ext("png"@) == "file-image"@,
        icon_of_ext("jpg"@) == "file-image"@,
        icon_of_ext("jpeg"@) == "file-image"@,
        icon_of_ext("gif"@) == "file-image"@,
        icon_of_ext("bmp"@) == "file-image"@,
        icon_of_ext("webp"@) == "file-image"@,
        icon_of_ext("svg"@) == "file-image"@,
        icon_of_ext("icns"@) == "file-image"@,
        icon_of_ext("ico"@) == "file-image"@,
        kind_word("file-image"@) == "image"@,
{
    reveal_strlit("png");
    assert("png"@.len() == 3);
    reveal_strlit("jpg");
    assert("jpg"@.len() == 3);
    reveal_strlit("jpeg");
    assert("jpeg"@.len() == 4);
    reveal_strlit("gif");
    assert("gif"@.len() == 3);
    reveal_strlit("bmp");
    assert("bmp"@.len() == 3);
    reveal_strlit("webp");
    assert("webp"@.len() == 4);
    reveal_strlit("svg");
    assert("svg"@.len() == 3);
    reveal_strlit("icns");
    assert("icns"@.len() == 4);
    reveal_strlit("ico");
    assert("ico"@.len() == 3);
    reveal_strlit("txt");
    assert("txt"@.len() == 3);
    reveal_strlit("md");
    assert("md"@.len() == 2);
    reveal_strlit("log");
    assert("log"@.len() == 3);
    reveal_strlit("csv");
    assert("csv"@.len() == 3);
    reveal_strlit("json");
    assert("json"@.len() == 4);
    reveal_strlit("yaml");
    assert("yaml"@.len() == 4);
    reveal_strlit("yml");
    assert("yml"@.len() == 3);
    reveal_strlit("toml");
    assert("toml"@.len() == 4);
    reveal_strlit("ini");
    assert("ini"@.len() == 3);
    assert("png"@[0] != "txt"@[0]);
    assert("png"@[0] != "log"@[0]);
    assert("png"@[0] != "csv"@[0]);
    assert("png"@[0] != "yml"@[0]);
    assert("png"@[0] != "ini"@[0]);
    assert("jpg"@[0] != "txt"@[0]);
    assert("jpg"@[0] != "log"@[0]);
    assert("jpg"@[0] != "csv"@[0]);
    assert("jpg"@[0] != "yml"@[0]);
    assert("jpg"@[0] != "ini"@[0]);
    assert("jpeg"@[1] != "json"@[1]);
    assert("jpeg"@[0] != "yaml"@[0]);
    assert("jpeg"@[0] != "toml"@[0]);
    assert("gif"@[0] != "txt"@[0]);
    assert("gif"@[0] != "log"@[0]);
    assert("gif"@[0] != "csv"@[0]);
    assert("gif"@[0] != "yml"@[0]);
    assert("gif"@[0] != "ini"@[0]);
    assert("bmp"@[0] != "txt"@[0]);
    assert("bmp"@[0] != "log"@[0]);
    assert("bmp"@[0] != "csv"@[0]);
    assert("bmp"@[0] != "yml"@[0]);
    assert("bmp"@[0] != "ini"@[0]);
    assert("webp"@[0] != "json"@[0]);
    assert("webp"@[0] != "yaml"@[0]);
    assert("webp"@[0] != "toml"@[0]);
    assert("svg"@[0] != "txt"@[0]);
    assert("svg"@[0] != "log"@[0]);
    assert("svg"@[0] != "csv"@[0]);
    assert("svg"@[0] != "yml"@[0]);
    assert("svg"@[0] != "ini"@[0]);
    assert("icns"@[0] != "json"@[0]);
    assert("icns"@[0] != "yaml"@[0]);
    assert("icns"@[0] != "toml"@[0]);
    assert("ico"@[0] != "txt"@[0]);
    assert("ico"@[0] != "log"@[0]);
    assert("ico"@[0] != "csv"@[0]);
    assert("ico"@[0] != "yml"@[0]);
    assert("ico"@[1] != "ini"@[1]);
    reveal_strlit("file-image");
    assert("file-image"@.len() == 10);
    reveal_strlit("file-text");
    assert("file-text"@.len() == 9);
}

/// The archive extensions are in no group listed before theirs.
proof fn lemma_archive_icons()
    ensures
        icon_of_ext("zip"@) == "file-archive"@,
        icon_of_ext("tar"@) == "file-archive"@,
        icon_of_ext("gz"@) == "file-archive"@,
        icon_of_ext("tgz"@) == "file-archive"@,
        icon_of_ext("bz2"@) == "file-archive"@,
        icon_of_ext("xz"@) == "file-archive"@,
        icon_of_ext("7z"@) == "file-archive"@,
        icon_of_ext("rar"@) == "file-archive"@,
        icon_of_ext("dmg"@) == "file-archive"@,
        kind_word("file-archive"@) == "archive"@,
{
    reveal_strlit("zip");
    assert("zip"@.len() == 3);
    reveal_strlit("tar");
    assert("tar"@.len() == 3);
    reveal_strlit("gz");
    assert("gz"@.len() == 2);
    reveal_strlit("tgz");
    assert("tgz"@.len() == 3);
    reveal_strlit("bz2");
    assert("bz2"@.len() == 3);
    reveal_strlit("xz");
    assert("xz"@.len() == 2);
    reveal_strlit("7z");
    assert("7z"@.len() == 2);
    reveal_strlit("rar");
    assert("rar"@.len() == 3);
    reveal_strlit("dmg");
    assert("dmg"@.len() == 3);
    reveal_strlit("txt");
    assert("txt"@.len() == 3);
    reveal_strlit("md");
    assert("md"@.len() == 2);
    reveal_strlit("log");
    assert("log"@.len() == 3);
    reveal_strlit("csv");
    assert("csv"@.len() == 3);
    reveal_strlit("json");
    assert("json"@.len() == 4);
    reveal_strlit("yaml");
    assert("yaml"@.len() == 4);
    reveal_strlit("yml");
    assert("yml"@.len() == 3);
    reveal_strlit("toml");
    assert("toml"@.len() == 4);
    reveal_strlit("ini");
    assert("ini"@.len() == 3);
    reveal_strlit("png");
    assert("png"@.len() == 3);
    reveal_strlit("jpg");
    assert("jpg"@.len() == 3);
    reveal_strlit("jpeg");
    assert("jpeg"@.len() == 4);
    reveal_strlit("gif");
    assert("gif"@.len() == 3);
    reveal_strlit("bmp");
    assert("bmp"@.len() == 3);
    reveal_strlit("webp");
    assert("webp"@.len() == 4);
    reveal_strlit("svg");
    assert("svg"@.len() == 3);
    reveal_strlit("icns");
    assert("icns"@.len() == 4);
    reveal_strlit("ico");
    assert("ico"@.len() == 3);
    assert("zip"@[0] != "txt"@[0]);
    assert("zip"@[0] != "log"@[0]);
    assert("zip"@[0] != "csv"@[0]);
    assert("zip"@[0] != "yml"@[0]);
    assert("zip"@[0] != "ini"@[0]);
    assert("zip"@[0] != "png"@[0]);
    assert("zip"@[0] != "jpg"@[0]);
    assert("zip"@[0] != "gif"@[0]);
    assert("zip"@[0] != "bmp"@[0]);
    assert("zip"@[0] != "svg"@[0]);
    assert("zip"@[0] != "ico"@[0]);
    assert("tar"@[1] != "txt"@[1]);
    assert("tar"@[0] != "log"@[0]);
    assert("tar"@[0] != "csv"@[0]);
    assert("tar"@[0] != "yml"@[0]);
    assert("tar"@[0] != "ini"@[0]);
    assert("tar"@[0] != "png"@[0]);
    assert("tar"@[0] != "jpg"@[0]);
    assert("tar"@[0] != "gif"@[0]);
    assert("tar"@[0] != "bmp"@[0]);
    assert("tar"@[0] != "svg"@[0]);
    assert("tar"@[0] != "ico"@[0]);
    assert("gz"@[0] != "md"@[0]);
    assert("tgz"@[1] != "txt"@[1]);
    assert("tgz"@[0] != "log"@[0]);
    assert("tgz"@[0] != "csv"@[0]);
    assert("tgz"@[0] != "yml"@[0]);
    assert("tgz"@[0] != "ini"@[0]);
    assert("tgz"@[0] != "png"@[0]);
    assert("tgz"@[0] != "jpg"@[0]);
    assert("tgz"@[0] != "gif"@[0]);
    assert("tgz"@[0] != "bmp"@[0]);
    assert("tgz"@[0] != "svg"@[0]);
    assert("tgz"@[0] != "ico"@[0]);
    assert("bz2"@[0] != "txt"@[0]);
    assert("bz2"@[0] != "log"@[0]);
    assert("bz2"@[0] != "csv"@[0]);
    assert("bz2"@[0] != "yml"@[0]);
    assert("bz2"@[0] != "ini"@[0]);
    assert("bz2"@[0] != "png"@[0]);
    assert("bz2"@[0] != "jpg"@[0]);
    assert("bz2"@[0] != "gif"@[0]);
    assert("bz2"@[1] != "bmp"@[1]);
    assert("bz2"@[0] != "svg"@[0]);
    assert("bz2"@[0] != "ico"@[0]);
    assert("xz"@[0] != "md"@[0]);
    assert("7z"@[0] != "md"@[0]);
    assert("rar"@[0] != "txt"@[0]);
    assert("rar"@[0] != "log"@[0]);
    assert("rar"@[0] != "csv"@[0]);
    assert("rar"@[0] != "yml"@[0]);
    assert("rar"@[0] != "ini"@[0]);
    assert("rar"@[0] != "png"@[0]);
    assert("rar"@[0] != "jpg"@[0]);
    assert("rar"@[0] != "gif"@[0]);
    assert("rar"@[0] != "bmp"@[0]);
    assert("rar"@[0] != "svg"@[0]);
    assert("rar"@[0] != "ico"@[0]);
    assert("dmg"@[0] != "txt"@[0]);
    assert("dmg"@[0] != "log"@[0]);
    assert("dmg"@[0] != "csv"@[0]);
    assert("dmg"@[0] != "yml"@[0]);
    assert("dmg"@[0] != "ini"@[0]);
    assert("dmg"@[0] != "png"@[0]);
    assert("dmg"@[0] != "jpg"@[0]);
    assert("dmg"@[0] != "gif"@[0]);
    assert("dmg"@[0] != "bmp"@[0]);
    assert("dmg"@[0] != "svg"@[0]);
    assert("dmg"@[0] != "ico"@[0]);
    reveal_strlit("file-archive");
    assert("file-archive"@.len() == 12);
    reveal_strlit("file-text");
    assert("file-text"@.len() == 9);
    reveal_strlit("file-image");
    assert("file-image"@.len() == 10);
}

/// The code extensions are in no group listed before theirs.
proof fn lemma_code_icons()
    ensures
        icon_of_ext("c"@) == "file-code"@,
        icon_of_ext("h"@) == "file-code"@,
        icon_of_ext("cpp"@) == "file-code"@,
        icon_of_ext("go"@) == "file-code"@,
        icon_of_ext("rs"@) == "file-code"@,
        icon_of_ext("py"@) == "file-code"@,
        icon_of_ext("js"@) == "file-code"@,
        icon_of_ext("ts"@) == "file-code"@,
        icon_of_ext("sh"@) == "file-code"@,
        icon_of_ext("zig"@) == "file-code"@,
        icon_of_ext("rb"@) == "file-code"@,
        icon_of_ext("java"@) == "file-code"@,
        icon_of_ext("swift"@) == "file-code"@,
        icon_of_ext("m"@) == "file-code"@,
        kind_word("file-code"@) == "source code"@,
{
    reveal_strlit("c");
    assert("c"@.len() == 1);
    reveal_strlit("h");
    assert("h"@.len() == 1);
    reveal_strlit("cpp");
    assert("cpp"@.len() == 3);
    reveal_strlit("go");
    assert("go"@.len() == 2);
    reveal_strlit("rs");
    assert("rs"@.len() == 2);
    reveal_strlit("py");
    assert("py"@.len() == 2);
    reveal_strlit("js");
    assert("js"@.len() == 2);
    reveal_strlit("ts");
    assert("ts"@.len() == 2);
    reveal_strlit("sh");
    assert("sh"@.len() == 2);
    reveal_strlit("zig");
    assert("zig"@.len() == 3);
    reveal_strlit("rb");
    assert("rb"@.len() == 2);
    reveal_strlit("java");
    assert("java"@.len() == 4);
    reveal_strlit("swift");
    assert("swift"@.len() == 5);
    reveal_strlit("m");
    assert("m"@.len() == 1);
    reveal_strlit("txt");
    assert("txt"@.len() == 3);
    reveal_strlit("md");
    assert("md"@.len() == 2);
    reveal_strlit("log");
    assert("log"@.len() == 3);
    reveal_strlit("csv");
    assert("csv"@.len() == 3);
    reveal_strlit("json");
    assert("json"@.len() == 4);
    reveal_strlit("yaml");
    assert("yaml"@.len() == 4);
    reveal_strlit("yml");
    assert("yml"@.len() == 3);
    reveal_strlit("toml");
    assert("toml"@.len() == 4);
    reveal_strlit("ini");
    assert("ini"@.len() == 3);
    reveal_strlit("png");
    assert("png"@.len() == 3);
    reveal_strlit("jpg");
    assert("jpg"@.len() == 3);
    reveal_strlit("jpeg");
    assert("jpeg"@.len() == 4);
    reveal_strlit("gif");
    assert("gif"@.len() == 3);
    reveal_strlit("bmp");
    assert("bmp"@.len() == 3);
    reveal_strlit("webp");
    assert("webp"@.len() == 4);
    reveal_strlit("svg");
    assert("svg"@.len() == 3);
    reveal_strlit("icns");
    assert("icns"@.len() == 4);
    reveal_strlit("ico");
    assert("ico"@.len() == 3);
    reveal_strlit("zip");
    assert("zip"@.len() == 3);
    reveal_strlit("tar");
    assert("tar"@.len() == 3);
    reveal_strlit("gz");
    assert("gz"@.len() == 2);
    reveal_strlit("tgz");
    assert("tgz"@.len() == 3);
    reveal_strlit("bz2");
    assert("bz2"@.len() == 3);
    reveal_strlit("xz");
    assert("xz"@.len() == 2);
    reveal_strlit("7z");
    assert("7z"@.len() == 2);
    reveal_strlit("rar");
    assert("rar"@.len() == 3);
    reveal_strlit("dmg");
    assert("dmg"@.len() == 3);
    assert("cpp"@[0] != "txt"@[0]);
    assert("cpp"@[0] != "log"@[0]);
    assert("cpp"@[1] != "csv"@[1]);
    assert("cpp"@[0] != "yml"@[0]);
    assert("cpp"@[0] != "ini"@[0]);
    assert("cpp"@[0] != "png"@[0]);
    assert("cpp"@[0] != "jpg"@[0]);
    assert("cpp"@[0] != "gif"@[0]);
    assert("cpp"@[0] != "bmp"@[0]);
    assert("cpp"@[0] != "svg"@[0]);
    assert("cpp"@[0] != "ico"@[0]);
    assert("cpp"@[0] != "zip"@[0]);
    assert("cpp"@[0] != "tar"@[0]);
    assert("cpp"@[0] != "tgz"@[0]);
    assert("cpp"@[0] != "bz2"@[0]);
    assert("cpp"@[0] != "rar"@[0]);
    assert("cpp"@[0] != "dmg"@[0]);
    assert("go"@[0] != "md"@[0]);
    assert("go"@[1] != "gz"@[1]);
    assert("go"@[0] != "xz"@[0]);
    assert("go"@[0] != "7z"@[0]);
    assert("rs"@[0] != "md"@[0]);
    assert("rs"@[0] != "gz"@[0]);
    assert("rs"@[0] != "xz"@[0]);
    assert("rs"@[0] != "7z"@[0]);
    assert("py"@[0] != "md"@[0]);
    assert("py"@[0] != "gz"@[0]);
    assert("py"@[0] != "xz"@[0]);
    assert("py"@[0] != "7z"@[0]);
    assert("js"@[0] != "md"@[0]);
    assert("js"@[0] != "gz"@[0]);
    assert("js"@[0] != "xz"@[0]);
    assert("js"@[0] != "7z"@[0]);
    assert("ts"@[0] != "md"@[0]);
    assert("ts"@[0] != "gz"@[0]);
    assert("ts"@[0] != "xz"@[0]);
    assert("ts"@[0] != "7z"@[0]);
    assert("sh"@[0] != "md"@[0]);
    assert("sh"@[0] != "gz"@[0]);
    assert("sh"@[0] != "xz"@[0]);
    assert("sh"@[0] != "7z"@[0]);
    assert("zig"@[0] != "txt"@[0]);
    assert("zig"@[0] != "log"@[0]);
    assert("zig"@[0] != "csv"@[0]);
    assert("zig"@[0] != "yml"@[0]);
    assert("zig"@[0] != "ini"@[0]);
    assert("zig"@[0] != "png"@[0]);
    assert("zig"@[0] != "jpg"@[0]);
    assert("zig"@[0] != "gif"@[0]);
    assert("zig"@[0] != "bmp"@[0]);
    assert("zig"@[0] != "svg"@[0]);
    assert("zig"@[0] != "ico"@[0]);
    assert("zig"@[2] != "zip"@[2]);
    assert("zig"@[0] != "tar"@[0]);
    assert("zig"@[0] != "tgz"@[0]);
    assert("zig"@[0] != "bz2"@[0]);
    assert("zig"@[0] != "rar"@[0]);
    assert("zig"@[0] != "dmg"@[0]);
    assert("rb"@[0] != "md"@[0]);
    assert("rb"@[0] != "gz"@[0]);
    assert("rb"@[0] != "xz"@[0]);
    assert("rb"@[0] != "7z"@[0]);
    assert("java"@[1] != "json"@[1]);
    assert("java"@[0] != "yaml"@[0]);
    assert("java"@[0] != "toml"@[0]);
    assert("java"@[1] != "jpeg"@[1]);
    assert("java"@[0] != "webp"@[0]);
    assert("java"@[0] != "icns"@[0]);
    reveal_strlit("file-code");
    assert("file-code"@.len() == 9);
    reveal_strlit("file-text");
    assert("file-code"@[5] != "file-text"@[5]);
    reveal_strlit("file-image");
    assert("file-image"@.len() == 10);
    reveal_strlit("file-archive");
    assert("file-archive"@.len() == 12);
}

/// The pdf extensions are in no group listed before theirs.
proof fn lemma_pdf_icons()
    ensures
        icon_of_ext("pdf"@) == "file-pdf"@,
        kind_word("file-pdf"@) == "document"@,
{
    reveal_strlit("pdf");
    assert("pdf"@.len() == 3);
    reveal_strlit("txt");
    assert("txt"@.len() == 3);
    reveal_strlit("md");
    assert("md"@.len() == 2);
    reveal_strlit("log");
    assert("log"@.len() == 3);
    reveal_strlit("csv");
    assert("csv"@.len() == 3);
    reveal_strlit("json");
    assert("json"@.len() == 4);
    reveal_strlit("yaml");
    assert("yaml"@.len() == 4);
    reveal_strlit("yml");
    assert("yml"@.len() == 3);
    reveal_strlit("toml");
    assert("toml"@.len() == 4);
    reveal_strlit("ini");
    assert("ini"@.len() == 3);
    reveal_strlit("png");
    assert("png"@.len() == 3);
    reveal_strlit("jpg");
    assert("jpg"@.len() == 3);
    reveal_strlit("jpeg");
    assert("jpeg"@.len() == 4);
    reveal_strlit("gif");
    assert("gif"@.len() == 3);
    reveal_strlit("bmp");
    assert("bmp"@.len() == 3);
    reveal_strlit("webp");
    assert("webp"@.len() == 4);
    reveal_strlit("svg");
    assert("svg"@.len() == 3);
    reveal_strlit("icns");
    assert("icns"@.len() == 4);
    reveal_strlit("ico");
    assert("ico"@.len() == 3);
    reveal_strlit("zip");
    assert("zip"@.len() == 3);
    reveal_strlit("tar");
    assert("tar"@.len() == 3);
    reveal_strlit("gz");
    assert("gz"@.len() == 2);
    reveal_strlit("tgz");
    assert("tgz"@.len() == 3);
    reveal_strlit("bz2");
    assert("bz2"@.len() == 3);
    reveal_strlit("xz");
    assert("xz"@.len() == 2);
    reveal_strlit("7z");
    assert("7z"@.len() == 2);
    reveal_strlit("rar");
    assert("rar"@.len() == 3);
    reveal_strlit("dmg");
    assert("dmg"@.len() == 3);
    reveal_strlit("c");
    assert("c"@.len() == 1);
    reveal_strlit("h");
    assert("h"@.len() == 1);
    reveal_strlit("cpp");
    assert("cpp"@.len() == 3);
    reveal_strlit("go");
    assert("go"@.len() == 2);
    reveal_strlit("rs");
    assert("rs"@.len() == 2);
    reveal_strlit("py");
    assert("py"@.len() == 2);
    reveal_strlit("js");
    assert("js"@.len() == 2);
    reveal_strlit("ts");
    assert("ts"@.len() == 2);
    reveal_strlit("sh");
    assert("sh"@.len() == 2);
    reveal_strlit("zig");
    assert("zig"@.len() == 3);
    reveal_strlit("rb");
    assert("rb"@.len() == 2);
    reveal_strlit("java");
    assert("java"@.len() == 4);
    reveal_strlit("swift");
    assert("swift"@.len() == 5);
    reveal_strlit("m");
    assert("m"@.len() == 1);
    assert("pdf"@[0] != "txt"@[0]);
    assert("pdf"@[0] != "log"@[0]);
    assert("pdf"@[0] != "csv"@[0]);
    assert("pdf"@[0] != "yml"@[0]);
    assert("pdf"@[0] != "ini"@[0]);
    assert("pdf"@[1] != "png"@[1]);
    assert("pdf"@[0] != "jpg"@[0]);
    assert("pdf"@[0] != "gif"@[0]);
    assert("pdf"@[0] != "bmp"@[0]);
    assert("pdf"@[0] != "svg"@[0]);
    assert("pdf"@[0] != "ico"@[0]);
    assert("pdf"@[0] != "zip"@[0]);
    assert("pdf"@[0] != "tar"@[0]);
    assert("pdf"@[0] != "tgz"@[0]);
    assert("pdf"@[0] != "bz2"@[0]);
    assert("pdf"@[0] != "rar"@[0]);
    assert("pdf"@[0] != "dmg"@[0]);
    assert("pdf"@[0] != "cpp"@[0]);
    assert("pdf"@[0] != "zig"@[0]);
    reveal_strlit("file-pdf");
    assert("file-pdf"@.len() == 8);
    reveal_strlit("file-text");
    assert("file-text"@.len() == 9);
    reveal_strlit("file-image");
    assert("file-image"@.len() == 10);
    reveal_strlit("file-archive");
    assert("file-archive"@.len() == 12);
    reveal_strlit("file-code");
    assert("file-code"@.len() == 9);
}

/// The audio extensions are in no group listed before theirs.
proof fn lemma_audio_icons()
    ensures
        icon_of_ext("mp3"@) == "file-audio"@,
        icon_of_ext("wav"@) == "file-audio"@,
        icon_of_ext("flac"@) == "file-audio"@,
        icon_of_ext("aac"@) == "file-audio"@,
        icon_of_ext("m4a"@) == "file-audio"@,
        icon_of_ext("ogg"@) == "file-audio"@,
        kind_word("file-audio"@) == "audio"@,
{
    reveal_strlit("mp3");
    assert("mp3"@.len() == 3);
    reveal_strlit("wav");
    assert("wav"@.len() == 3);
    reveal_strlit("flac");
    assert("flac"@.len() == 4);
    reveal_strlit("aac");
    assert("aac"@.len() == 3);
    reveal_strlit("m4a");
    assert("m4a"@.len() == 3);
    reveal_strlit("ogg");
    assert("ogg"@.len() == 3);
    reveal_strlit("txt");
    assert("txt"@.len() == 3);
    reveal_strlit("md");
    assert("md"@.len() == 2);
    reveal_strlit("log");
    assert("log"@.len() == 3);
    reveal_strlit("csv");
    assert("csv"@.len() == 3);
    reveal_strlit("json");
    assert("json"@.len() == 4);
    reveal_strlit("yaml");
    assert("yaml"@.len() == 4);
    reveal_strlit("yml");
    assert("yml"@.len() == 3);
    reveal_strlit("toml");
    assert("toml"@.len() == 4);
    reveal_strlit("ini");
    assert("ini"@.len() == 3);
    reveal_strlit("png");
    assert("png"@.len() == 3);
    reveal_strlit("jpg");
    assert("jpg"@.len() == 3);
    reveal_strlit("jpeg");
    assert("jpeg"@.len() == 4);
    reveal_strlit("gif");
    assert("gif"@.len() == 3);
    reveal_strlit("bmp");
    assert("bmp"@.len() == 3);
    reveal_strlit("webp");
    assert("webp"@.len() == 4);
    reveal_strlit("svg");
    assert("svg"@.len() == 3);
    reveal_strlit("icns");
    assert("icns"@.len() == 4);
    reveal_strlit("ico");
    assert("ico"@.len() == 3);
    reveal_strlit("zip");
    assert("zip"@.len() == 3);
    reveal_strlit("tar");
    assert("tar"@.len() == 3);
    reveal_strlit("gz");
    assert("gz"@.len() == 2);
    reveal_strlit("tgz");
    assert("tgz"@.len() == 3);
    reveal_strlit("bz2");
    assert("bz2"@.len() == 3);
    reveal_strlit("xz");
    assert("xz"@.len() == 2);
    reveal_strlit("7z");
    assert("7z"@.len() == 2);
    reveal_strlit("rar");
    assert("rar"@.len() == 3);
    reveal_strlit("dmg");
    assert("dmg"@.len() == 3);
    reveal_strlit("c");
    assert("c"@.len() == 1);
    reveal_strlit("h");
    assert("h"@.len() == 1);
    reveal_strlit("cpp");
    assert("cpp"@.len() == 3);
    reveal_strlit("go");
    assert("go"@.len() == 2);
    reveal_strlit("rs");
    assert("rs"@.len() == 2);
    reveal_strlit("py");
    assert("py"@.len() == 2);
    reveal_strlit("js");
    assert("js"@.len() == 2);
    reveal_strlit("ts");
    assert("ts"@.len() == 2);
    reveal_strlit("sh");
    assert("sh"@.len() == 2);
    reveal_strlit("zig");
    assert("zig"@.len() == 3);
    reveal_strlit("rb");
    assert("rb"@.len() == 2);
    reveal_strlit("java");
    assert("java"@.len() == 4);
    reveal_strlit("swift");
    assert("swift"@.len() == 5);
    reveal_strlit("m");
    assert("m"@.len() == 1);
    reveal_strlit("pdf");
    assert("pdf"@.len() == 3);
    assert("mp3"@[0] != "txt"@[0]);
    assert("mp3"@[0] != "log"@[0]);
    assert("mp3"@[0] != "csv"@[0]);
    assert("mp3"@[0] != "yml"@[0]);
    assert("mp3"@[0] != "ini"@[0]);
    assert("mp3"@[0] != "png"@[0]);
    assert("mp3"@[0] != "jpg"@[0]);
    assert("mp3"@[0] != "gif"@[0]);
    assert("mp3"@[0] != "bmp"@[0]);
    assert("mp3"@[0] != "svg"@[0]);
    assert("mp3"@[0] != "ico"@[0]);
    assert("mp3"@[0] != "zip"@[0]);
    assert("mp3"@[0] != "tar"@[0]);
    assert("mp3"@[0] != "tgz"@[0]);
    assert("mp3"@[0] != "bz2"@[0]);
    assert("mp3"@[0] != "rar"@[0]);
    assert("mp3"@[0] != "dmg"@[0]);
    assert("mp3"@[0] != "cpp"@[0]);
    assert("mp3"@[0] != "zig"@[0]);
    assert("mp3"@[0] != "pdf"@[0]);
    assert("wav"@[0] != "txt"@[0]);
    assert("wav"@[0] != "log"@[0]);
    assert("wav"@[0] != "csv"@[0]);
    assert("wav"@[0] != "yml"@[0]);
    assert("wav"@[0] != "ini"@[0]);
    assert("wav"@[0] != "png"@[0]);
    assert("wav"@[0] != "jpg"@[0]);
    assert("wav"@[0] != "gif"@[0]);
    assert("wav"@[0] != "bmp"@[0]);
    assert("wav"@[0] != "svg"@[0]);
    assert("wav"@[0] != "ico"@[0]);
    assert("wav"@[0] != "zip"@[0]);
    assert("wav"@[0] != "tar"@[0]);
    assert("wav"@[0] != "tgz"@[0]);
    assert("wav"@[0] != "bz2"@[0]);
    assert("wav"@[0] != "rar"@[0]);
    assert("wav"@[0] != "dmg"@[0]);
    assert("wav"@[0] != "cpp"@[0]);
    assert("wav"@[0] != "zig"@[0]);
    assert("wav"@[0] != "pdf"@[0]);
    assert("flac"@[0] != "json"@[0]);
    assert("flac"@[0] != "yaml"@[0]);
    assert("flac"@[0] != "toml"@[0]);
    assert("flac"@[0] != "jpeg"@[0]);
    assert("flac"@[0] != "webp"@[0]);
    assert("flac"@[0] != "icns"@[0]);
    assert("flac"@[0] != "java"@[0]);
    assert("aac"@[0] != "txt"@[0]);
    assert("aac"@[0] != "log"@[0]);
    assert("aac"@[0] != "csv"@[0]);
    assert("aac"@[0] != "yml"@[0]);
    assert("aac"@[0] != "ini"@[0]);
    assert("aac"@[0] != "png"@[0]);
    assert("aac"@[0] != "jpg"@[0]);
    assert("aac"@[0] != "gif"@[0]);
    assert("aac"@[0] != "bmp"@[0]);
    assert("aac"@[0] != "svg"@[0]);
    assert("aac"@[0] != "ico"@[0]);
    assert("aac"@[0] != "zip"@[0]);
    assert("aac"@[0] != "tar"@[0]);
    assert("aac"@[0] != "tgz"@[0]);
    assert("aac"@[0] != "bz2"@[0]);
    assert("aac"@[0] != "rar"@[0]);
    assert("aac"@[0] != "dmg"@[0]);
    assert("aac"@[0] != "cpp"@[0]);
    assert("aac"@[0] != "zig"@[0]);
    assert("aac"@[0] != "pdf"@[0]);
    assert("m4a"@[0] != "txt"@[0]);
    assert("m4a"@[0] != "log"@[0]);
    assert("m4a"@[0] != "csv"@[0]);
    assert("m4a"@[0] != "yml"@[0]);
    assert("m4a"@[0] != "ini"@[0]);
    assert("m4a"@[0] != "png"@[0]);
    assert("m4a"@[0] != "jpg"@[0]);
    assert("m4a"@[0] != "gif"@[0]);
    assert("m4a"@[0] != "bmp"@[0]);
    assert("m4a"@[0] != "svg"@[0]);
    assert("m4a"@[0] != "ico"@[0]);
    assert("m4a"@[0] != "zip"@[0]);
    assert("m4a"@[0] != "tar"@[0]);
    assert("m4a"@[0] != "tgz"@[0]);
    assert("m4a"@[0] != "bz2"@[0]);
    assert("m4a"@[0] != "rar"@[0]);
    assert("m4a"@[0] != "dmg"@[0]);
    assert("m4a"@[0] != "cpp"@[0]);
    assert("m4a"@[0] != "zig"@[0]);
    assert("m4a"@[0] != "pdf"@[0]);
    assert("ogg"@[0] != "txt"@[0]);
    assert("ogg"@[0] != "log"@[0]);
    assert("ogg"@[0] != "csv"@[0]);
    assert("ogg"@[0] != "yml"@[0]);
    assert("ogg"@[0] != "ini"@[0]);
    assert("ogg"@[0] != "png"@[0]);
    assert("ogg"@[0] != "jpg"@[0]);
    assert("ogg"@[0] != "gif"@[0]);
    assert("ogg"@[0] != "bmp"@[0]);
    assert("ogg"@[0] != "svg"@[0]);
    assert("ogg"@[0] != "ico"@[0]);
    assert("ogg"@[0] != "zip"@[0]);
    assert("ogg"@[0] != "tar"@[0]);
    assert("ogg"@[0] != "tgz"@[0]);
    assert("ogg"@[0] != "bz2"@[0]);
    assert("ogg"@[0] != "rar"@[0]);
    assert("ogg"@[0] != "dmg"@[0]);
    assert("ogg"@[0] != "cpp"@[0]);
    assert("ogg"@[0] != "zig"@[0]);
    assert("ogg"@[0] != "pdf"@[0]);
    reveal_strlit("file-audio");
    assert("file-audio"@.len() == 10);
    reveal_strlit("file-text");
    assert("file-text"@.len() == 9);
    reveal_strlit("file-image");
    assert("file-audio"@[5] != "file-image"@[5]);
    reveal_strlit("file-archive");
    assert("file-archive"@.len() == 12);
    reveal_strlit("file-code");
    assert("file-code"@.len() == 9);
    reveal_strlit("file-pdf");
    assert("file-pdf"@.len() == 8);
}

/// The video extensions are in no group listed before theirs.
proof fn lemma_video_icons()
    ensures
        icon_of_ext("mp4"@) == "file-video"@,
        icon_of_ext("mov"@) == "file-video"@,
        icon_of_ext("mkv"@) == "file-video"@,
        icon_of_ext("avi"@) == "file-video"@,
        icon_of_ext("webm"@) == "file-video"@,
        kind_word("file-video"@) == "video"@,
{
    reveal_strlit("mp4");
    assert("mp4"@.len() == 3);
    reveal_strlit("mov");
    assert("mov"@.len() == 3);
    reveal_strlit("mkv");
    assert("mkv"@.len() == 3);
    reveal_strlit("avi");
    assert("avi"@.len() == 3);
    reveal_strlit("webm");
    assert("webm"@.len() == 4);
    reveal_strlit("txt");
    assert("txt"@.len() == 3);
    reveal_strlit("md");
    assert("md"@.len() == 2);
    reveal_strlit("log");
    assert("log"@.len() == 3);
    reveal_strlit("csv");
    assert("csv"@.len() == 3);
    reveal_strlit("json");
    assert("json"@.len() == 4);
    reveal_strlit("yaml");
    assert("yaml"@.len() == 4);
    reveal_strlit("yml");
    assert("yml"@.len() == 3);
    reveal_strlit("toml");
    assert("toml"@.len() == 4);
    reveal_strlit("ini");
    assert("ini"@.len() == 3);
    reveal_strlit("png");
    assert("png"@.len() == 3);
    reveal_strlit("jpg");
    assert("jpg"@.len() == 3);
    reveal_strlit("jpeg");
    assert("jpeg"@.len() == 4);
    reveal_strlit("gif");
    assert("gif"@.len() == 3);
    reveal_strlit("bmp");
    assert("bmp"@.len() == 3);
    reveal_strlit("webp");
    assert("webp"@.len() == 4);
    reveal_strlit("svg");
    assert("svg"@.len() == 3);
    reveal_strlit("icns");
    assert("icns"@.len() == 4);
    reveal_strlit("ico");
    assert("ico"@.len() == 3);
    reveal_strlit("zip");
    assert("zip"@.len() == 3);
    reveal_strlit("tar");
    assert("tar"@.len() == 3);
    reveal_strlit("gz");
    assert("gz"@.len() == 2);
    reveal_strlit("tgz");
    assert("tgz"@.len() == 3);
    reveal_strlit("bz2");
    assert("bz2"@.len() == 3);
    reveal_strlit("xz");
    assert("xz"@.len() == 2);
    reveal_strlit("7z");
    assert("7z"@.len() == 2);
    reveal_strlit("rar");
    assert("rar"@.len() == 3);
    reveal_strlit("dmg");
    assert("dmg"@.len() == 3);
    reveal_strlit("c");
    assert("c"@.len() == 1);
    reveal_strlit("h");
    assert("h"@.len() == 1);
    reveal_strlit("cpp");
    assert("cpp"@.len() == 3);
    reveal_strlit("go");
    assert("go"@.len() == 2);
    reveal_strlit("rs");
    assert("rs"@.len() == 2);
    reveal_strlit("py");
    assert("py"@.len() == 2);
    reveal_strlit("js");
    assert("js"@.len() == 2);
    reveal_strlit("ts");
    assert("ts"@.len() == 2);
    reveal_strlit("sh");
    assert("sh"@.len() == 2);
    reveal_strlit("zig");
    assert("zig"@.len() == 3);
    reveal_strlit("rb");
    assert("rb"@.len() == 2);
    reveal_strlit("java");
    assert("java"@.len() == 4);
    reveal_strlit("swift");
    assert("swift"@.len() == 5);
    reveal_strlit("m");
    assert("m"@.len() == 1);
    reveal_strlit("pdf");
    assert("pdf"@.len() == 3);
    reveal_strlit("mp3");
    assert("mp3"@.len() == 3);
    reveal_strlit("wav");
    assert("wav"@.len() == 3);
    reveal_strlit("flac");
    assert("flac"@.len() == 4);
    reveal_strlit("aac");
    assert("aac"@.len() == 3);
    reveal_strlit("m4a");
    assert("m4a"@.len() == 3);
    reveal_strlit("ogg");
    assert("ogg"@.len() == 3);
    assert("mp4"@[0] != "txt"@[0]);
    assert("mp4"@[0] != "log"@[0]);
    assert("mp4"@[0] != "csv"@[0]);
    assert("mp4"@[0] != "yml"@[0]);
    assert("mp4"@[0] != "ini"@[0]);
    assert("mp4"@[0] != "png"@[0]);
    assert("mp4"@[0] != "jpg"@[0]);
    assert("mp4"@[0] != "gif"@[0]);
    assert("mp4"@[0] != "bmp"@[0]);
    assert("mp4"@[0] != "svg"@[0]);
    assert("mp4"@[0] != "ico"@[0]);
    assert("mp4"@[0] != "zip"@[0]);
    assert("mp4"@[0] != "tar"@[0]);
    assert("mp4"@[0] != "tgz"@[0]);
    assert("mp4"@[0] != "bz2"@[0]);
    assert("mp4"@[0] != "rar"@[0]);
    assert("mp4"@[0] != "dmg"@[0]);
    assert("mp4"@[0] != "cpp"@[0]);
    assert("mp4"@[0] != "zig"@[0]);
    assert("mp4"@[0] != "pdf"@[0]);
    assert("mp4"@[2] != "mp3"@[2]);
    assert("mp4"@[0] != "wav"@[0]);
    assert("mp4"@[0] != "aac"@[0]);
    assert("mp4"@[1] != "m4a"@[1]);
    assert("mp4"@[0] != "ogg"@[0]);
    assert("mov"@[0] != "txt"@[0]);
    assert("mov"@[0] != "log"@[0]);
    assert("mov"@[0] != "csv"@[0]);
    assert("mov"@[0] != "yml"@[0]);
    assert("mov"@[0] != "ini"@[0]);
    assert("mov"@[0] != "png"@[0]);
    assert("mov"@[0] != "jpg"@[0]);
    assert("mov"@[0] != "gif"@[0]);
    assert("mov"@[0] != "bmp"@[0]);
    assert("mov"@[0] != "svg"@[0]);
    assert("mov"@[0] != "ico"@[0]);
    assert("mov"@[0] != "zip"@[0]);
    assert("mov"@[0] != "tar"@[0]);
    assert("mov"@[0] != "tgz"@[0]);
    assert("mov"@[0] != "bz2"@[0]);
    assert("mov"@[0] != "rar"@[0]);
    assert("mov"@[0] != "dmg"@[0]);
    assert("mov"@[0] != "cpp"@[0]);
    assert("mov"@[0] != "zig"@[0]);
    assert("mov"@[0] != "pdf"@[0]);
    assert("mov"@[1] != "mp3"@[1]);
    assert("mov"@[0] != "wav"@[0]);
    assert("mov"@[0] != "aac"@[0]);
    assert("mov"@[1] != "m4a"@[1]);
    assert("mov"@[0] != "ogg"@[0]);
    assert("mkv"@[0] != "txt"@[0]);
    assert("mkv"@[0] != "log"@[0]);
    assert("mkv"@[0] != "csv"@[0]);
    assert("mkv"@[0] != "yml"@[0]);
    assert("mkv"@[0] != "ini"@[0]);
    assert("mkv"@[0] != "png"@[0]);
    assert("mkv"@[0] != "jpg"@[0]);
    assert("mkv"@[0] != "gif"@[0]);
    assert("mkv"@[0] != "bmp"@[0]);
    assert("mkv"@[0] != "svg"@[0]);
    assert("mkv"@[0] != "ico"@[0]);
    assert("mkv"@[0] != "zip"@[0]);
    assert("mkv"@[0] != "tar"@[0]);
    assert("mkv"@[0] != "tgz"@[0]);
    assert("mkv"@[0] != "bz2"@[0]);
    assert("mkv"@[0] != "rar"@[0]);
    assert("mkv"@[0] != "dmg"@[0]);
    assert("mkv"@[0] != "cpp"@[0]);
    assert("mkv"@[0] != "zig"@[0]);
    assert("mkv"@[0] != "pdf"@[0]);
    assert("mkv"@[1] != "mp3"@[1]);
    assert("mkv"@[0] != "wav"@[0]);
    assert("mkv"@[0] != "aac"@[0]);
    assert("mkv"@[1] != "m4a"@[1]);
    assert("mkv"@[0] != "ogg"@[0]);
    assert("avi"@[0] != "txt"@[0]);
    assert("avi"@[0] != "log"@[0]);
    assert("avi"@[0] != "csv"@[0]);
    assert("avi"@[0] != "yml"@[0]);
    assert("avi"@[0] != "ini"@[0]);
    assert("avi"@[0] != "png"@[0]);
    assert("avi"@[0] != "jpg"@[0]);
    assert("avi"@[0] != "gif"@[0]);
    assert("avi"@[0] != "bmp"@[0]);
    assert("avi"@[0] != "svg"@[0]);
    assert("avi"@[0] != "ico"@[0]);
    assert("avi"@[0] != "zip"@[0]);
    assert("avi"@[0] != "tar"@[0]);
    assert("avi"@[0] != "tgz"@[0]);
    assert("avi"@[0] != "bz2"@[0]);
    assert("avi"@[0] != "rar"@[0]);
    assert("avi"@[0] != "dmg"@[0]);
    assert("avi"@[0] != "cpp"@[0]);
    assert("avi"@[0] != "zig"@[0]);
    assert("avi"@[0] != "pdf"@[0]);
    assert("avi"@[0] != "mp3"@[0]);
    assert("avi"@[0] != "wav"@[0]);
    assert("avi"@[1] != "aac"@[1]);
    assert("avi"@[0] != "m4a"@[0]);
    assert("avi"@[0] != "ogg"@[0]);
    assert("webm"@[0] != "json"@[0]);
    assert("webm"@[0] != "yaml"@[0]);
    assert("webm"@[0] != "toml"@[0]);
    assert("webm"@[0] != "jpeg"@[0]);
    assert("webm"@[3] != "webp"@[3]);
    assert("webm"@[0] != "icns"@[0]);
    assert("webm"@[0] != "java"@[0]);
    assert("webm"@[0] != "flac"@[0]);
    reveal_strlit("file-video");
    assert("file-video"@.len() == 10);
    reveal_strlit("file-text");
    assert("file-text"@.len() == 9);
    reveal_strlit("file-image");
    assert("file-video"@[5] != "file-image"@[5]);
    reveal_strlit("file-archive");
    assert("file-archive"@.len() == 12);
    reveal_strlit("file-code");
    assert("file-code"@.len() == 9);
    reveal_strlit("file-pdf");
    assert("file-pdf"@.len() == 8);
    reveal_strlit("file-audio");
    assert("file-video"@[5] != "file-audio"@[5]);
}

/// Each extension of a group gets that group's icon and kind word: text (txt md log csv json
/// yaml yml toml ini), images (png jpg jpeg gif bmp webp svg icns ico), archives (zip tar gz tgz
/// bz2 xz 7z rar dmg), source code (c h cpp go rs py js ts sh zig rb java swift m), PDF, audio
/// (mp3 wav flac aac m4a ogg) and video (mp4 mov mkv avi webm). Text and source code are the
/// text-like files, which the Inspector shows and the Librarian searches; the others are not.
pub proof fn law_extension_groups(e: Seq<char>)
    ensures
        (e == "csv"@ || e == "ini"@ || e == "json"@ || e == "log"@ || e == "md"@ || e == "toml"@ || e == "txt"@ || e == "yaml"@ || e == "yml"@) ==> icon_of_ext(e) == "file-text"@ && kind_word(icon_of_ext(e)) == "text document"@,
        (e == "bmp"@ || e == "gif"@ || e == "icns"@ || e == "ico"@ || e == "jpeg"@ || e == "jpg"@ || e == "png"@ || e == "svg"@ || e == "webp"@) ==> icon_of_ext(e) == "file-image"@ && kind_word(icon_of_ext(e)) == "image"@,
        (e == "7z"@ || e == "bz2"@ || e == "dmg"@ || e == "gz"@ || e == "rar"@ || e == "tar"@ || e == "tgz"@ || e == "xz"@ || e == "zip"@) ==> icon_of_ext(e) == "file-archive"@ && kind_word(icon_of_ext(e)) == "archive"@,
        (e == "c"@ || e == "cpp"@ || e == "go"@ || e == "h"@ || e == "java"@ || e == "js"@ || e == "m"@ || e == "py"@ || e == "rb"@ || e == "rs"@ || e == "sh"@ || e == "swift"@ || e == "ts"@ || e == "zig"@) ==> icon_of_ext(e) == "file-code"@ && kind_word(icon_of_ext(e)) == "source code"@,
        (e == "pdf"@) ==> icon_of_ext(e) == "file-pdf"@ && kind_word(icon_of_ext(e)) == "document"@,
        (e == "aac"@ || e == "flac"@ || e == "m4a"@ || e == "mp3"@ || e == "ogg"@ || e == "wav"@) ==> icon_of_ext(e) == "file-audio"@ && kind_word(icon_of_ext(e)) == "audio"@,
        (e == "avi"@ || e == "mkv"@ || e == "mov"@ || e == "mp4"@ || e == "webm"@) ==> icon_of_ext(e) == "file-video"@ && kind_word(icon_of_ext(e)) == "video"@,
        (e == "c"@ || e == "cpp"@ || e == "go"@ || e == "h"@ || e == "java"@ || e == "js"@ || e == "m"@ || e == "py"@ || e == "rb"@
            || e == "rs"@ || e == "sh"@ || e == "swift"@ || e == "ts"@ || e == "zig"@) ==> (icon_of_ext(e) == "file-text"@
            || icon_of_ext(e) == "file-code"@),
        (e == "png"@ || e == "zip"@ || e == "pdf"@ || e == "mp3"@ || e == "mp4"@) ==> !(icon_of_ext(e) == "file-text"@
            || icon_of_ext(e) == "file-code"@),
{
    lemma_text_icons();
    lemma_image_icons();
    lemma_archive_icons();
    lemma_code_icons();
    lemma_pdf_icons();
    lemma_audio_icons();
    lemma_video_icons();
    reveal_strlit("file-text");
    reveal_strlit("file-code");
    assert("file-code"@[5] != "file-text"@[5]);
    reveal_strlit("file-image");
    reveal_strlit("file-archive");
    reveal_strlit("file-pdf");
    reveal_strlit("file-audio");
    reveal_strlit("file-video");
    assert("file-image"@.len() == 10 && "file-archive"@.len() == 12 && "file-pdf"@.len() == 8);
    assert("file-audio"@.len() == 10 && "file-video"@.len() == 10 && "file-text"@.len() == 9);
}

fn is_text_ext(e: &[char]) -> (r: bool)
    ensures
        r == text_ext(e@),
{
    same(e, "txt") || same(e, "md") || same(e, "log") || same(e, "csv") || same(e, "json") || same(
        e,
        "yaml",
    ) || same(e, "yml") || same(e, "toml") || same(e, "ini")
}

fn is_image_ext(e: &[char]) -> (r: bool)
    ensures
        r == image_ext(e@),
{
    same(e, "png") || same(e, "jpg") || same(e, "jpeg") || same(e, "gif") || same(e, "bmp") || same(
        e,
        "webp",
    ) || same(e, "svg") || same(e, "icns") || same(e, "ico")
}

fn is_archive_ext(e: &[char]) -> (r: bool)
    ensures
        r == archive_ext(e@),
{
    same(e, "zip") || same(e, "tar") || same(e, "gz") || same(e, "tgz") || same(e, "bz2") || same(
        e,
        "xz",
    ) || same(e, "7z") || same(e, "rar") || same(e, "dmg")
}

fn is_code_ext(e: &[char]) -> (r: bool)
    ensures
        r == code_ext(e@),
{
    same(e, "c") || same(e, "h") || same(e, "cpp") || same(e, "go") || same(e, "rs") || same(e, "py")
        || same(e, "js") || same(e, "ts") || same(e, "sh") || same(e, "zig") || same(e, "rb") || same(
        e,
        "java",
    ) || same(e, "swift") || same(e, "m")
}

fn is_audio_ext(e: &[char]) -> (r: bool)
    ensures
        r == audio_ext(e@),
{
    same(e, "mp3") || same(e, "wav") || same(e, "flac") || same(e, "aac") || same(e, "m4a") || same(
        e,
        "ogg",
    )
}

fn is_video_ext(e: &[char]) -> (r: bool)
    ensures
        r == video_ext(e@),
{
    same(e, "mp4") || same(e, "mov") || same(e, "mkv") || same(e, "avi") || same(e, "webm")
}

fn is_app_ext(e: &[char]) -> (r: bool)
    ensures
        r == app_ext(e@),
{
    same(e, "app") || same(e, "exe") || same(e, "lnk")
}

fn icon_of(e: &[char]) -> (r: &'static str)
    ensures
        r@ == icon_of_ext(e@),
{
    if is_text_ext(e) {
        "file-text"
    } else if is_image_ext(e) {
        "file-image"
    } else if is_archive_ext(e) {
        "file-archive"
    } else if is_code_ext(e) {
        "file-code"
    } else if same(e, "pdf") {
        "file-pdf"
    } else if is_audio_ext(e) {
        "file-audio"
    } else if is_video_ext(e) {
        "file-video"
    } else if is_app_ext(e) {
        "application"
    } else {
        "file-generic"
    }
}

fn ext_chars(name: &str) -> (e: Vec<char>)
    ensures
        e@ == ext_spec(name@),
{
    let e = ext(name);
    chars_of(e.as_str())
}

pub fn file_icon(name: &str) -> (r: &'static str)
    ensures
        r@ == icon_of_ext(ext_spec(name@)),
{
    let e = ext_chars(name);
    icon_of(&e)
}

pub open spec fn icon_for_spec(name: Seq<char>, is_dir: bool, is_app: bool) -> Seq<char> {
    if is_dir {
        "folder"@
    } else if is_app {
        "application"@
    } else {
        icon_of_ext(ext_spec(name))
    }
}

/// 48×48 icon name for an entry.
pub fn icon_for(name: &str, is_dir: bool, is_app: bool) -> (r: &'static str)
    ensures
        r@ == icon_for_spec(name@, is_dir, is_app),
{
    if is_dir {
        "folder"
    } else if is_app {
        "application"
    } else {
        file_icon(name)
    }
}

/// The 16×16 variant of a 48×48 icon name; only some types have one.
pub open spec fn small_of(icon: Seq<char>) -> Seq<char> {
    if icon == "folder"@ {
        "folder-16"@
    } else if icon == "application"@ {
        "application-16"@
    } else if icon == "file-text"@ {
        "file-text-16"@
    } else if icon == "file-image"@ {
        "file-image-16"@
    } else if icon == "file-code"@ {
        "file-code-16"@
    } else {
        "file-generic-16"@
    }
}

/// A folder, an application, a text file, an image and a source file have 16×16 icons of their
/// own, named as the large icon with `-16` after it; the other files share the generic one.
/// Folders and applications get their icons whatever their names.
pub proof fn law_small_icons(name: Seq<char>, is_app: bool)
    ensures
        small_of("folder"@) == "folder"@ + "-16"@,
        small_of("application"@) == "application"@ + "-16"@,
        small_of("file-text"@) == "file-text"@ + "-16"@,
        small_of("file-image"@) == "file-image"@ + "-16"@,
        small_of("file-code"@) == "file-code"@ + "-16"@,
        small_of("file-archive"@) == "file-generic-16"@,
        icon_for_spec(name, true, is_app) == "folder"@,
        icon_for_spec(name, false, true) == "application"@,
{
    reveal_strlit("folder");
    reveal_strlit("application");
    reveal_strlit("file-text");
    reveal_strlit("file-image");
    reveal_strlit("file-code");
    reveal_strlit("file-archive");
    reveal_strlit("-16");
    reveal_strlit("folder-16");
    reveal_strlit("application-16");
    reveal_strlit("file-text-16");
    reveal_strlit("file-image-16");
    reveal_strlit("file-code-16");
    assert("folder"@.len() == 6 && "application"@.len() == 11 && "file-text"@.len() == 9);
    assert("file-image"@.len() == 10 && "file-code"@.len() == 9 && "file-archive"@.len() == 12);
    assert("file-code"@[5] != "file-text"@[5]);
    assert("folder"@ + "-16"@ =~= "folder-16"@);
    assert("application"@ + "-16"@ =~= "application-16"@);
    assert("file-text"@ + "-16"@ =~= "file-text-16"@);
    assert("file-image"@ + "-16"@ =~= "file-image-16"@);
    assert("file-code"@ + "-16"@ =~= "file-code-16"@);
}

/// 16×16 cell icon name.
pub fn small_icon_for(name: &str, is_dir: bool, is_app: bool) -> (r: &'static str)
    ensures
        r@ == small_of(icon_for_spec(name@, is_dir, is_app)),
{
    let i = chars_of(icon_for(name, is_dir, is_app));
    if same(&i, "folder") {
        "folder-16"
    } else if same(&i, "application") {
        "application-16"
    } else if same(&i, "file-text") {
        "file-text-16"
    } else if same(&i, "file-image") {
        "file-image-16"
    } else if same(&i, "file-code") {
        "file-code-16"
    } else {
        "file-generic-16"
    }
}

pub fn is_app_path(name: &str) -> (r: bool)
    ensures
        r == app_ext(ext_spec(name@)),
{
    let e = ext_chars(name);
    is_app_ext(&e)
}

/// The word after the upper-cased extension in a document's kind.
pub open spec fn kind_word(icon: Seq<char>) -> Seq<char> {
    if icon == "file-text"@ {
        "text document"@
    } else if icon == "file-image"@ {
        "image"@
    } else if icon == "file-archive"@ {
        "archive"@
    } else if icon == "file-code"@ {
        "source code"@
    } else if icon == "file-pdf"@ {
        "document"@
    } else if icon == "file-audio"@ {
        "audio"@
    } else if icon == "file-video"@ {
        "video"@
    } else {
        "file"@
    }
}

pub open spec fn kind_spec(name: Seq<char>, is_dir: bool, is_app: bool) -> Seq<char> {
    if is_dir {
        "Folder"@
    } else if is_app {
        "Application"@
    } else if ext_spec(name).len() == 0 {
        "Document"@
    } else {
        uppercase(ext_spec(name)) + " "@ + kind_word(icon_of_ext(ext_spec(name)))
    }
}

fn kind_word_of(icon: &[char]) -> (r: &'static str)
    ensures
        r@ == kind_word(icon@),
{
    if same(icon, "file-text") {
        "text document"
    } else if same(icon, "file-image") {
        "image"
    } else if same(icon, "file-archive") {
        "archive"
    } else if same(icon, "file-code") {
        "source code"
    } else if same(icon, "file-pdf") {
        "document"
    } else if same(icon, "file-audio") {
        "audio"
    } else if same(icon, "file-video") {
        "video"
    } else {
        "file"
    }
}

pub fn kind_for(name: &str, is_dir: bool, is_app: bool) -> (r: String)
    ensures
        r@ == kind_spec(name@, is_dir, is_app),
{
    if is_dir {
        return String::from_str("Folder");
    }
    if is_app {
        return String::from_str("Application");
    }
    let e = ext(name);
    if e.as_str().unicode_len() == 0 {
        return String::from_str("Document");
    }
    let icon = chars_of(file_icon(name));
    let mut out = to_upper(e.as_str());
    push_str(&mut out, " ");
    push_str(&mut out, kind_word_of(&icon));
    out
}

pub fn is_text_like(name: &str) -> (r: bool)
    ensures
        r == (icon_of_ext(ext_spec(name@)) == "file-text"@ || icon_of_ext(ext_spec(name@))
            == "file-code"@),
{
    let i = chars_of(file_icon(name));
    same(&i, "file-text") || same(&i, "file-code")
}

pub fn image_mime(name: &str) -> (r: bool)
    ensures
        r == (ext_spec(name@) == "png"@),
{
    let e = ext_chars(name);
    same(&e, "png")
}

// ---- path helpers for "/" and "C:\\" roots ------------------------------------------------------

pub open spec fn is_sep(c: char) -> bool {
    c == '/' || c == '\\'
}

/// `/`, or a drive root such as `C:\\`: an ASCII character, a colon and a backslash.
pub open spec fn root_spec(p: Seq<char>) -> bool {
    (p.len() == 1 && p[0] == '/') || (p.len() == 3 && (p[0] as u32) < 128 && p[1] == ':' && p[2]
        == '\\')
}

pub fn is_root(p: &str) -> (r: bool)
    ensures
        r == root_spec(p@),
{
    let v = chars_of(p);
    (v.len() == 1 && v[0] == '/') || (v.len() == 3 && (v[0] as u32) < 128 && v[1] == ':' && v[2]
        == '\\')
}

pub open spec fn sep_spec(p: Seq<char>) -> char {
    if p.contains('\\') && !p.contains('/') {
        '\\'
    } else {
        '/'
    }
}

fn has_char(v: &[char], c: char) -> (r: bool)
    ensures
        r == v@.contains(c),
{
    let mut i: usize = 0;
    while i < v.len()
        invariant
            i <= v@.len(),
            forall|j: int| 0 <= j < i ==> v@[j] != c,
        decreases v@.len() - i,
    {
        if v[i] == c {
            assert(v@[i as int] == c);
            return true;
        }
        i += 1;
    }
    false
}

fn sep_of(v: &[char]) -> (c: char)
    ensures
        c == sep_spec(v@),
{
    if has_char(v, '\\') && !has_char(v, '/') {
        '\\'
    } else {
        '/'
    }
}

pub fn sep(p: &str) -> (c: char)
    ensures
        c == sep_spec(p@),
{
    let v = chars_of(p);
    sep_of(&v)
}

/// `s` without its trailing separators.
pub open spec fn trim_end(s: Seq<char>) -> Seq<char>
    decreases s.len(),
{
    if s.len() > 0 && is_sep(s.last()) {
        trim_end(s.drop_last())
    } else {
        s
    }
}

pub proof fn lemma_trim_end(s: Seq<char>)
    ensures
        trim_end(s).len() <= s.len(),
        trim_end(s) == s.take(trim_end(s).len() as int),
        trim_end(s).len() > 0 ==> !is_sep(trim_end(s).last()),
    decreases s.len(),
{
    if s.len() > 0 && is_sep(s.last()) {
        lemma_trim_end(s.drop_last());
        assert(s.drop_last().take(trim_end(s).len() as int) == s.take(trim_end(s).len() as int));
    } else {
        assert(s.take(s.len() as int) == s);
    }
}

/// Index of the last separator in `s`, or -1.
pub open spec fn last_sep(s: Seq<char>) -> int
    decreases s.len(),
{
    if s.len() == 0 {
        -1
    } else if is_sep(s.last()) {
        s.len() - 1
    } else {
        last_sep(s.drop_last())
    }
}

proof fn lemma_last_sep(s: Seq<char>)
    ensures
        -1 <= last_sep(s) < s.len(),
        last_sep(s) >= 0 ==> is_sep(s[last_sep(s)]),
        forall|j: int| last_sep(s) < j < s.len() ==> !is_sep(s[j]),
    decreases s.len(),
{
    if s.len() > 0 && !is_sep(s.last()) {
        lemma_last_sep(s.drop_last());
        assert forall|j: int| last_sep(s) < j < s.len() implies !is_sep(s[j]) by {
            if j < s.len() - 1 {
                assert(s[j] == s.drop_last()[j]);
            }
        }
    }
}

fn trimmed(v: &[char]) -> (r: usize)
    ensures
        r == trim_end(v@).len(),
{
    proof {
        lemma_trim_end(v@);
    }
    let mut n = v.len();
    assert(v@.take(n as int) == v@);
    while n > 0 && (v[n - 1] == '/' || v[n - 1] == '\\')
        invariant
            n <= v@.len(),
            trim_end(v@) == trim_end(v@.take(n as int)),
        decreases n,
    {
        assert(v@.take(n as int).drop_last() == v@.take(n - 1));
        n -= 1;
    }
    assert(v@.take(n as int).len() == n);
    n
}

fn rfind_sep(v: &[char], n: usize) -> (r: Option<usize>)
    requires
        n <= v@.len(),
    ensures
        r matches Some(i) ==> i == last_sep(v@.take(n as int)),
        r is None ==> last_sep(v@.take(n as int)) == -1,
{
    let ghost t = v@.take(n as int);
    proof {
        lemma_last_sep(t);
    }
    let mut i = n;
    assert(t.take(i as int) == t);
    while i > 0
        invariant
            i <= n <= v@.len(),
            t == v@.take(n as int),
            forall|j: int| i <= j < n ==> !is_sep(v@[j]),
            last_sep(t) == last_sep(t.take(i as int)),
        decreases i,
    {
        assert(t.take(i as int).last() == v@[i - 1]);
        if v[i - 1] == '/' || v[i - 1] == '\\' {
            return Some(i - 1);
        }
        assert(t.take(i as int).drop_last() == t.take(i - 1));
        i -= 1;
    }
    None
}

/// The last path component, or the root itself.
pub open spec fn basename_spec(p: Seq<char>) -> Seq<char> {
    if root_spec(p) {
        p
    } else {
        let t = trim_end(p);
        t.subrange(last_sep(t) + 1, t.len() as int)
    }
}

pub fn basename(p: &str) -> (r: String)
    ensures
        r@ == basename_spec(p@),
{
    if is_root(p) {
        return String::from_str(p);
    }
    let v = chars_of(p);
    let n = trimmed(&v);
    proof {
        lemma_trim_end(v@);
        lemma_last_sep(v@.take(n as int));
    }
    let start = match rfind_sep(&v, n) {
        Some(i) => i + 1,
        None => 0,
    };
    let r = string_of(&slice_vec(&v, start, n));
    assert(v@.take(n as int).subrange(start as int, n as int) == v@.subrange(start as int, n as int));
    r
}

/// UTF-8 width of a character.
pub open spec fn width(c: char) -> int {
    if (c as u32) < 0x80 {
        1
    } else if (c as u32) < 0x800 {
        2
    } else if (c as u32) < 0x10000 {
        3
    } else {
        4
    }
}

/// UTF-8 length of a character sequence.
pub open spec fn byte_len(s: Seq<char>) -> int
    decreases s.len(),
{
    if s.len() == 0 {
        0
    } else {
        byte_len(s.drop_last()) + width(s.last())
    }
}

/// The number of characters that make exactly `n` bytes, scanning from character `j`; -1 when
/// byte `n` falls inside a character or past the end.
pub open spec fn chars_for_bytes_from(t: Seq<char>, n: int, j: int) -> int
    decreases t.len() - j,
{
    if j < 0 || j > t.len() {
        -1
    } else if byte_len(t.take(j)) == n {
        j
    } else if byte_len(t.take(j)) > n || j == t.len() {
        -1
    } else {
        chars_for_bytes_from(t, n, j + 1)
    }
}

pub open spec fn chars_for_bytes(t: Seq<char>, n: int) -> int {
    chars_for_bytes_from(t, n, 0)
}

fn char_width(c: char) -> (w: usize)
    ensures
        w == width(c),
{
    let u = c as u32;
    if u < 0x80 {
        1
    } else if u < 0x800 {
        2
    } else if u < 0x10000 {
        3
    } else {
        4
    }
}

proof fn lemma_byte_len_step(t: Seq<char>, j: int)
    requires
        0 <= j < t.len(),
    ensures
        byte_len(t.take(j + 1)) == byte_len(t.take(j)) + width(t[j]),
{
    assert(t.take(j + 1).drop_last() == t.take(j));
}

proof fn lemma_byte_len_mono(t: Seq<char>, j: int, k: int)
    requires
        0 <= j <= k <= t.len(),
    ensures
        byte_len(t.take(j)) <= byte_len(t.take(k)),
    decreases k - j,
{
    if j < k {
        lemma_byte_len_step(t, k - 1);
        lemma_byte_len_mono(t, j, k - 1);
    }
}

/// Whether the first `k` characters of `v` take at most `n` bytes.
fn prefix_fits(v: &[char], k: usize, n: usize) -> (r: bool)
    requires
        k <= v@.len(),
        n <= 8,
    ensures
        r == (byte_len(v@.take(k as int)) <= n),
{
    let mut b: usize = 0;
    let mut j: usize = 0;
    while j < k
        invariant
            j <= k <= v@.len(),
            b == byte_len(v@.take(j as int)),
            b <= n,
            n <= 8,
        decreases k - j,
    {
        proof {
            lemma_byte_len_step(v@, j as int);
        }
        let w = char_width(v[j]);
        assert(w <= 4);
        b = b + w;
        j += 1;
        if b > n {
            proof {
                lemma_byte_len_mono(v@, j as int, k as int);
            }
            return false;
        }
    }
    true
}

/// `chars_for_bytes(v[..m], n)` for a small `n`.
fn chars_for(v: &[char], m: usize, n: usize) -> (r: Option<usize>)
    requires
        m <= v@.len(),
        n <= 8,
    ensures
        r matches Some(j) ==> j as int == chars_for_bytes(v@.take(m as int), n as int) && j <= m,
        r is None ==> chars_for_bytes(v@.take(m as int), n as int) == -1,
{
    let ghost t = v@.take(m as int);
    let mut b: usize = 0;
    let mut j: usize = 0;
    loop
        invariant
            j <= m <= v@.len(),
            t == v@.take(m as int),
            b == byte_len(t.take(j as int)),
            b <= n,
            n <= 8,
            chars_for_bytes(t, n as int) == chars_for_bytes_from(t, n as int, j as int),
        decreases m - j,
    {
        if b == n {
            return Some(j);
        }
        if j == m {
            return None;
        }
        proof {
            lemma_byte_len_step(t, j as int);
        }
        let w = char_width(v[j]);
        assert(w <= 4);
        b = b + w;
        j += 1;
        if b > n {
            assert(chars_for_bytes_from(t, n as int, j as int) == -1);
            return None;
        }
    }
}

/// The parent directory. A backslash path whose last separator sits within its first three bytes
/// keeps its first three bytes (the drive root).
pub open spec fn dirname_spec(p: Seq<char>) -> Option<Seq<char>> {
    let t = trim_end(p);
    let k = last_sep(t);
    if root_spec(p) || k < 0 {
        None
    } else if sep_spec(p) == '\\' {
        if byte_len(t.take(k)) <= 2 {
            Some(t.take(chars_for_bytes(t, 3)))
        } else {
            Some(t.take(k))
        }
    } else if k == 0 {
        Some(seq!['/'])
    } else {
        Some(t.take(k))
    }
}

/// The inputs on which `dirname` can cut its drive root: byte 3 of the trimmed path ends a character.
pub open spec fn dirname_ok(p: Seq<char>) -> bool {
    let t = trim_end(p);
    let k = last_sep(t);
    !(!root_spec(p) && k >= 0 && sep_spec(p) == '\\' && byte_len(t.take(k)) <= 2
        && chars_for_bytes(t, 3) < 0)
}

fn dirname_chars(v: &[char]) -> (r: Option<Vec<char>>)
    requires
        dirname_ok(v@),
    ensures
        r matches Some(d) ==> dirname_spec(v@) == Some(d@),
        r is None ==> dirname_spec(v@) is None,
{
    if (v.len() == 1 && v[0] == '/') || (v.len() == 3 && (v[0] as u32) < 128 && v[1] == ':' && v[2]
        == '\\') {
        return None;
    }
    let n = trimmed(&v);
    proof {
        lemma_trim_end(v@);
        lemma_last_sep(v@.take(n as int));
    }
    let ghost t = v@.take(n as int);
    assert(t == trim_end(v@));
    let i = match rfind_sep(&v, n) {
        Some(i) => i,
        None => return None,
    };
    assert(t.take(i as int) == v@.take(i as int));
    if sep_of(&v) == '\\' {
        if prefix_fits(&v, i, 2) {
            match chars_for(&v, n, 3) {
                Some(j) => {
                    assert(t.take(j as int) == v@.take(j as int));
                    Some(slice_vec(&v, 0, j))
                },
                None => {
                    assert(false);
                    None
                },
            }
        } else {
            Some(slice_vec(&v, 0, i))
        }
    } else if i == 0 {
        let mut d: Vec<char> = Vec::new();
        d.push('/');
        Some(d)
    } else {
        Some(slice_vec(&v, 0, i))
    }
}

pub fn dirname(p: &str) -> (r: Option<String>)
    requires
        dirname_ok(p@),
    ensures
        r matches Some(d) ==> dirname_spec(p@) == Some(d@),
        r is None ==> dirname_spec(p@) is None,
{
    let v = chars_of(p);
    match dirname_chars(&v) {
        Some(d) => Some(string_of(&d)),
        None => None,
    }
}

pub open spec fn join_spec(dir: Seq<char>, name: Seq<char>) -> Seq<char> {
    if root_spec(dir) {
        dir + name
    } else {
        dir + seq![sep_spec(dir)] + name
    }
}

pub fn join(dir: &str, name: &str) -> (r: String)
    ensures
        r@ == join_spec(dir@, name@),
{
    let mut out = String::from_str(dir);
    if !is_root(dir) {
        let v = chars_of(dir);
        let mut s = String::new();
        push_char(&mut s, sep_of(&v));
        push_str(&mut out, s.as_str());
    }
    push_str(&mut out, name);
    out
}

/// `p`, its parent, its parent's parent, … up to the root, as long as each step shortens the path.
pub open spec fn chain(p: Seq<char>) -> Seq<Seq<char>>
    decreases p.len(),
{
    match dirname_spec(p) {
        Some(d) => if d.len() < p.len() {
            seq![p] + chain(d)
        } else {
            seq![p]
        },
        None => seq![p],
    }
}

/// Walking up from `p` never cuts a character and reaches a path without a parent.
pub open spec fn chain_ends(p: Seq<char>) -> bool
    decreases p.len(),
{
    dirname_ok(p) && match dirname_spec(p) {
        Some(d) => d.len() < p.len() && chain_ends(d),
        None => true,
    }
}

pub open spec fn opt_view(o: Option<String>) -> Option<Seq<char>> {
    match o {
        Some(s) => Some(s@),
        None => None,
    }
}

/// What each Browser column lists to reach `p`: the root first and `p` last; on Windows a first
/// `None` stands for the synthetic "Computer" column.
pub open spec fn ancestors_spec(p: Seq<char>, windows: bool) -> Seq<Option<Seq<char>>> {
    let a = chain(p).reverse().map_values(|s: Seq<char>| Some(s));
    if windows {
        seq![None] + a
    } else {
        a
    }
}

pub fn ancestors(p: &str, windows: bool) -> (r: Vec<Option<String>>)
    requires
        chain_ends(p@),
    ensures
        r@.map_values(|o: Option<String>| opt_view(o)) == ancestors_spec(p@, windows),
{
    let mut walk: Vec<String> = Vec::new();
    let mut cur: Option<String> = Some(String::from_str(p));
    loop
        invariant
            cur matches Some(c) ==> chain_ends(c@) && chain(p@) == walk@.map_values(
                |s: String| s@,
            ) + chain(c@),
            cur is None ==> chain(p@) == walk@.map_values(|s: String| s@),
        ensures
            chain(p@) == walk@.map_values(|s: String| s@),
        decreases (match cur {
            Some(c) => c@.len() + 1,
            None => 0,
        }),
    {
        match cur {
            Some(c) => {
                let ghost cv = c@;
                let next = dirname(c.as_str());
                let ghost w0 = walk@;
                walk.push(c);
                assert(walk@.map_values(|s: String| s@) == w0.map_values(|s: String| s@).push(cv));
                match &next {
                    Some(d) => {
                        assert(chain(cv) == seq![cv] + chain(d@));
                    },
                    None => {
                        assert(chain(cv) == seq![cv]);
                    },
                }
                cur = next;
            },
            None => break,
        }
    }
    let ghost full = walk@.map_values(|s: String| s@);
    let mut out: Vec<Option<String>> = Vec::new();
    if windows {
        out.push(None);
    }
    let ghost base = out@.map_values(|o: Option<String>| opt_view(o));
    while walk.len() > 0
        invariant
            walk@.len() <= full.len(),
            walk@.map_values(|s: String| s@) == full.take(walk@.len() as int),
            out@.map_values(|o: Option<String>| opt_view(o)) == base + full.skip(walk@.len() as int).reverse().map_values(
                |s: Seq<char>| Some(s),
            ),
        decreases walk@.len(),
    {
        let ghost n = walk@.len();
        let ghost o0 = out@;
        let ghost w0 = walk@;
        assert(w0.map_values(|s: String| s@)[n - 1] == w0[n - 1]@);
        let s = walk.pop().unwrap();
        assert(s@ == full[n - 1]);
        out.push(Some(s));
        assert(walk@.map_values(|s: String| s@) == full.take(n - 1));
        assert(full.skip(n - 1).reverse() == full.skip(n as int).reverse().push(full[n - 1]));
        assert(out@.map_values(|o: Option<String>| opt_view(o)) == o0.map_values(|o: Option<String>| opt_view(o)).push(Some(full[n - 1])));
    }
    assert(full.skip(0) == full);
    assert(full == chain(p@));
    if windows {
        assert(base == seq![None::<Seq<char>>]);
    } else {
        assert(base == Seq::<Option<Seq<char>>>::empty());
    }
    out
}

// ---- laws ----------------------------------------------------------------------------------------

pub open spec fn no_seps(s: Seq<char>) -> bool {
    forall|i: int| 0 <= i < s.len() ==> !is_sep(#[trigger] s[i])
}

proof fn lemma_last_sep_append(a: Seq<char>, b: Seq<char>)
    requires
        no_seps(b),
    ensures
        last_sep(a + b) == last_sep(a),
    decreases b.len(),
{
    if b.len() > 0 {
        assert((a + b).last() == b.last());
        assert((a + b).drop_last() == a + b.drop_last());
        lemma_last_sep_append(a, b.drop_last());
    } else {
        assert(a + b == a);
    }
}

/// The joined path, seen as `dir`, one separator character (or none after a root), and `name`.
proof fn lemma_join_shape(dir: Seq<char>, name: Seq<char>)
    requires
        name.len() > 0,
        no_seps(name),
        root_spec(dir) || (dir.len() > 0 && !is_sep(dir.last())),
    ensures
        ({
            let j = join_spec(dir, name);
            let k = last_sep(j);
            &&& !root_spec(j)
            &&& trim_end(j) == j
            &&& k == (if root_spec(dir) { dir.len() - 1 } else { dir.len() as int })
            &&& j.take(k) == (if root_spec(dir) { dir.take(dir.len() - 1) } else { dir })
            &&& j.subrange(k + 1, j.len() as int) == name
            &&& sep_spec(j) == sep_spec(dir)
        }),
{
    let j = join_spec(dir, name);
    assert(j.last() == name.last());
    assert(!is_sep(name[name.len() - 1]));
    let head = if root_spec(dir) { dir } else { dir + seq![sep_spec(dir)] };
    assert(j == head + name);
    lemma_last_sep_append(head, name);
    assert(head.last() == (if root_spec(dir) { dir.last() } else { sep_spec(dir) }));
    assert(is_sep(head.last()));
    assert(last_sep(head) == head.len() - 1);
    assert(j.subrange(head.len() as int, j.len() as int) == name);
    if root_spec(dir) {
        assert(j.take(head.len() - 1) == dir.take(dir.len() - 1));
    } else {
        assert(j.take(head.len() - 1) == dir);
    }
    assert(!name.contains('/') && !name.contains('\\')) by {
        if name.contains('/') {
            let i = choose|i: int| 0 <= i < name.len() && name[i] == '/';
            assert(!is_sep(name[i]));
        }
        if name.contains('\\') {
            let i = choose|i: int| 0 <= i < name.len() && name[i] == '\\';
            assert(!is_sep(name[i]));
        }
    }
    assert(j.contains('/') == head.contains('/')) by {
        if j.contains('/') {
            let i = choose|i: int| 0 <= i < j.len() && j[i] == '/';
            if i >= head.len() {
                assert(name[i - head.len()] == '/');
            } else {
                assert(head[i] == '/');
            }
        }
        if head.contains('/') {
            let i = choose|i: int| 0 <= i < head.len() && head[i] == '/';
            assert(j[i] == '/');
        }
    }
    assert(j.contains('\\') == head.contains('\\')) by {
        if j.contains('\\') {
            let i = choose|i: int| 0 <= i < j.len() && j[i] == '\\';
            if i >= head.len() {
                assert(name[i - head.len()] == '\\');
            } else {
                assert(head[i] == '\\');
            }
        }
        if head.contains('\\') {
            let i = choose|i: int| 0 <= i < head.len() && head[i] == '\\';
            assert(j[i] == '\\');
        }
    }
    if !root_spec(dir) {
        let c = sep_spec(dir);
        assert(head[dir.len() as int] == c);
        assert(dir.contains('/') ==> head.contains('/')) by {
            if dir.contains('/') {
                let i = choose|i: int| 0 <= i < dir.len() && dir[i] == '/';
                assert(head[i] == '/');
            }
        }
        assert(dir.contains('\\') ==> head.contains('\\')) by {
            if dir.contains('\\') {
                let i = choose|i: int| 0 <= i < dir.len() && dir[i] == '\\';
                assert(head[i] == '\\');
            }
        }
        assert(head.contains('/') ==> dir.contains('/') || c == '/') by {
            if head.contains('/') {
                let i = choose|i: int| 0 <= i < head.len() && head[i] == '/';
                if i < dir.len() {
                    assert(dir[i] == '/');
                }
            }
        }
        assert(head.contains('\\') ==> dir.contains('\\') || c == '\\') by {
            if head.contains('\\') {
                let i = choose|i: int| 0 <= i < head.len() && head[i] == '\\';
                if i < dir.len() {
                    assert(dir[i] == '\\');
                }
            }
        }
        assert(head.contains(c));
    }
}

/// The name given to `join` is what `basename` gives back, when it is one non-empty component.
pub proof fn law_basename_of_join(dir: Seq<char>, name: Seq<char>)
    requires
        name.len() > 0,
        no_seps(name),
        root_spec(dir) || (dir.len() > 0 && !is_sep(dir.last())),
    ensures
        basename_spec(join_spec(dir, name)) == name,
{
    lemma_join_shape(dir, name);
}

/// `dirname` undoes `join`: the parent of `dir` joined with a plain name is `dir` again, for a root
/// or for a directory without a trailing separator whose backslash form is longer than a drive name.
pub proof fn law_dirname_of_join(dir: Seq<char>, name: Seq<char>)
    requires
        name.len() > 0,
        no_seps(name),
        (root_spec(dir) && (dir.len() == 1 || sep_spec(dir) == '\\')) || (dir.len() > 0 && !is_sep(
            dir.last(),
        ) && (sep_spec(dir) == '/' || byte_len(dir) > 2)),
    ensures
        dirname_spec(join_spec(dir, name)) == Some(dir),
{
    lemma_join_shape(dir, name);
    let j = join_spec(dir, name);
    let k = last_sep(j);
    if root_spec(dir) {
        if dir.len() == 1 {
            assert(dir == seq!['/']);
            assert(j.contains('/')) by {
                assert(j[0] == '/');
            }
        } else {
            assert(j[0] == dir[0] && j[1] == ':' && j[2] == '\\');
            assert(sep_spec(j) == '\\');
            assert(j.take(2) == dir.take(2));
            lemma_byte_len_step(j, 0);
            lemma_byte_len_step(j, 1);
            lemma_byte_len_step(j, 2);
            assert(j.take(0).len() == 0);
            assert(byte_len(j.take(2)) == 2);
            assert(byte_len(j.take(3)) == 3);
            assert(chars_for_bytes_from(j, 3, 3) == 3);
            assert(chars_for_bytes_from(j, 3, 2) == 3);
            assert(chars_for_bytes_from(j, 3, 1) == 3);
            assert(chars_for_bytes(j, 3) == 3);
            assert(j.take(3) == dir);
        }
    } else {
        assert(j.take(k) == dir);
        assert(k == dir.len());
        assert(trim_end(j) == j);
        if sep_spec(j) == '\\' {
            assert(byte_len(j.take(k)) > 2);
            assert(dirname_spec(j) == Some(j.take(k)));
        } else {
            assert(k != 0);
            assert(dirname_spec(j) == Some(j.take(k)));
        }
    }
}

/// A path made of a folder and a plain name splits back into that folder and that name, and
/// joining its parent folder with its base name gives the path back.
pub proof fn law_join_dirname_basename(dir: Seq<char>, name: Seq<char>)
    requires
        name.len() > 0,
        no_seps(name),
        (root_spec(dir) && (dir.len() == 1 || sep_spec(dir) == '\\')) || (dir.len() > 0 && !is_sep(
            dir.last(),
        ) && (sep_spec(dir) == '/' || byte_len(dir) > 2)),
    ensures
        dirname_spec(join_spec(dir, name)) == Some(dir),
        basename_spec(join_spec(dir, name)) == name,
        join_spec(dirname_spec(join_spec(dir, name))->0, basename_spec(join_spec(dir, name))) == join_spec(dir, name),
{
    law_dirname_of_join(dir, name);
    law_basename_of_join(dir, name);
}

/// A Unix path below the root, without a trailing `/` or an empty component, is its parent
/// folder joined with its base name.
pub proof fn law_unix_path_splits_and_joins(p: Seq<char>)
    requires
        p.len() > 1,
        p[0] == '/',
        !p.contains('\\'),
        p.last() != '/',
        forall|i: int| 0 <= i < p.len() - 1 && p[i] == '/' ==> #[trigger] p[i + 1] != '/',
    ensures
        dirname_spec(p) is Some,
        join_spec(dirname_spec(p)->0, basename_spec(p)) == p,
{
    lemma_last_sep(p);
    let k = last_sep(p);
    assert(is_sep(p[0]));
    assert(k >= 0) by {
        if k < 0 {
            assert(!is_sep(p[0]));
        }
    }
    assert(p[k] == '/') by {
        if p[k] == '\\' {
            assert(p.contains('\\'));
        }
    }
    assert(!is_sep(p.last()));
    assert(trim_end(p) == p);
    assert(!root_spec(p));
    assert(sep_spec(p) == '/');
    let name = p.subrange(k + 1, p.len() as int);
    assert(basename_spec(p) == name);
    if k == 0 {
        assert(dirname_spec(p) == Some(seq!['/']));
        assert(root_spec(seq!['/']));
        assert(seq!['/'] + name =~= p);
    } else {
        let d = p.take(k);
        assert(dirname_spec(p) == Some(d));
        assert(p[k - 1] != '/') by {
            if p[k - 1] == '/' {
                let i = k - 1;
                assert(0 <= i < p.len() - 1 && p[i] == '/');
                assert(p[i + 1] != '/');
            }
        }
        assert(!root_spec(d)) by {
            if d.len() == 1 {
                assert(d[0] == '/');
                assert(p[0] == '/' && k == 1);
                assert(p[k - 1] == '/');
            } else if d.len() == 3 {
                assert(d[2] == p[2]);
            }
        }
        assert(!d.contains('\\')) by {
            if d.contains('\\') {
                let j = choose|j: int| 0 <= j < d.len() && d[j] == '\\';
                assert(p[j] == '\\');
                assert(p.contains('\\'));
            }
        }
        assert(sep_spec(d) == '/');
        assert(d + seq!['/'] + name =~= p);
    }
}

/// A drive path below its root (`C:\\Users\\me`: an ASCII drive letter, a colon, then
/// backslash-separated components, none empty, no trailing backslash and no `/`) is its parent
/// folder joined with its base name.
pub proof fn law_drive_path_splits_and_joins(p: Seq<char>)
    requires
        p.len() > 3,
        (p[0] as u32) < 128,
        p[1] == ':',
        p[2] == '\\',
        !p.contains('/'),
        p.last() != '\\',
        forall|i: int| 0 <= i < p.len() - 1 && p[i] == '\\' ==> #[trigger] p[i + 1] != '\\',
    ensures
        dirname_spec(p) is Some,
        join_spec(dirname_spec(p)->0, basename_spec(p)) == p,
{
    lemma_last_sep(p);
    let k = last_sep(p);
    assert(is_sep(p[2]));
    assert(k >= 2);
    assert(k < p.len() - 1) by {
        if k == p.len() - 1 {
            assert(is_sep(p.last()));
            assert(p.last() == '/') by {
                if p.last() != '/' {
                    assert(p.last() == '\\');
                }
            }
            assert(p.contains('/'));
        }
    }
    let name = p.subrange(k + 1, p.len() as int);
    assert(no_seps(name)) by {
        assert forall|i: int| 0 <= i < name.len() implies !is_sep(#[trigger] name[i]) by {
            assert(name[i] == p[k + 1 + i]);
        }
    }
    if k == 2 {
        let dir = p.take(3);
        assert(root_spec(dir));
        assert(dir.contains('\\')) by {
            assert(dir[2] == '\\');
        }
        assert(!dir.contains('/')) by {
            if dir.contains('/') {
                let j = choose|j: int| 0 <= j < dir.len() && dir[j] == '/';
                assert(p[j] == '/');
                assert(p.contains('/'));
            }
        }
        assert(sep_spec(dir) == '\\');
        assert(join_spec(dir, name) =~= p);
        law_join_dirname_basename(dir, name);
    } else {
        let dir = p.take(k);
        assert(p[k] == '\\') by {
            if p[k] == '/' {
                assert(p.contains('/'));
            }
        }
        assert(p[k - 1] != '\\') by {
            if p[k - 1] == '\\' {
                let i = k - 1;
                assert(0 <= i < p.len() - 1 && p[i] == '\\');
                assert(p[i + 1] != '\\');
            }
        }
        assert(p[k - 1] != '/') by {
            if p[k - 1] == '/' {
                assert(p.contains('/'));
            }
        }
        assert(dir.last() == p[k - 1]);
        assert(!is_sep(dir.last()));
        assert(!root_spec(dir)) by {
            if dir.len() == 3 {
                assert(dir[2] == p[2]);
            }
        }
        assert(dir.contains('\\')) by {
            assert(dir[2] == '\\');
        }
        assert(!dir.contains('/')) by {
            if dir.contains('/') {
                let j = choose|j: int| 0 <= j < dir.len() && dir[j] == '/';
                assert(p[j] == '/');
                assert(p.contains('/'));
            }
        }
        assert(sep_spec(dir) == '\\');
        assert(byte_len(dir) > 2) by {
            lemma_byte_len_step(p, 0);
            lemma_byte_len_step(p, 1);
            lemma_byte_len_step(p, 2);
            assert(p.take(0).len() == 0);
            lemma_byte_len_mono(p, 3, k);
            assert(p.take(k) == dir);
        }
        assert(join_spec(dir, name) =~= p);
        law_join_dirname_basename(dir, name);
    }
}

/// The path list of the Browser starts at a root (or "Computer") and ends at the path itself.
pub proof fn law_ancestors_end_at_path(p: Seq<char>, windows: bool)
    ensures
        ancestors_spec(p, windows).len() >= 1,
        ancestors_spec(p, windows).last() == Some(p),
        windows ==> ancestors_spec(p, windows)[0] is None,
{
    lemma_chain_first(p);
    let a = chain(p).reverse().map_values(|s: Seq<char>| Some(s));
    assert(a.last() == Some(chain(p)[0]));
    if windows {
        assert((seq![None] + a).last() == a.last());
    }
}

proof fn lemma_chain_first(p: Seq<char>)
    ensures
        chain(p).len() >= 1,
        chain(p)[0] == p,
{
    match dirname_spec(p) {
        Some(d) => {
            if d.len() < p.len() {
                assert((seq![p] + chain(d))[0] == p);
            }
        },
        None => {},
    }
}

} // verus!
