//! Attached files: the media type that goes with a file name, and the name
//! under which an uploaded file is kept.

use vstd::prelude::*;
use crate::trusted::{extension_of, random_id, unix_now};
use crate::text::{decimal, decimal_text, occurs_at, same_text, starts_with};

verus! {

/// The media type that goes with a file name extension; the type of
/// arbitrary bytes where there is no extension or it is not a known one.
/// Extensions are told apart by case: only the lower-case forms are known.
pub open spec fn mime_of(extension: Option<Seq<char>>) -> Seq<char> {
    match extension {
        Some(e) => {
            if e == "jpg"@ || e == "jpeg"@ {
                "image/jpeg"@
            } else if e == "png"@ {
                "image/png"@
            } else if e == "gif"@ {
                "image/gif"@
            } else if e == "webp"@ {
                "image/webp"@
            } else if e == "svg"@ {
                "image/svg+xml"@
            } else if e == "mp4"@ {
                "video/mp4"@
            } else if e == "webm"@ {
                "video/webm"@
            } else if e == "mov"@ {
                "video/quicktime"@
            } else if e == "mp3"@ {
                "audio/mpeg"@
            } else if e == "wav"@ {
                "audio/wav"@
            } else if e == "ogg"@ {
                "audio/ogg"@
            } else if e == "pdf"@ {
                "application/pdf"@
            } else if e == "doc"@ || e == "docx"@ {
                "application/msword"@
            } else if e == "xls"@ || e == "xlsx"@ {
                "application/vnd.ms-excel"@
            } else if e == "txt"@ {
                "text/plain"@
            } else if e == "json"@ {
                "application/json"@
            } else if e == "zip"@ {
                "application/zip"@
            } else {
                "application/octet-stream"@
            }
        },
        None => "application/octet-stream"@,
    }
}

/// What an optional text holds.
pub open spec fn optional_text(text: Option<&str>) -> Option<Seq<char>> {
    match text {
        Some(t) => Some(t@),
        None => None,
    }
}

/// The media type that goes with a file name extension.
pub fn mime_for_extension(extension: Option<&str>) -> (r: String)
    ensures
        r@ == mime_of(optional_text(extension)),
{
    let e = match extension {
        Some(e) => e,
        None => {
            return "application/octet-stream".to_owned();
        },
    };
    let found = if same_text(e, "jpg") || same_text(e, "jpeg") {
        "image/jpeg"
    } else if same_text(e, "png") {
        "image/png"
    } else if same_text(e, "gif") {
        "image/gif"
    } else if same_text(e, "webp") {
        "image/webp"
    } else if same_text(e, "svg") {
        "image/svg+xml"
    } else if same_text(e, "mp4") {
        "video/mp4"
    } else if same_text(e, "webm") {
        "video/webm"
    } else if same_text(e, "mov") {
        "video/quicktime"
    } else if same_text(e, "mp3") {
        "audio/mpeg"
    } else if same_text(e, "wav") {
        "audio/wav"
    } else if same_text(e, "ogg") {
        "audio/ogg"
    } else if same_text(e, "pdf") {
        "application/pdf"
    } else if same_text(e, "doc") || same_text(e, "docx") {
        "application/msword"
    } else if same_text(e, "xls") || same_text(e, "xlsx") {
        "application/vnd.ms-excel"
    } else if same_text(e, "txt") {
        "text/plain"
    } else if same_text(e, "json") {
        "application/json"
    } else if same_text(e, "zip") {
        "application/zip"
    } else {
        "application/octet-stream"
    };
    found.to_owned()
}

/// The media type of a file, told from the extension of its path. Whatever
/// extension the path is found to have, the result is the type that goes with
/// it.
pub fn get_mime_type(file_path: String) -> (r: String)
    ensures
        exists|extension: Option<Seq<char>>| r@ == #[trigger] mime_of(extension),
{
    let extension = extension_of(file_path.as_str());
    let r = match &extension {
        Some(e) => mime_for_extension(Some(e.as_str())),
        None => mime_for_extension(None),
    };
    assert(r@ == mime_of(extension.deep_view()));
    r
}

/// Whether the place of an attached file is a file of this machine, to be
/// removed with its record, and no address on the web: it does not begin
/// with `http`.
pub fn is_local_file(file_path: &str) -> (r: bool)
    ensures
        r == !occurs_at("http"@, file_path@, 0),
{
    !starts_with(file_path, "http")
}

/// The name under which an uploaded file is kept: the time of the upload, a
/// token and the extension of the file's own name, or `bin` where it has none.
pub open spec fn stored_name(stamp: int, token: Seq<char>, extension: Option<Seq<char>>) -> Seq<
    char,
> {
    let suffix = match extension {
        Some(e) => e,
        None => "bin"@,
    };
    decimal(stamp) + "_"@ + token + "."@ + suffix
}

/// The name under which a file uploaded at `stamp` is kept.
pub fn stored_name_for(stamp: i64, token: &str, extension: Option<&str>) -> (r: String)
    ensures
        r@ == stored_name(stamp as int, token@, optional_text(extension)),
{
    let mut name = decimal_text(stamp);
    name.append("_");
    name.append(token);
    name.append(".");
    match extension {
        Some(e) => name.append(e),
        None => name.append("bin"),
    }
    name
}

/// A name for keeping an uploaded file, made from the current time, a new
/// random token and the extension of the file's own name. Whatever time,
/// token and extension were found, the result is the stored name for them.
pub fn upload_name(file_name: &str) -> (r: String)
    ensures
        exists|stamp: i64, token: Seq<char>, extension: Option<Seq<char>>|
            0 <= stamp && token.len() == 36 && r@ == #[trigger] stored_name(
                stamp as int,
                token,
                extension,
            ),
{
    let stamp = unix_now();
    let token = random_id();
    let extension = extension_of(file_name);
    let r = match &extension {
        Some(e) => stored_name_for(stamp, token.as_str(), Some(e.as_str())),
        None => stored_name_for(stamp, token.as_str(), None),
    };
    assert(r@ == stored_name(stamp as int, token@, extension.deep_view()));
    r
}

} // verus!
