//! Kinds of attached files and how they are recognised.
use vstd::prelude::*;

use crate::models::FileResponse;
use crate::text::{chars_of, has_prefix, chars_equal};

verus! {

/// The kind of an attached file, as told by its MIME type.
#[derive(Debug, Clone, Copy, PartialEq, Eq, Structural)]
pub enum FileType {
    Image,
    Video,
    Audio,
    Text,
    Pdf,
    Archive,
    Other,
}

/// The kind of file that a MIME type names.
pub open spec fn file_type_of(mime: Seq<char>) -> FileType {
    if "image/"@.is_prefix_of(mime) {
        FileType::Image
    } else if "video/"@.is_prefix_of(mime) {
        FileType::Video
    } else if "audio/"@.is_prefix_of(mime) {
        FileType::Audio
    } else if "text/"@.is_prefix_of(mime) {
        FileType::Text
    } else if mime == "application/json"@ || mime == "application/javascript"@ || mime
        == "application/xml"@ {
        FileType::Text
    } else if mime == "application/pdf"@ {
        FileType::Pdf
    } else if mime == "application/zip"@ || mime == "application/x-tar"@ || mime
        == "application/gzip"@ || mime == "application/x-7z-compressed"@ {
        FileType::Archive
    } else {
        FileType::Other
    }
}

/// The icon shown beside a file of the given kind.
pub open spec fn file_type_icon(t: FileType) -> Seq<char> {
    match t {
        FileType::Image => "🖼"@,
        FileType::Video => "🎬"@,
        FileType::Audio => "🎵"@,
        FileType::Text => "📄"@,
        FileType::Pdf => "📕"@,
        FileType::Archive => "📦"@,
        FileType::Other => "📎"@,
    }
}

fn is_one_of(m: &[char], options: &[&str]) -> (r: bool)
    ensures
        r == exists|k: int| 0 <= k < options@.len() && m@ == options@[k]@,
{
    let mut i: usize = 0;
    while i < options.len()
        invariant
            i <= options@.len(),
            forall|k: int| 0 <= k < i ==> m@ != options@[k]@,
        decreases options@.len() - i,
    {
        let o = chars_of(options[i]);
        if chars_equal(m, o.as_slice()) {
            return true;
        }
        i = i + 1;
    }
    false
}

impl FileType {
    /// Recognises the kind of file from its MIME type.
    pub fn from_mime(mime: &str) -> (t: Self)
        ensures
            t == file_type_of(mime@),
    {
        let m = chars_of(mime);
        let m = m.as_slice();
        if has_prefix(m, chars_of("image/").as_slice()) {
            FileType::Image
        } else if has_prefix(m, chars_of("video/").as_slice()) {
            FileType::Video
        } else if has_prefix(m, chars_of("audio/").as_slice()) {
            FileType::Audio
        } else if has_prefix(m, chars_of("text/").as_slice()) {
            FileType::Text
        } else if is_one_of(m, &["application/json", "application/javascript", "application/xml"]) {
            FileType::Text
        } else if chars_equal(m, chars_of("application/pdf").as_slice()) {
            FileType::Pdf
        } else if is_one_of(
            m,
            &["application/zip", "application/x-tar", "application/gzip", "application/x-7z-compressed"],
        ) {
            FileType::Archive
        } else {
            FileType::Other
        }
    }

    /// The icon shown beside a file of this kind.
    pub fn icon(&self) -> (s: &'static str)
        ensures
            s@ == file_type_icon(*self),
    {
        match self {
            FileType::Image => "🖼",
            FileType::Video => "🎬",
            FileType::Audio => "🎵",
            FileType::Text => "📄",
            FileType::Pdf => "📕",
            FileType::Archive => "📦",
            FileType::Other => "📎",
        }
    }
}

/// Whether a file is shown as an image preview: it is held locally and its MIME type is an image's.
pub open spec fn shows_as_image(file: FileResponse) -> bool {
    file.present && match file.mime {
        Some(m) => "image/"@.is_prefix_of(m@),
        None => false,
    }
}

/// Whether a file is shown as an image preview.
pub fn is_image(file: &FileResponse) -> (b: bool)
    ensures
        b == shows_as_image(*file),
{
    if !file.present {
        return false;
    }
    match &file.mime {
        Some(m) => {
            let mv = chars_of(m.as_str());
            has_prefix(mv.as_slice(), chars_of("image/").as_slice())
        },
        None => false,
    }
}

} // verus!
