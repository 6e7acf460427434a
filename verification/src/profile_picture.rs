//! The image formats accepted for profile pictures.
use vstd::prelude::*;
use crate::text::str_eq;

verus! {

/// An image format a profile picture may be uploaded in.
#[derive(Debug, Clone, Copy, PartialEq, Eq, Structural, Hash)]
pub enum AcceptedFormats {
    Jpeg,
    Png,
    Webp,
    Gif,
    Avif,
}

/// The format a content type names, if it is an accepted one.
pub open spec fn format_of(content_type: Seq<char>) -> Option<AcceptedFormats> {
    if content_type == "image/jpeg"@ {
        Some(AcceptedFormats::Jpeg)
    } else if content_type == "image/png"@ {
        Some(AcceptedFormats::Png)
    } else if content_type == "image/webp"@ {
        Some(AcceptedFormats::Webp)
    } else if content_type == "image/gif"@ {
        Some(AcceptedFormats::Gif)
    } else if content_type == "image/avif"@ {
        Some(AcceptedFormats::Avif)
    } else {
        None
    }
}

/// The content type that names a format.
pub open spec fn content_type_of(f: AcceptedFormats) -> Seq<char> {
    match f {
        AcceptedFormats::Jpeg => "image/jpeg"@,
        AcceptedFormats::Png => "image/png"@,
        AcceptedFormats::Webp => "image/webp"@,
        AcceptedFormats::Gif => "image/gif"@,
        AcceptedFormats::Avif => "image/avif"@,
    }
}

/// The file extension of a format.
pub open spec fn ext_of(f: AcceptedFormats) -> Seq<char> {
    match f {
        AcceptedFormats::Jpeg => "jpg"@,
        AcceptedFormats::Png => "png"@,
        AcceptedFormats::Webp => "webp"@,
        AcceptedFormats::Gif => "gif"@,
        AcceptedFormats::Avif => "avif"@,
    }
}

/// Each accepted format has an extension of its own, and is what the
/// content type `image/…` of its kind names.
pub proof fn law_formats_distinct(f: AcceptedFormats, g: AcceptedFormats)
    ensures
        f != g ==> ext_of(f) != ext_of(g),
        format_of(content_type_of(f)) == Some(f),
{
    reveal_strlit("jpg");
    reveal_strlit("png");
    reveal_strlit("webp");
    reveal_strlit("gif");
    reveal_strlit("avif");
    reveal_strlit("image/jpeg");
    reveal_strlit("image/png");
    reveal_strlit("image/webp");
    reveal_strlit("image/gif");
    reveal_strlit("image/avif");
    if f != g {
        assert(ext_of(f)[0] != ext_of(g)[0]);
    }
    assert forall|h: AcceptedFormats| h != f implies content_type_of(h) != content_type_of(f) by {
        assert(content_type_of(h)[6] != content_type_of(f)[6]);
    }
    assert(f != AcceptedFormats::Jpeg ==> content_type_of(AcceptedFormats::Jpeg) != content_type_of(f));
    assert(f != AcceptedFormats::Png ==> content_type_of(AcceptedFormats::Png) != content_type_of(f));
    assert(f != AcceptedFormats::Webp ==> content_type_of(AcceptedFormats::Webp) != content_type_of(f));
    assert(f != AcceptedFormats::Gif ==> content_type_of(AcceptedFormats::Gif) != content_type_of(f));
}

impl AcceptedFormats {
    /// The format a content type names: `image/jpeg`, `image/png`,
    /// `image/webp`, `image/gif` or `image/avif`, compared exactly.
    pub fn from_content_type(content_type: &str) -> (r: Option<Self>)
        ensures
            r == format_of(content_type@),
    {
        if str_eq(content_type, "image/jpeg") {
            Some(Self::Jpeg)
        } else if str_eq(content_type, "image/png") {
            Some(Self::Png)
        } else if str_eq(content_type, "image/webp") {
            Some(Self::Webp)
        } else if str_eq(content_type, "image/gif") {
            Some(Self::Gif)
        } else if str_eq(content_type, "image/avif") {
            Some(Self::Avif)
        } else {
            None
        }
    }

    /// The file extension the format is stored under.
    pub fn ext(self) -> (r: &'static str)
        ensures
            r@ == ext_of(self),
    {
        match self {
            Self::Jpeg => "jpg",
            Self::Png => "png",
            Self::Webp => "webp",
            Self::Gif => "gif",
            Self::Avif => "avif",
        }
    }
}

/// Whether a content type may be uploaded as a profile picture.
pub fn validate_format(content_type: &str) -> (r: bool)
    ensures
        r == (format_of(content_type@) is Some),
{
    AcceptedFormats::from_content_type(content_type).is_some()
}


/// Where the source image of an upload is stored:
/// `{user}/profile_pictures/{task}/source.{ext}`.
pub open spec fn input_path_of(user_id: Seq<char>, task_id: Seq<char>, format: AcceptedFormats) -> Seq<char> {
    user_id + "/profile_pictures/"@ + task_id + "/source."@ + ext_of(format)
}

/// The path the source image of an upload is stored at.
pub fn input_path(user_id: &str, task_id: &str, format: AcceptedFormats) -> (r: String)
    ensures
        r@ == input_path_of(user_id@, task_id@, format),
{
    let mut s = String::new();
    s.append(user_id);
    s.append("/profile_pictures/");
    s.append(task_id);
    s.append("/source.");
    s.append(format.ext());
    s
}

/// The name an upload is recorded under: the name given, else
/// `untitled.{ext}`.
pub fn upload_name(name: Option<String>, format: AcceptedFormats) -> (r: String)
    ensures
        r@ == match name {
            Some(n) => n@,
            None => "untitled."@ + ext_of(format),
        },
{
    match name {
        Some(n) => n,
        None => {
            let mut s = String::new();
            s.append("untitled.");
            s.append(format.ext());
            s
        },
    }
}

/// The prefix the processed images of a task are stored under:
/// `{owner}/{task}`.
pub fn output_prefix(owner_id: &str, task_id: &str) -> (r: String)
    ensures
        r@ == owner_id@ + "/"@ + task_id@,
{
    let mut s = String::new();
    s.append(owner_id);
    s.append("/");
    s.append(task_id);
    s
}

} // verus!
