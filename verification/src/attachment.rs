//! Attachments as the preview sees them, and their compact descriptors.

use vstd::prelude::*;

use crate::text::{chars_of, same_text};

verus! {

broadcast use vstd::string::group_string_axioms;

/// The file attached to a message, as read from the attachment table.
pub struct Attachment {
    pub rowid: i32,
    pub guid: Option<String>,
    /// Where the file is stored on disk.
    pub filename: Option<String>,
    /// The uniform type identifier of the file.
    pub uti: Option<String>,
    /// The MIME type of the file, such as `image/png`.
    pub mime_type: Option<String>,
    /// The file name as it was sent.
    pub transfer_name: Option<String>,
    pub total_bytes: i64,
    pub is_sticker: bool,
    pub hide_attachment: i32,
    pub emoji_description: Option<String>,
    /// Where the file was copied to, once copied.
    pub copied_path: Option<String>,
}

/// The broad kind of media an attachment holds.
#[derive(Clone, Copy, Debug, PartialEq, Eq, Structural)]
pub enum MediaType {
    Image,
    Video,
    Audio,
    Text,
    Application,
    Other,
    Unknown,
}

/// How a formatter renders one attachment.
pub enum AttachmentRender {
    /// The rendered content itself.
    Embedded(String),
    /// The attachment has no file name to point at.
    MissingFilename,
    /// The attachment is shown by its file name.
    NamedFile(String),
}

/// The character view of an optional string.
pub open spec fn opt_view(o: Option<String>) -> Option<Seq<char>> {
    match o {
        Some(s) => Some(s@),
        None => None,
    }
}

/// The characters of `s` before the first `c` (all of `s` when there is none).
pub open spec fn prefix_before(s: Seq<char>, c: char) -> Seq<char>
    decreases s.len(),
{
    if s.len() == 0 || s[0] == c {
        seq![]
    } else {
        seq![s[0]] + prefix_before(s.drop_first(), c)
    }
}

/// The kind named by the part of a MIME type before its `/`.
pub open spec fn category_media(category: Seq<char>) -> MediaType {
    if category == "image"@ {
        MediaType::Image
    } else if category == "video"@ {
        MediaType::Video
    } else if category == "audio"@ {
        MediaType::Audio
    } else if category == "text"@ {
        MediaType::Text
    } else if category == "application"@ {
        MediaType::Application
    } else {
        MediaType::Other
    }
}

/// The media kind of an attachment with the given MIME type and type identifier: by the
/// MIME category when the MIME type has a `/`, `Other` when it has none; without a MIME
/// type, audio for a Core Audio voice message and `Unknown` otherwise.
pub open spec fn media_type_of(mime: Option<Seq<char>>, uti: Option<Seq<char>>) -> MediaType {
    match mime {
        Some(m) => if m.contains('/') {
            category_media(prefix_before(m, '/'))
        } else {
            MediaType::Other
        },
        None => match uti {
            Some(u) => if u == "com.apple.coreaudio-format"@ {
                MediaType::Audio
            } else {
                MediaType::Unknown
            },
            None => MediaType::Unknown,
        },
    }
}

/// The compact label of an attachment: stickers are labelled as such whatever they hold,
/// other attachments by their media kind.
pub open spec fn descriptor(is_sticker: bool, media: MediaType) -> Seq<char> {
    if is_sticker {
        "[Sticker]"@
    } else {
        match media {
            MediaType::Image => "[Image]"@,
            MediaType::Video => "[Video]"@,
            MediaType::Audio => "[Audio]"@,
            MediaType::Text => "[Text]"@,
            _ => "[Attachment]"@,
        }
    }
}

impl Attachment {
    /// The media kind of this attachment.
    pub open spec fn media(&self) -> MediaType {
        media_type_of(opt_view(self.mime_type), opt_view(self.uti))
    }

    /// Classifies the attachment by its MIME type, falling back to its type identifier.
    pub fn mime_type(&self) -> (m: MediaType)
        ensures
            m == self.media(),
    {
        match &self.mime_type {
            Some(mime) => {
                let s = mime.as_str();
                let v = chars_of(s);
                let n = v.len();
                let mut k: usize = 0;
                while k < n && v[k] != '/'
                    invariant
                        n == v@.len(),
                        v@ == s@,
                        k <= n,
                        forall|i: int| 0 <= i < k ==> s@[i] != '/',
                    decreases n - k,
                {
                    k = k + 1;
                }
                if k == n {
                    assert(!s@.contains('/'));
                    MediaType::Other
                } else {
                    proof {
                        lemma_prefix_before_at(s@, '/', k as int);
                        assert(s@.contains('/'));
                    }
                    let category = s.substring_char(0, k);
                    assert(category@ == prefix_before(s@, '/'));
                    if same_text(category, "image") {
                        MediaType::Image
                    } else if same_text(category, "video") {
                        MediaType::Video
                    } else if same_text(category, "audio") {
                        MediaType::Audio
                    } else if same_text(category, "text") {
                        MediaType::Text
                    } else if same_text(category, "application") {
                        MediaType::Application
                    } else {
                        MediaType::Other
                    }
                }
            },
            None => match &self.uti {
                Some(uti) => {
                    if same_text(uti.as_str(), "com.apple.coreaudio-format") {
                        MediaType::Audio
                    } else {
                        MediaType::Unknown
                    }
                },
                None => MediaType::Unknown,
            },
        }
    }
}

/// Where the first `c` of `s` stands, `prefix_before` stops.
proof fn lemma_prefix_before_at(s: Seq<char>, c: char, k: int)
    requires
        0 <= k < s.len(),
        s[k] == c,
        forall|i: int| 0 <= i < k ==> s[i] != c,
    ensures
        prefix_before(s, c) == s.subrange(0, k),
    decreases k,
{
    if k == 0 {
        assert(s.subrange(0, 0) =~= Seq::<char>::empty());
    } else {
        let t = s.drop_first();
        assert forall|i: int| 0 <= i < k - 1 implies t[i] != c by {
            assert(t[i] == s[i + 1]);
        }
        lemma_prefix_before_at(t, c, k - 1);
        assert(seq![s[0]] + t.subrange(0, k - 1) =~= s.subrange(0, k));
    }
}

/// A compact, side-effect-free descriptor for an attachment or sticker: `[Sticker]` for
/// any sticker, otherwise `[Image]`, `[Video]`, `[Audio]`, `[Text]` or `[Attachment]` by
/// its media kind.
pub fn attachment_descriptor(attachment: &Attachment) -> (r: String)
    ensures
        r@ == descriptor(attachment.is_sticker, attachment.media()),
{
    if attachment.is_sticker {
        return String::from_str("[Sticker]");
    }
    match attachment.mime_type() {
        MediaType::Image => String::from_str("[Image]"),
        MediaType::Video => String::from_str("[Video]"),
        MediaType::Audio => String::from_str("[Audio]"),
        MediaType::Text => String::from_str("[Text]"),
        MediaType::Application | MediaType::Other | MediaType::Unknown => String::from_str(
            "[Attachment]",
        ),
    }
}

/// The descriptor of an attachment depends on whether it is a sticker, its MIME type and
/// its type identifier alone: never on its file name, transfer name or stored path.
pub proof fn lemma_descriptor_ignores_file(a: &Attachment, b: &Attachment)
    requires
        a.is_sticker == b.is_sticker,
        opt_view(a.mime_type) == opt_view(b.mime_type),
        opt_view(a.uti) == opt_view(b.uti),
    ensures
        descriptor(a.is_sticker, a.media()) == descriptor(b.is_sticker, b.media()),
{
}

/// No descriptor holds a path separator: each is one of the fixed bracketed labels.
pub proof fn lemma_descriptor_has_no_slash(is_sticker: bool, media: MediaType)
    ensures
        !descriptor(is_sticker, media).contains('/'),
        descriptor(is_sticker, media).len() > 0,
        descriptor(is_sticker, media)[0] == '[',
        descriptor(is_sticker, media).last() == ']',
{
    reveal_strlit("[Sticker]");
    reveal_strlit("[Image]");
    reveal_strlit("[Video]");
    reveal_strlit("[Audio]");
    reveal_strlit("[Text]");
    reveal_strlit("[Attachment]");
    let d = descriptor(is_sticker, media);
    assert forall|i: int| 0 <= i < d.len() implies d[i] != '/' by {}
}

/// The text before the first `/` of `category/subtype` is `category`.
proof fn lemma_category_of(category: Seq<char>, subtype: Seq<char>)
    requires
        !category.contains('/'),
    ensures
        (category + "/"@ + subtype).contains('/'),
        prefix_before(category + "/"@ + subtype, '/') == category,
{
    reveal_strlit("/");
    let m = category + "/"@ + subtype;
    let k = category.len() as int;
    assert(m[k] == '/');
    assert forall|i: int| 0 <= i < k implies m[i] != '/' by {
        assert(m[i] == category[i]);
    }
    lemma_prefix_before_at(m, '/', k);
    assert(m.subrange(0, k) =~= category);
}

/// The media kind of an attachment with a MIME type `category/subtype` depends on the
/// category alone, never on the subtype or the type identifier: `image`, `video`, `audio`,
/// `text` and `application` give those kinds, any other category gives `Other`. A MIME
/// type without a `/` gives `Other` too.
pub proof fn lemma_media_by_category(
    category: Seq<char>,
    subtype1: Seq<char>,
    subtype2: Seq<char>,
    uti1: Option<Seq<char>>,
    uti2: Option<Seq<char>>,
)
    requires
        !category.contains('/'),
    ensures
        media_type_of(Some(category + "/"@ + subtype1), uti1) == media_type_of(
            Some(category + "/"@ + subtype2),
            uti2,
        ),
        category == "image"@ ==> media_type_of(Some(category + "/"@ + subtype1), uti1)
            == MediaType::Image,
        category == "video"@ ==> media_type_of(Some(category + "/"@ + subtype1), uti1)
            == MediaType::Video,
        category == "audio"@ ==> media_type_of(Some(category + "/"@ + subtype1), uti1)
            == MediaType::Audio,
        category == "text"@ ==> media_type_of(Some(category + "/"@ + subtype1), uti1)
            == MediaType::Text,
        category == "application"@ ==> media_type_of(Some(category + "/"@ + subtype1), uti1)
            == MediaType::Application,
        category != "image"@ && category != "video"@ && category != "audio"@ && category
            != "text"@ && category != "application"@ ==> media_type_of(
            Some(category + "/"@ + subtype1),
            uti1,
        ) == MediaType::Other,
        media_type_of(Some(category), uti1) == MediaType::Other,
{
    lemma_category_of(category, subtype1);
    lemma_category_of(category, subtype2);
    reveal_strlit("image");
    reveal_strlit("video");
    reveal_strlit("audio");
    assert("image"@[0] != "video"@[0] && "image"@[0] != "audio"@[0]);
    assert("video"@[0] != "audio"@[0]);
    reveal_strlit("text");
    reveal_strlit("application");
    assert("text"@.len() != "image"@.len() && "application"@.len() != "image"@.len());
    assert("text"@.len() != "application"@.len());
}

/// A non-sticker attachment whose MIME type is `image/...`, `video/...`, `audio/...` or
/// `text/...` is labelled `[Image]`, `[Video]`, `[Audio]` or `[Text]`, whatever the
/// subtype; one of any other category is labelled `[Attachment]`; a sticker is labelled
/// `[Sticker]` whatever its MIME type.
pub proof fn lemma_descriptor_by_category(a: &Attachment, category: Seq<char>, subtype: Seq<char>)
    requires
        !category.contains('/'),
        opt_view(a.mime_type) == Some(category + "/"@ + subtype),
    ensures
        a.is_sticker ==> descriptor(a.is_sticker, a.media()) == "[Sticker]"@,
        !a.is_sticker && category == "image"@ ==> descriptor(a.is_sticker, a.media())
            == "[Image]"@,
        !a.is_sticker && category == "video"@ ==> descriptor(a.is_sticker, a.media())
            == "[Video]"@,
        !a.is_sticker && category == "audio"@ ==> descriptor(a.is_sticker, a.media())
            == "[Audio]"@,
        !a.is_sticker && category == "text"@ ==> descriptor(a.is_sticker, a.media())
            == "[Text]"@,
        !a.is_sticker && category != "image"@ && category != "video"@ && category != "audio"@
            && category != "text"@ ==> descriptor(a.is_sticker, a.media()) == "[Attachment]"@,
{
    lemma_media_by_category(category, subtype, subtype, opt_view(a.uti), opt_view(a.uti));
}

} // verus!
