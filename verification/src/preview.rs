//! Compact, read-only plain-text rendering of a single message, for front-ends that show
//! a message preview.
//!
//! A [`Preview`] takes what the message formatter produced for each part of a message and
//! assembles the preview body from it, rendering attachments as compact descriptors
//! (`[Image]`, `[Video]`, `[Sticker]`, ...) instead of file paths. The per-message
//! timestamp and sender header is left out: front-ends draw their own.

use vstd::prelude::*;

use crate::attachment::{attachment_descriptor, descriptor, opt_view, Attachment, AttachmentRender};
use crate::text::{
    is_digit, lemma_decimal_round_trip,
    decimal, decimal_string, is_trimmed, join, joined, lemma_joined_first, lemma_joined_last,
    lemma_trimmed_identity, lemma_trimmed_is_trimmed, trim, trimmed, views,
};

verus! {

broadcast use vstd::string::group_string_axioms;

/// Shown in place of an attachment that cannot be found.
pub const ATTACHMENT_MISSING_TEXT: &'static str = "Attachment missing!";

/// What the preview reads of a message.
pub struct Message {
    /// The text of the message, if it has any.
    pub text: Option<String>,
    /// Whether the message is an announcement (a group rename and the like) with no body.
    pub is_announcement: bool,
    /// Whether the message replies to another one in a thread.
    pub is_reply: bool,
    /// How many replies the message has in its thread.
    pub num_replies: i32,
    /// Whether the message was edited after it was sent.
    pub is_edited: bool,
    /// Whether the message was sent with an expressive effect.
    pub is_expressive: bool,
    /// The translation of the text, shown beneath it, if the message was translated.
    pub translation: Option<String>,
    /// When the message was sent, read and delivered, and who sent it: the header that
    /// front-ends draw themselves, which the preview leaves out.
    pub date: i64,
    pub date_read: i64,
    pub date_delivered: i64,
    pub handle_id: i32,
    pub is_from_me: bool,
}

/// A front-end-agnostic rendering of one message: the full body text plus short
/// annotation badges. Excludes the timestamp/sender header, which each front-end renders
/// itself.
#[derive(Debug, Clone, PartialEq, Eq)]
pub struct MessagePreview {
    /// The rendered message body: the bodies of the message's parts, each starting on a
    /// line of its own.
    pub body: String,
    /// Short badges describing context (reply, replies count, edited, effect).
    pub annotations: Vec<String>,
}

impl View for MessagePreview {
    type V = (Seq<char>, Seq<Seq<char>>);

    open spec fn view(&self) -> (Seq<char>, Seq<Seq<char>>) {
        (self.body@, views(self.annotations@))
    }
}

impl Default for MessagePreview {
    fn default() -> (r: MessagePreview)
        ensures
            r@ == (Seq::<char>::empty(), Seq::<Seq<char>>::empty()),
    {
        let r = MessagePreview { body: String::new(), annotations: Vec::new() };
        assert(views(r.annotations@) =~= Seq::<Seq<char>>::empty());
        r
    }
}

/// The badge counting the replies to a message: `1 reply`, `2 replies`, ...
pub open spec fn replies_badge(n: nat) -> Seq<char> {
    decimal(n) + " repl"@ + if n == 1 {
        "y"@
    } else {
        "ies"@
    }
}

/// The annotation badges of a message, in this order: `reply` when it is a reply, the
/// replies count when it has replies, `edited` when it was edited, `effect` when it was
/// sent with an effect.
pub open spec fn annotations_of(m: Message) -> Seq<Seq<char>> {
    (if m.is_reply {
        seq!["reply"@]
    } else {
        seq![]
    }) + (if m.num_replies > 0 {
        seq![replies_badge(m.num_replies as nat)]
    } else {
        seq![]
    }) + (if m.is_edited {
        seq!["edited"@]
    } else {
        seq![]
    }) + (if m.is_expressive {
        seq!["effect"@]
    } else {
        seq![]
    })
}

/// Short context badges shown alongside the body.
pub fn annotations(message: &Message) -> (r: Vec<String>)
    ensures
        views(r@) == annotations_of(*message),
{
    let mut out: Vec<String> = Vec::new();
    let ghost reply_part: Seq<Seq<char>> = if message.is_reply {
        seq!["reply"@]
    } else {
        seq![]
    };
    if message.is_reply {
        out.push(String::from_str("reply"));
    }
    assert(views(out@) =~= reply_part);
    let ghost count_part: Seq<Seq<char>> = if message.num_replies > 0 {
        seq![replies_badge(message.num_replies as nat)]
    } else {
        seq![]
    };
    if message.num_replies > 0 {
        let n = message.num_replies;
        let mut badge = decimal_string(n as u64);
        badge.append(" repl");
        if n == 1 {
            badge.append("y");
        } else {
            badge.append("ies");
        }
        out.push(badge);
    }
    assert(views(out@) =~= reply_part + count_part);
    let ghost edited_part: Seq<Seq<char>> = if message.is_edited {
        seq!["edited"@]
    } else {
        seq![]
    };
    if message.is_edited {
        out.push(String::from_str("edited"));
    }
    assert(views(out@) =~= reply_part + count_part + edited_part);
    let ghost effect_part: Seq<Seq<char>> = if message.is_expressive {
        seq!["effect"@]
    } else {
        seq![]
    };
    if message.is_expressive {
        out.push(String::from_str("effect"));
    }
    assert(views(out@) =~= reply_part + count_part + edited_part + effect_part);
    out
}


/// The non-empty bodies among `formatted`, each trimmed, in order.
pub open spec fn kept_parts(formatted: Seq<Seq<char>>) -> Seq<Seq<char>>
    decreases formatted.len(),
{
    if formatted.len() == 0 {
        seq![]
    } else {
        let rest = kept_parts(formatted.drop_last());
        let t = trimmed(formatted.last());
        if t.len() > 0 {
            rest.push(t)
        } else {
            rest
        }
    }
}

/// The preview of `message`, given what the formatter wrote for it: for an announcement,
/// the announcement line trimmed and no badges; otherwise the trimmed, non-empty part
/// bodies one per line, and the message's badges.
pub open spec fn preview_of(message: Message, formatted: Seq<Seq<char>>) -> (
    Seq<char>,
    Seq<Seq<char>>,
) {
    if message.is_announcement {
        (trimmed(joined(formatted, seq![])), seq![])
    } else {
        (joined(kept_parts(formatted), "\n"@), annotations_of(message))
    }
}

/// One attributed range of a run of message text, as the preview receives it.
pub struct RunRange {
    /// Whether the range carries an attachment.
    pub has_attachment: bool,
    /// Where the range's attachment was resolved to in the message's attachments, if it
    /// was resolved at all.
    pub attachment_index: Option<usize>,
    /// The range's text as the attribute formatter rendered it on its own.
    pub text: String,
}

/// Whether no range of a run carries an attachment.
pub open spec fn all_plain(ranges: Seq<RunRange>) -> bool {
    forall|i: int| 0 <= i < ranges.len() ==> !(#[trigger] ranges[i]).has_attachment
}

/// A prefix one range longer is plain exactly when the shorter one is and that range
/// carries no attachment.
proof fn lemma_all_plain_step(ranges: Seq<RunRange>, i: int)
    requires
        0 <= i < ranges.len(),
    ensures
        all_plain(ranges.take(i + 1)) == (all_plain(ranges.take(i)) && !ranges[i].has_attachment),
{
    let t = ranges.take(i + 1);
    let u = ranges.take(i);
    assert forall|j: int| 0 <= j < i implies t[j] == u[j] by {}
    assert(t[i] == ranges[i]);
    if all_plain(u) && !ranges[i].has_attachment {
        assert forall|j: int| 0 <= j < i + 1 implies !(#[trigger] t[j]).has_attachment by {
            if j < i {
                assert(t[j] == u[j]);
            }
        }
    }
    if all_plain(t) {
        assert forall|j: int| 0 <= j < i implies !(#[trigger] u[j]).has_attachment by {
            assert(t[j] == u[j]);
        }
    }
}

/// The line a range of a run with attachments contributes, if any: a range whose
/// attachment was resolved gives that attachment's descriptor, or the missing-attachment
/// notice when nothing stands at its position; any other range gives its rendered text
/// when that is not empty.
pub open spec fn range_line(range: RunRange, attachments: Seq<Attachment>) -> Option<Seq<char>> {
    if range.has_attachment && range.attachment_index is Some {
        let i = range.attachment_index->0;
        Some(
            if i < attachments.len() {
                descriptor(attachments[i as int].is_sticker, attachments[i as int].media())
            } else {
                "Attachment missing!"@
            },
        )
    } else if range.text@.len() > 0 {
        Some(range.text@)
    } else {
        None
    }
}

/// The lines the ranges of a run with attachments contribute, in order.
pub open spec fn run_lines(ranges: Seq<RunRange>, attachments: Seq<Attachment>) -> Seq<Seq<char>>
    decreases ranges.len(),
{
    if ranges.len() == 0 {
        seq![]
    } else {
        let rest = run_lines(ranges.drop_last(), attachments);
        match range_line(ranges.last(), attachments) {
            Some(t) => rest.push(t),
            None => rest,
        }
    }
}

/// The body of a run before translation: when no range carries an attachment, what the
/// attribute formatter rendered for the whole run, or the message text itself when that
/// is empty; otherwise the lines of its ranges, one per line.
pub open spec fn run_body(
    text: Seq<char>,
    ranges: Seq<RunRange>,
    attributed: Seq<char>,
    attachments: Seq<Attachment>,
) -> Seq<char> {
    if all_plain(ranges) {
        if attributed.len() == 0 {
            text
        } else {
            attributed
        }
    } else {
        joined(run_lines(ranges, attachments), "\n"@)
    }
}

/// A body with the message's translation added: beneath it on its own line when the
/// message has a translation that is not blank, otherwise the body alone.
pub open spec fn with_translation(message: Message, body: Seq<char>) -> Seq<char> {
    match message.translation {
        Some(t) => if trimmed(t@).len() == 0 {
            body
        } else {
            body + "\n"@ + t@
        },
        None => body,
    }
}

/// The text of a message, or nothing.
pub open spec fn text_of(message: Message) -> Seq<char> {
    match message.text {
        Some(t) => t@,
        None => seq![],
    }
}

/// Renders messages into [`MessagePreview`] values, over the exporter's configuration `C`
/// and the scratch export state `S` it formats with, so that it creates no export files.
pub struct Preview<'a, C, S> {
    config: &'a C,
    state: S,
}

impl<'a, C, S> Preview<'a, C, S> {
    /// The configuration this renderer works over.
    pub closed spec fn spec_config(&self) -> &'a C {
        self.config
    }

    /// The scratch export state this renderer formats with.
    pub closed spec fn spec_state(&self) -> S {
        self.state
    }

    /// Builds a preview renderer over `config` and the scratch export state made for it,
    /// passing on the error when that state could not be made.
    pub fn new<E>(config: &'a C, scratch: Result<S, E>) -> (r: Result<Self, E>)
        ensures
            match scratch {
                Ok(state) => r matches Ok(p) && p.spec_config() == config && p.spec_state()
                    == state,
                Err(e) => r == Err::<Self, E>(e),
            },
    {
        match scratch {
            Ok(state) => Ok(Preview { config, state }),
            Err(e) => Err(e),
        }
    }

    /// The configuration this renderer works over.
    pub fn config(&self) -> (r: &'a C)
        ensures
            r == self.spec_config(),
    {
        self.config
    }

    /// Renders `message` to its body text and annotations, given what the formatter wrote
    /// for it: the announcement line for an announcement, otherwise one body per component.
    pub fn render(&self, message: &Message, formatted: &Vec<String>) -> (r: MessagePreview)
        ensures
            r@ == preview_of(*message, views(formatted@)),
    {
        if message.is_announcement {
            let out = join(formatted, "");
            proof {
                reveal_strlit("");
                assert(""@ =~= Seq::<char>::empty());
            }
            let r = MessagePreview { body: trim(out.as_str()).to_owned(), annotations: Vec::new() };
            assert(views(r.annotations@) =~= Seq::<Seq<char>>::empty());
            return r;
        }
        let ghost all = views(formatted@);
        let mut parts: Vec<String> = Vec::new();
        for i in 0..formatted.len()
            invariant
                all == views(formatted@),
                views(parts@) == kept_parts(all.take(i as int)),
        {
            proof {
                assert(all.take(i + 1).drop_last() =~= all.take(i as int));
                assert(all.take(i + 1).last() == formatted@[i as int]@);
            }
            let trimmed_part = trim(formatted[i].as_str());
            if !trimmed_part.is_empty() {
                parts.push(trimmed_part.to_owned());
                assert(views(parts@) =~= kept_parts(all.take(i + 1)));
            } else {
                assert(views(parts@) =~= kept_parts(all.take(i + 1)));
            }
        }
        assert(all.take(formatted.len() as int) =~= all);
        MessagePreview { body: join(&parts, "\n"), annotations: annotations(message) }
    }

    /// How this renderer shows an attachment: as its descriptor, with no disk access.
    pub fn format_attachment(&self, attachment: &Attachment) -> (r: AttachmentRender)
        ensures
            r matches AttachmentRender::Embedded(c) && c@ == descriptor(
                attachment.is_sticker,
                attachment.media(),
            ),
    {
        AttachmentRender::Embedded(attachment_descriptor(attachment))
    }

    /// How this renderer shows a sticker: as its descriptor.
    pub fn format_sticker(&self, sticker: &Attachment) -> (r: String)
        ensures
            r@ == descriptor(sticker.is_sticker, sticker.media()),
    {
        attachment_descriptor(sticker)
    }

    /// The body of a text bubble of `message`, with the message's translation added as
    /// the formatter adds it.
    pub fn body_text_with_translation(&self, message: &Message, formatted: String) -> (r: String)
        ensures
            r@ == with_translation(*message, formatted@),
    {
        match &message.translation {
            Some(translated) => self.body_text_translated(translated.clone(), formatted),
            None => self.body_text_bubble(formatted),
        }
    }

    /// The body of one run of `message`: `ranges` are its attributed ranges, `attributed`
    /// what the attribute formatter rendered for the whole run. Attachment ranges are
    /// resolved against `attachments` and rendered as descriptors (no side effects); the
    /// message's translation is added as for any text bubble.
    pub fn render_run(
        &self,
        message: &Message,
        ranges: &Vec<RunRange>,
        attributed: &str,
        attachments: &Vec<Attachment>,
    ) -> (r: String)
        ensures
            r@ == with_translation(
                *message,
                run_body(text_of(*message), ranges@, attributed@, attachments@),
            ),
    {
        let text: &str = match &message.text {
            Some(t) => t.as_str(),
            None => "",
        };
        proof {
            reveal_strlit("");
        }
        let mut plain = true;
        for i in 0..ranges.len()
            invariant
                plain == all_plain(ranges@.take(i as int)),
        {
            proof {
                lemma_all_plain_step(ranges@, i as int);
            }
            if ranges[i].has_attachment {
                plain = false;
            }
        }
        assert(ranges@.take(ranges.len() as int) =~= ranges@);
        if plain {
            let formatted = if attributed.is_empty() {
                self.body_escape(text)
            } else {
                attributed.to_owned()
            };
            return self.body_text_with_translation(message, formatted);
        }
        let mut lines: Vec<String> = Vec::new();
        for i in 0..ranges.len()
            invariant
                views(lines@) == run_lines(ranges@.take(i as int), attachments@),
        {
            proof {
                assert(ranges@.take(i + 1).drop_last() =~= ranges@.take(i as int));
            }
            let range = &ranges[i];
            match range.attachment_index {
                Some(idx) if range.has_attachment => {
                    let line = if idx < attachments.len() {
                        let attachment = &attachments[idx];
                        if attachment.is_sticker {
                            self.format_sticker(attachment)
                        } else {
                            match self.format_attachment(attachment) {
                                AttachmentRender::Embedded(content) => content,
                                AttachmentRender::MissingFilename => ATTACHMENT_MISSING_TEXT.to_owned(),
                                AttachmentRender::NamedFile(name) => name,
                            }
                        }
                    } else {
                        ATTACHMENT_MISSING_TEXT.to_owned()
                    };
                    lines.push(line);
                },
                _ => {
                    if !range.text.as_str().is_empty() {
                        lines.push(range.text.clone());
                    }
                },
            }
            assert(views(lines@) =~= run_lines(ranges@.take(i + 1), attachments@));
        }
        assert(ranges@.take(ranges.len() as int) =~= ranges@);
        self.body_text_with_translation(message, join(&lines, "\n"))
    }

    /// An empty body.
    pub fn body_empty(&self) -> (r: String)
        ensures
            r@ == Seq::<char>::empty(),
    {
        String::new()
    }

    /// A text bubble: the formatted content itself.
    pub fn body_text_bubble(&self, content: String) -> (r: String)
        ensures
            r@ == content@,
    {
        content
    }

    /// A translated text: the original alone when the translation is blank, otherwise the
    /// original, a line break and the translation.
    pub fn body_text_translated(&self, translated: String, original: String) -> (r: String)
        ensures
            r@ == (if trimmed(translated@).len() == 0 {
                original@
            } else {
                original@ + "\n"@ + translated@
            }),
    {
        if trim(translated.as_str()).is_empty() {
            original
        } else {
            let mut r = original;
            r.append("\n");
            r.append(translated.as_str());
            r
        }
    }

    /// An edited text: the formatted content itself.
    pub fn body_text_edited(&self, content: String) -> (r: String)
        ensures
            r@ == content@,
    {
        content
    }

    /// An attachment: the formatted content itself.
    pub fn body_attachment(&self, content: String) -> (r: String)
        ensures
            r@ == content@,
    {
        content
    }

    /// An attachment that could not be rendered: the error text.
    pub fn body_attachment_error(&self, error: &str) -> (r: String)
        ensures
            r@ == error@,
    {
        error.to_owned()
    }

    /// An attachment that cannot be found: the missing-attachment notice.
    pub fn body_attachment_missing(&self) -> (r: String)
        ensures
            r@ == "Attachment missing!"@,
    {
        ATTACHMENT_MISSING_TEXT.to_owned()
    }

    /// A sticker: the formatted content itself.
    pub fn body_sticker(&self, content: String) -> (r: String)
        ensures
            r@ == content@,
    {
        content
    }

    /// An app message: the formatted content itself.
    pub fn body_app(&self, content: String) -> (r: String)
        ensures
            r@ == content@,
    {
        content
    }

    /// An app message that could not be formatted: the reason, after a fixed lead-in.
    pub fn body_app_error(&self, message: &Message, why: String) -> (r: String)
        ensures
            r@ == "Unable to format app message: "@ + why@,
    {
        let mut r = String::from_str("Unable to format app message: ");
        r.append(why.as_str());
        r
    }

    /// A retracted message: the formatted content itself.
    pub fn body_retracted(&self, content: String) -> (r: String)
        ensures
            r@ == content@,
    {
        content
    }

    /// Plain text needs no escaping: the text itself.
    pub fn body_escape(&self, text: &str) -> (r: String)
        ensures
            r@ == text@,
    {
        text.to_owned()
    }
}


/// Every kept part is non-empty and has no whitespace at either end.
proof fn lemma_kept_parts_trimmed(formatted: Seq<Seq<char>>)
    ensures
        forall|i: int|
            0 <= i < kept_parts(formatted).len() ==> #[trigger] kept_parts(formatted)[i].len() > 0
                && is_trimmed(kept_parts(formatted)[i]),
    decreases formatted.len(),
{
    if formatted.len() > 0 {
        let rest = kept_parts(formatted.drop_last());
        let kept = kept_parts(formatted);
        lemma_kept_parts_trimmed(formatted.drop_last());
        lemma_trimmed_is_trimmed(formatted.last());
        assert forall|i: int| 0 <= i < kept.len() implies #[trigger] kept[i].len() > 0
            && is_trimmed(kept[i]) by {
            if i < rest.len() {
                assert(kept[i] == rest[i]);
            }
        }
    }
}

/// Bodies that are all non-empty and already trimmed are kept as they are.
proof fn lemma_kept_parts_identity(formatted: Seq<Seq<char>>)
    requires
        forall|i: int|
            0 <= i < formatted.len() ==> #[trigger] formatted[i].len() > 0 && is_trimmed(
                formatted[i],
            ),
    ensures
        kept_parts(formatted) == formatted,
    decreases formatted.len(),
{
    if formatted.len() > 0 {
        let rest = formatted.drop_last();
        assert forall|i: int| 0 <= i < rest.len() implies #[trigger] rest[i].len() > 0
            && is_trimmed(rest[i]) by {
            assert(rest[i] == formatted[i]);
        }
        lemma_kept_parts_identity(rest);
        lemma_trimmed_identity(formatted.last());
        assert(rest.push(formatted.last()) =~= formatted);
    }
}

/// The preview body never starts or ends with whitespace, whatever the formatter wrote.
pub proof fn lemma_preview_body_is_trimmed(message: Message, formatted: Seq<Seq<char>>)
    ensures
        is_trimmed(preview_of(message, formatted).0),
{
    if message.is_announcement {
        lemma_trimmed_is_trimmed(joined(formatted, seq![]));
    } else {
        let kept = kept_parts(formatted);
        lemma_kept_parts_trimmed(formatted);
        if kept.len() > 0 {
            assert(kept[0].len() > 0 && is_trimmed(kept[0]));
            assert(kept[kept.len() - 1].len() > 0 && is_trimmed(kept[kept.len() - 1]));
            lemma_joined_first(kept, "\n"@);
            lemma_joined_last(kept, "\n"@);
        }
    }
}

/// Nothing is sanitized: when every part body the formatter wrote is non-empty and has no
/// whitespace at either end, the preview body is exactly those bodies, one per line, and
/// a single such body comes through unchanged.
pub proof fn lemma_preview_keeps_content(message: Message, formatted: Seq<Seq<char>>)
    requires
        !message.is_announcement,
        forall|i: int|
            0 <= i < formatted.len() ==> #[trigger] formatted[i].len() > 0 && is_trimmed(
                formatted[i],
            ),
    ensures
        preview_of(message, formatted).0 == joined(formatted, "\n"@),
        formatted.len() == 1 ==> preview_of(message, formatted).0 == formatted[0],
{
    lemma_kept_parts_identity(formatted);
}

/// Badges belong to ordinary messages only: an announcement's preview has none, and a
/// message with none of the four markers has none either.
pub proof fn lemma_preview_badges(message: Message, formatted: Seq<Seq<char>>)
    ensures
        message.is_announcement ==> preview_of(message, formatted).1.len() == 0,
        !message.is_reply && message.num_replies <= 0 && !message.is_edited
            && !message.is_expressive ==> preview_of(message, formatted).1.len() == 0,
{
}

/// The timestamp and sender header is left out: two messages that differ only in when
/// they were sent, read or delivered, or in who sent them, get the same preview and the
/// same run bodies from the same formatter output.
pub proof fn lemma_preview_ignores_header(
    m1: Message,
    m2: Message,
    formatted: Seq<Seq<char>>,
    ranges: Seq<RunRange>,
    attributed: Seq<char>,
    attachments: Seq<Attachment>,
)
    requires
        opt_view(m1.text) == opt_view(m2.text),
        opt_view(m1.translation) == opt_view(m2.translation),
        m1.is_announcement == m2.is_announcement,
        m1.is_reply == m2.is_reply,
        m1.num_replies == m2.num_replies,
        m1.is_edited == m2.is_edited,
        m1.is_expressive == m2.is_expressive,
    ensures
        preview_of(m1, formatted) == preview_of(m2, formatted),
        with_translation(m1, run_body(text_of(m1), ranges, attributed, attachments))
            == with_translation(m2, run_body(text_of(m2), ranges, attributed, attachments)),
{
    assert(text_of(m1) == text_of(m2));
}

/// Appending one more element to a non-empty list appends the separator and the element.
proof fn lemma_joined_push(parts: Seq<Seq<char>>, sep: Seq<char>, x: Seq<char>)
    requires
        parts.len() > 0,
    ensures
        joined(parts.push(x), sep) == joined(parts, sep) + sep + x,
{
    assert(parts.push(x).drop_last() =~= parts);
}

/// The body of an ordinary message is empty exactly when no part had anything but
/// whitespace.
proof fn lemma_body_empty_iff_nothing_kept(formatted: Seq<Seq<char>>)
    ensures
        (joined(kept_parts(formatted), "\n"@).len() == 0) == (kept_parts(formatted).len() == 0),
{
    let kept = kept_parts(formatted);
    lemma_kept_parts_trimmed(formatted);
    if kept.len() > 0 {
        assert(kept[0].len() > 0);
        lemma_joined_first(kept, "\n"@);
    }
}

/// How the body of an ordinary message grows with one more part: a part that is blank
/// once trimmed leaves it as it was; otherwise the part's trimmed text becomes the whole
/// body when the body was empty, and is added on a line of its own after it when it was
/// not. With no parts the body is empty, so this fixes the body of every list of parts.
pub proof fn lemma_preview_body_append(message: Message, formatted: Seq<Seq<char>>, part: Seq<char>)
    requires
        !message.is_announcement,
    ensures
        preview_of(message, seq![]).0 == Seq::<char>::empty(),
        preview_of(message, formatted.push(part)).0 == (if trimmed(part).len() == 0 {
            preview_of(message, formatted).0
        } else if preview_of(message, formatted).0.len() == 0 {
            trimmed(part)
        } else {
            preview_of(message, formatted).0 + "\n"@ + trimmed(part)
        }),
{
    let f2 = formatted.push(part);
    assert(f2.drop_last() =~= formatted);
    assert(f2.last() == part);
    let kept = kept_parts(formatted);
    let t = trimmed(part);
    lemma_body_empty_iff_nothing_kept(formatted);
    if t.len() > 0 {
        assert(kept_parts(f2) == kept.push(t));
        if kept.len() == 0 {
            assert(kept.push(t) =~= seq![t]);
        } else {
            lemma_joined_push(kept, "\n"@, t);
        }
    }
}

/// A message of one part previews as that part with its surrounding whitespace removed,
/// inner line breaks and all.
pub proof fn lemma_preview_single_part(message: Message, part: Seq<char>)
    requires
        !message.is_announcement,
    ensures
        preview_of(message, seq![part]).0 == trimmed(part),
{
    lemma_preview_body_append(message, seq![], part);
    assert(Seq::<Seq<char>>::empty().push(part) =~= seq![part]);
}

/// One reply is counted in the singular, more in the plural.
pub proof fn lemma_replies_badge_wording(n: nat)
    requires
        n > 0,
    ensures
        n == 1 ==> replies_badge(n) == decimal(1) + " reply"@,
        n != 1 ==> replies_badge(n) == decimal(n) + " replies"@,
{
    reveal_strlit(" repl");
    reveal_strlit("y");
    reveal_strlit("ies");
    reveal_strlit(" reply");
    reveal_strlit(" replies");
    assert(" repl"@ + "y"@ =~= " reply"@);
    assert(" repl"@ + "ies"@ =~= " replies"@);
    assert(decimal(n) + " repl"@ + "y"@ =~= decimal(n) + (" repl"@ + "y"@));
    assert(decimal(n) + " repl"@ + "ies"@ =~= decimal(n) + (" repl"@ + "ies"@));
}

/// Each badge answers to one flag of the message: `reply` is among the badges exactly when
/// the message is a reply, the replies count exactly when it has replies, `edited` exactly
/// when it was edited, and `effect` exactly when it was sent with an effect; no flag adds
/// or removes another's badge. There is one badge per flag that is set, `reply` comes
/// first when present and `effect` last.
pub proof fn lemma_badges_follow_flags(m: Message)
    ensures
        annotations_of(m).contains("reply"@) <==> m.is_reply,
        annotations_of(m).contains("edited"@) <==> m.is_edited,
        annotations_of(m).contains("effect"@) <==> m.is_expressive,
        m.num_replies > 0 ==> annotations_of(m).contains(replies_badge(m.num_replies as nat)),
        (exists|i: int|
            0 <= i < annotations_of(m).len() && #[trigger] annotations_of(m)[i].len() > 0
                && is_digit(annotations_of(m)[i][0])) <==> m.num_replies > 0,
        annotations_of(m).len() == (if m.is_reply {
            1int
        } else {
            0
        }) + (if m.num_replies > 0 {
            1int
        } else {
            0
        }) + (if m.is_edited {
            1int
        } else {
            0
        }) + (if m.is_expressive {
            1int
        } else {
            0
        }),
        m.is_reply ==> annotations_of(m)[0] == "reply"@,
        m.is_expressive ==> annotations_of(m).last() == "effect"@,
{
    reveal_strlit("reply");
    reveal_strlit("edited");
    reveal_strlit("effect");
    let a = annotations_of(m);
    let n = m.num_replies as nat;
    let badge = replies_badge(n);
    if m.num_replies > 0 {
        lemma_decimal_round_trip(n);
        assert(badge[0] == decimal(n)[0]);
    }
    let r: Seq<Seq<char>> = if m.is_reply { seq!["reply"@] } else { seq![] };
    let c: Seq<Seq<char>> = if m.num_replies > 0 { seq![badge] } else { seq![] };
    let e: Seq<Seq<char>> = if m.is_edited { seq!["edited"@] } else { seq![] };
    let x: Seq<Seq<char>> = if m.is_expressive { seq!["effect"@] } else { seq![] };
    assert(a == r + c + e + x);
    // Every element of `a` comes from one of the four pieces.
    assert forall|i: int| 0 <= i < a.len() implies #[trigger] a[i] == "reply"@ && m.is_reply
        || (a[i] == badge && m.num_replies > 0) || (a[i] == "edited"@ && m.is_edited) || (a[i]
        == "effect"@ && m.is_expressive) by {
        if i < r.len() {
            assert(a[i] == r[i]);
        } else if i < r.len() + c.len() {
            assert(a[i] == c[i - r.len()]);
        } else if i < r.len() + c.len() + e.len() {
            assert(a[i] == e[i - r.len() - c.len()]);
        } else {
            assert(a[i] == x[i - r.len() - c.len() - e.len()]);
        }
    }
    assert(!is_digit('r') && !is_digit('e'));
    assert("reply"@[0] != "edited"@[0] && "reply"@[0] != "effect"@[0]);
    assert("edited"@[1] != "effect"@[1]);
    assert("reply"@ != "edited"@ && "reply"@ != "effect"@ && "edited"@ != "effect"@);
    if m.is_reply {
        assert(a[0] == "reply"@);
    }
    if m.num_replies > 0 {
        let k = r.len() as int;
        assert(a[k] == badge);
        assert(a[k].len() > 0 && is_digit(a[k][0]));
    }
    if m.is_edited {
        assert(a[(r.len() + c.len()) as int] == "edited"@);
    }
    if m.is_expressive {
        assert(a[a.len() - 1] == "effect"@);
    }
    if a.contains("reply"@) {
        let i = choose|i: int| 0 <= i < a.len() && a[i] == "reply"@;
        assert(a[i] == "reply"@);
        if m.num_replies > 0 && a[i] == badge {
            assert(a[i][0] == 'r');
        }
    }
    if a.contains("edited"@) {
        let i = choose|i: int| 0 <= i < a.len() && a[i] == "edited"@;
        assert(a[i] == "edited"@);
        if m.num_replies > 0 && a[i] == badge {
            assert(a[i][0] == 'e');
        }
    }
    if a.contains("effect"@) {
        let i = choose|i: int| 0 <= i < a.len() && a[i] == "effect"@;
        assert(a[i] == "effect"@);
        if m.num_replies > 0 && a[i] == badge {
            assert(a[i][0] == 'e');
        }
    }
}

} // verus!
