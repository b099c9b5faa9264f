use imessage_preview::attachment::{attachment_descriptor, Attachment, AttachmentRender, MediaType};
use imessage_preview::preview::{annotations, Message, MessagePreview, Preview, RunRange};

struct FakeConfig {
    name: &'static str,
}

fn fake_config() -> FakeConfig {
    FakeConfig { name: "fake" }
}

fn fake_message() -> Message {
    Message {
        text: None,
        is_announcement: false,
        is_reply: false,
        num_replies: 0,
        is_edited: false,
        is_expressive: false,
        translation: None,
        date: 674526582885055488,
        date_read: 0,
        date_delivered: 674526583000000000,
        handle_id: 1,
        is_from_me: false,
    }
}

fn text_range(text: &str) -> RunRange {
    RunRange { has_attachment: false, attachment_index: None, text: text.to_string() }
}

fn attachment_range(index: Option<usize>, text: &str) -> RunRange {
    RunRange { has_attachment: true, attachment_index: index, text: text.to_string() }
}

fn attachment_with_mime(mime: &str, is_sticker: bool) -> Attachment {
    Attachment {
        rowid: 1,
        guid: None,
        filename: Some("path/to/secret-file.heic".to_string()),
        uti: None,
        mime_type: Some(mime.to_string()),
        transfer_name: Some("secret-file.heic".to_string()),
        total_bytes: 0,
        is_sticker,
        hide_attachment: 0,
        emoji_description: None,
        copied_path: None,
    }
}

fn attachment_without_mime(uti: Option<&str>) -> Attachment {
    Attachment {
        rowid: 2,
        guid: None,
        filename: Some("path/to/voice.caf".to_string()),
        uti: uti.map(|u| u.to_string()),
        mime_type: None,
        transfer_name: Some("voice.caf".to_string()),
        total_bytes: 10,
        is_sticker: false,
        hide_attachment: 0,
        emoji_description: None,
        copied_path: None,
    }
}

fn build_preview(config: &FakeConfig) -> Preview<'_, FakeConfig, ()> {
    Preview::new(config, Ok::<(), String>(())).expect("build preview")
}

/// The body the formatter gives a plain-text message: its text, run through the preview.
fn plain_text_body(preview: &Preview<'_, FakeConfig, ()>, message: &Message) -> String {
    preview.render_run(message, &vec![text_range("")], "", &Vec::new())
}

#[test]
fn attachment_descriptor_classifies_media_without_leaking_paths() {
    assert_eq!(
        attachment_descriptor(&attachment_with_mime("image/png", false)),
        "[Image]"
    );
    assert_eq!(
        attachment_descriptor(&attachment_with_mime("video/mp4", false)),
        "[Video]"
    );
    assert_eq!(
        attachment_descriptor(&attachment_with_mime("audio/x-m4a", false)),
        "[Audio]"
    );
    assert_eq!(
        attachment_descriptor(&attachment_with_mime("application/pdf", false)),
        "[Attachment]"
    );
    // A sticker is labeled regardless of its underlying MIME type.
    assert_eq!(
        attachment_descriptor(&attachment_with_mime("image/png", true)),
        "[Sticker]"
    );
    // The descriptor never exposes the file name or path on disk.
    let descriptor = attachment_descriptor(&attachment_with_mime("image/png", false));
    assert!(!descriptor.contains("secret-file"));
    assert!(!descriptor.contains('/'));
}

#[test]
fn preserves_emoji_and_unicode_in_body() {
    let config = fake_config();
    let preview = build_preview(&config);

    // Emoji (incl. skin tone), accents, currency, CJK, and punctuation must
    // pass through the renderer unchanged - nothing is sanitized.
    let original = "Hi \u{1F44B}\u{1F3FD} caf\u{e9} \u{4F60}\u{597D} \u{20AC}5 \u{2705}";
    let mut message = fake_message();
    message.text = Some(original.to_string());
    let body = plain_text_body(&preview, &message);

    let rendered = preview.render(&message, &vec![body]);
    assert_eq!(rendered.body, original);
}

#[test]
fn renders_plain_text_body_without_metadata_header() {
    let config = fake_config();
    let preview = build_preview(&config);

    let mut message = fake_message();
    message.text = Some("Hello world".to_string());
    let body = plain_text_body(&preview, &message);

    let rendered = preview.render(&message, &vec![body]);
    // Body is the message content only, with no timestamp/sender header.
    assert_eq!(rendered.body, "Hello world");
    assert!(rendered.annotations.is_empty());
}

#[test]
fn annotations_flag_reply_counts() {
    let mut message = fake_message();
    assert!(annotations(&message).is_empty());

    message.num_replies = 2;
    let badges = annotations(&message);
    assert!(badges.iter().any(|badge| badge == "2 replies"));
}

#[test]
fn annotations_follow_their_order_and_singular_reply() {
    let mut message = fake_message();
    message.is_reply = true;
    message.num_replies = 1;
    message.is_edited = true;
    message.is_expressive = true;
    assert_eq!(annotations(&message), vec!["reply", "1 reply", "edited", "effect"]);

    message.num_replies = 1234;
    assert_eq!(annotations(&message)[1], "1234 replies");

    message.num_replies = -3;
    assert_eq!(annotations(&message), vec!["reply", "edited", "effect"]);
}

#[test]
fn annotations_for_large_reply_counts() {
    let mut message = fake_message();
    message.num_replies = i32::MAX;
    assert_eq!(annotations(&message), vec!["2147483647 replies"]);
    message.num_replies = 10;
    assert_eq!(annotations(&message), vec!["10 replies"]);
}

#[test]
fn descriptor_of_text_and_other_media() {
    assert_eq!(attachment_descriptor(&attachment_with_mime("text/plain", false)), "[Text]");
    // No slash: not a MIME category at all.
    assert_eq!(attachment_descriptor(&attachment_with_mime("image", false)), "[Attachment]");
    assert_eq!(attachment_descriptor(&attachment_with_mime("/png", false)), "[Attachment]");
    assert_eq!(attachment_descriptor(&attachment_with_mime("model/gltf", false)), "[Attachment]");
    assert_eq!(attachment_descriptor(&attachment_with_mime("", false)), "[Attachment]");
    // A sticker without a MIME type is still a sticker.
    let mut sticker = attachment_without_mime(None);
    sticker.is_sticker = true;
    assert_eq!(attachment_descriptor(&sticker), "[Sticker]");
}

#[test]
fn media_type_falls_back_to_the_type_identifier() {
    let voice = attachment_without_mime(Some("com.apple.coreaudio-format"));
    assert_eq!(voice.mime_type(), MediaType::Audio);
    assert_eq!(attachment_descriptor(&voice), "[Audio]");

    let other = attachment_without_mime(Some("public.jpeg"));
    assert_eq!(other.mime_type(), MediaType::Unknown);
    assert_eq!(attachment_descriptor(&other), "[Attachment]");

    assert_eq!(attachment_without_mime(None).mime_type(), MediaType::Unknown);
    assert_eq!(attachment_with_mime("image/heic", false).mime_type(), MediaType::Image);
    assert_eq!(attachment_with_mime("application/pdf", false).mime_type(), MediaType::Application);
    assert_eq!(attachment_with_mime("font/ttf", false).mime_type(), MediaType::Other);
}

#[test]
fn descriptor_ignores_file_names() {
    let a = attachment_with_mime("video/quicktime", false);
    let mut b = attachment_with_mime("video/quicktime", false);
    b.filename = Some("another/place/movie.mov".to_string());
    b.transfer_name = Some("movie.mov".to_string());
    b.copied_path = Some("/tmp/export/movie.mov".to_string());
    assert_eq!(attachment_descriptor(&a), attachment_descriptor(&b));
}

#[test]
fn render_trims_parts_and_drops_blank_ones() {
    let config = fake_config();
    let preview = build_preview(&config);
    let message = fake_message();
    let parts = vec![
        "  first line \n".to_string(),
        " \t\u{3000} ".to_string(),
        String::new(),
        "\u{a0}second\u{2003}".to_string(),
    ];
    let rendered = preview.render(&message, &parts);
    assert_eq!(rendered.body, "first line\nsecond");
    assert!(rendered.annotations.is_empty());
}

#[test]
fn render_keeps_inner_whitespace_and_trims_the_whole_body() {
    let config = fake_config();
    let preview = build_preview(&config);
    let message = fake_message();
    let parts = vec!["a  b".to_string(), "c\n\nd".to_string()];
    let rendered = preview.render(&message, &parts);
    assert_eq!(rendered.body, "a  b\nc\n\nd");
    assert_eq!(rendered.body.trim(), rendered.body);
}

#[test]
fn render_of_nothing_is_empty() {
    let config = fake_config();
    let preview = build_preview(&config);
    let rendered = preview.render(&fake_message(), &Vec::new());
    assert_eq!(rendered.body, "");
    let rendered = preview.render(&fake_message(), &vec!["   ".to_string()]);
    assert_eq!(rendered.body, "");
}

#[test]
fn render_announcement_trims_line_and_has_no_badges() {
    let config = fake_config();
    let preview = build_preview(&config);
    let mut message = fake_message();
    message.is_announcement = true;
    message.is_reply = true;
    message.num_replies = 3;
    let written = vec!["  Alice named the ".to_string(), "conversation \"Trip\"\n".to_string()];
    let rendered = preview.render(&message, &written);
    assert_eq!(rendered.body, "Alice named the conversation \"Trip\"");
    assert!(rendered.annotations.is_empty());
}

#[test]
fn render_carries_badges_of_ordinary_messages() {
    let config = fake_config();
    let preview = build_preview(&config);
    let mut message = fake_message();
    message.is_edited = true;
    let rendered = preview.render(&message, &vec!["Hi".to_string()]);
    assert_eq!(rendered.body, "Hi");
    assert_eq!(rendered.annotations, vec!["edited"]);
}

#[test]
fn render_run_plain_prefers_the_attributed_text() {
    let config = fake_config();
    let preview = build_preview(&config);
    let mut message = fake_message();
    message.text = Some("raw text".to_string());
    let ranges = vec![text_range("raw "), text_range("text")];
    assert_eq!(preview.render_run(&message, &ranges, "*styled* text", &Vec::new()), "*styled* text");
    assert_eq!(preview.render_run(&message, &ranges, "", &Vec::new()), "raw text");
    assert_eq!(preview.render_run(&fake_message(), &Vec::new(), "", &Vec::new()), "");
}

#[test]
fn render_run_mixed_renders_descriptors_and_missing_attachments() {
    let config = fake_config();
    let preview = build_preview(&config);
    let message = fake_message();
    let attachments = vec![
        attachment_with_mime("image/jpeg", false),
        attachment_with_mime("image/png", true),
    ];
    let ranges = vec![
        text_range("Look"),
        attachment_range(Some(0), "\u{fffc}"),
        text_range(""),
        attachment_range(Some(1), "\u{fffc}"),
        attachment_range(Some(7), "\u{fffc}"),
        // An attachment range that was not resolved is rendered as its text.
        attachment_range(None, "(unresolved)"),
        attachment_range(None, ""),
        text_range("bye"),
    ];
    let body = preview.render_run(&message, &ranges, "ignored", &attachments);
    assert_eq!(body, "Look\n[Image]\n[Sticker]\nAttachment missing!\n(unresolved)\nbye");
}

#[test]
fn render_run_adds_the_translation() {
    let config = fake_config();
    let preview = build_preview(&config);
    let mut message = fake_message();
    message.text = Some("Hola".to_string());
    message.translation = Some("Hello".to_string());
    assert_eq!(preview.render_run(&message, &vec![text_range("Hola")], "", &Vec::new()), "Hola\nHello");

    let attachments = vec![attachment_with_mime("video/mp4", false)];
    let ranges = vec![text_range("Mira"), attachment_range(Some(0), "")];
    assert_eq!(
        preview.render_run(&message, &ranges, "Mira", &attachments),
        "Mira\n[Video]\nHello"
    );

    message.translation = Some("  ".to_string());
    assert_eq!(preview.render_run(&message, &vec![text_range("Hola")], "", &Vec::new()), "Hola");
}

#[test]
fn render_ignores_the_header() {
    let config = fake_config();
    let preview = build_preview(&config);
    let mut first = fake_message();
    first.text = Some("Same".to_string());
    first.is_edited = true;
    let mut second = fake_message();
    second.text = Some("Same".to_string());
    second.is_edited = true;
    second.date = 1;
    second.date_read = 2;
    second.date_delivered = 3;
    second.handle_id = 99;
    second.is_from_me = true;
    let parts = vec!["Same".to_string()];
    assert_eq!(preview.render(&first, &parts), preview.render(&second, &parts));
    assert_eq!(
        preview.render_run(&first, &vec![text_range("Same")], "", &Vec::new()),
        preview.render_run(&second, &vec![text_range("Same")], "", &Vec::new())
    );
}

#[test]
fn format_attachment_and_sticker_use_descriptors() {
    let config = fake_config();
    let preview = build_preview(&config);
    match preview.format_attachment(&attachment_with_mime("audio/mpeg", false)) {
        AttachmentRender::Embedded(content) => assert_eq!(content, "[Audio]"),
        _ => panic!("attachments are embedded as descriptors"),
    }
    assert_eq!(preview.format_sticker(&attachment_with_mime("image/png", true)), "[Sticker]");
}

#[test]
fn preview_new_passes_on_the_scratch_error() {
    let config = fake_config();
    let built: Result<Preview<'_, FakeConfig, u32>, String> = Preview::new(&config, Ok(7));
    let preview = built.expect("scratch state was made");
    assert_eq!(preview.config().name, "fake");
    let failed: Result<Preview<'_, FakeConfig, u32>, String> =
        Preview::new(&config, Err("no scratch directory".to_string()));
    assert_eq!(failed.err(), Some("no scratch directory".to_string()));
}

#[test]
fn body_builders() {
    let config = fake_config();
    let preview = build_preview(&config);
    let message = fake_message();
    assert_eq!(preview.body_empty(), "");
    assert_eq!(preview.body_text_bubble("x".to_string()), "x");
    assert_eq!(preview.body_text_edited("e".to_string()), "e");
    assert_eq!(preview.body_attachment("a".to_string()), "a");
    assert_eq!(preview.body_attachment_error("broken"), "broken");
    assert_eq!(preview.body_attachment_missing(), "Attachment missing!");
    assert_eq!(preview.body_sticker("s".to_string()), "s");
    assert_eq!(preview.body_app("app".to_string()), "app");
    assert_eq!(
        preview.body_app_error(&message, "bad payload".to_string()),
        "Unable to format app message: bad payload"
    );
    assert_eq!(preview.body_retracted("r".to_string()), "r");
    assert_eq!(preview.body_escape("<b>&"), "<b>&");
    assert_eq!(preview.body_text_with_translation(&message, "plain".to_string()), "plain");
}

#[test]
fn body_text_translated_skips_blank_translations() {
    let config = fake_config();
    let preview = build_preview(&config);
    assert_eq!(
        preview.body_text_translated("Hola".to_string(), "Hello".to_string()),
        "Hello\nHola"
    );
    assert_eq!(preview.body_text_translated(" \n ".to_string(), "Hello".to_string()), "Hello");
    assert_eq!(preview.body_text_translated(String::new(), "Hello".to_string()), "Hello");
}

#[test]
fn message_preview_default_is_empty() {
    let preview = MessagePreview::default();
    assert_eq!(preview.body, "");
    assert!(preview.annotations.is_empty());
}
