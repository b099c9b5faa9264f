use imessage_preview::cli::{call_log_export_report, call_log_format, CallLogFormat, CallLogOptionError};
use imessage_preview::text::{chars_of, decimal_string, is_space_char, join, same_text, trim};
use imessage_preview::webview::file_url;

#[test]
fn trim_matches_std_trim() {
    let samples = [
        "",
        "   ",
        "  hi  ",
        "\t\n\u{b}\u{c}\rx\r\n",
        "\u{85}\u{a0}\u{1680}\u{2000}\u{200a}\u{2028}\u{2029}\u{202f}\u{205f}\u{3000}y\u{3000}",
        "\u{200b}zero width is not space\u{200b}",
        "inner   space",
        "caf\u{e9} \u{1F44B}",
    ];
    for s in samples {
        assert_eq!(trim(s), s.trim(), "trimming {:?}", s);
    }
}

#[test]
fn trim_is_idempotent() {
    let s = " \u{2003} a b \n";
    assert_eq!(trim(trim(s)), trim(s));
    assert_eq!(trim(s), "a b");
}

#[test]
fn is_space_char_matches_std() {
    for u in 0u32..0x3100 {
        if let Some(c) = char::from_u32(u) {
            assert_eq!(is_space_char(c), c.is_whitespace(), "char {:#x}", u);
        }
    }
    assert!(!is_space_char('\u{feff}'));
    assert!(!is_space_char('\u{10ffff}'));
}

#[test]
fn chars_of_lists_characters() {
    assert_eq!(chars_of("a\u{e9}\u{1F44B}"), vec!['a', '\u{e9}', '\u{1F44B}']);
    assert!(chars_of("").is_empty());
}

#[test]
fn join_places_separators_between_parts() {
    let parts = vec!["a".to_string(), String::new(), "c".to_string()];
    assert_eq!(join(&parts, "\n"), "a\n\nc");
    assert_eq!(join(&Vec::new(), "\n"), "");
    assert_eq!(join(&vec!["only".to_string()], ", "), "only");
    assert_eq!(join(&parts, ""), "ac");
}

#[test]
fn decimal_string_matches_std_formatting() {
    for n in [0u64, 1, 9, 10, 11, 99, 100, 1234, 4_294_967_295, u64::MAX] {
        assert_eq!(decimal_string(n), n.to_string());
    }
    assert_eq!(decimal_string(2), "2");
}

#[test]
fn same_text_compares_characters() {
    assert!(same_text("image", "image"));
    assert!(!same_text("image", "Image"));
    assert!(!same_text("image", "imag"));
    assert!(same_text("", ""));
}

#[test]
fn call_log_format_selection() {
    assert_eq!(call_log_format(None, false), Ok(CallLogFormat::Csv));
    assert_eq!(call_log_format(None, true), Ok(CallLogFormat::Csv));
    assert_eq!(call_log_format(Some("html"), true), Ok(CallLogFormat::Html));
    assert_eq!(call_log_format(Some("pdf"), true), Ok(CallLogFormat::Pdf));
    assert_eq!(call_log_format(Some("csv"), true), Ok(CallLogFormat::Csv));
    assert_eq!(call_log_format(Some("HTML"), true), Ok(CallLogFormat::Csv));
    assert_eq!(
        call_log_format(Some("html"), false),
        Err(CallLogOptionError::FormatWithoutCallLogs)
    );
}

#[test]
fn call_log_export_report_wording() {
    assert_eq!(
        call_log_export_report(1, "chat.db", "/tmp/out.csv"),
        "Exported 1 call log from chat.db to /tmp/out.csv"
    );
    assert_eq!(
        call_log_export_report(0, "chat.db", "out"),
        "Exported 0 call logs from chat.db to out"
    );
    assert_eq!(
        call_log_export_report(25, "backup", "x.html"),
        "Exported 25 call logs from backup to x.html"
    );
}

#[test]
fn file_url_percent_encodes_what_a_url_would_misread() {
    assert_eq!(file_url("/tmp/preview.html"), "file:///tmp/preview.html");
    assert_eq!(file_url("/tmp/My Chat #1.html"), "file:///tmp/My%20Chat%20%231.html");
    assert_eq!(file_url("/a?b%c"), "file:///a%3Fb%25c");
    assert_eq!(file_url("relative dir/a.html"), "file://relative%20dir/a.html");
    assert_eq!(file_url("/Users/jos\u{e9}/\u{1F44B}.html"), "file:///Users/jos%C3%A9/%F0%9F%91%8B.html");
    assert_eq!(file_url("/x/~a-b_c.d!$&'()*+,;=:@"), "file:///x/~a-b_c.d!$&'()*+,;=:@");
    assert_eq!(file_url("\"<>`{}|\\^\t"), "file://%22%3C%3E%60%7B%7D%7C%5C%5E%09");
    assert_eq!(file_url(""), "file://");
}
