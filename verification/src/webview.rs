//! What the embedded preview webview computes without a window: the URL it loads.

use vstd::prelude::*;
use vstd::utf8::encode_scalar;

use crate::text::chars_of;

verus! {

broadcast use vstd::string::group_string_axioms;

/// Whether `c` may stand as itself in the path of a URL: an ASCII letter or digit, one of
/// the unreserved marks `- . _ ~`, a sub-delimiter `! $ & ' ( ) * + , ; =`, or one of
/// `: @ /`. Everything else (space, `#`, `?`, `%`, controls, non-ASCII, ...) is
/// percent-encoded.
pub open spec fn url_safe(c: char) -> bool {
    ||| 'a' <= c <= 'z'
    ||| 'A' <= c <= 'Z'
    ||| '0' <= c <= '9'
    ||| c == '-' || c == '.' || c == '_' || c == '~'
    ||| c == '!' || c == '$' || c == '&' || c == '\'' || c == '(' || c == ')'
    ||| c == '*' || c == '+' || c == ',' || c == ';' || c == '='
    ||| c == ':' || c == '@' || c == '/'
}

/// Whether `c` may stand as itself in the path of a URL.
pub fn is_url_safe(c: char) -> (b: bool)
    ensures
        b == url_safe(c),
{
    ('a' <= c && c <= 'z') || ('A' <= c && c <= 'Z') || ('0' <= c && c <= '9') || c == '-' || c
        == '.' || c == '_' || c == '~' || c == '!' || c == '$' || c == '&' || c == '\'' || c
        == '(' || c == ')' || c == '*' || c == '+' || c == ',' || c == ';' || c == '=' || c
        == ':' || c == '@' || c == '/'
}

/// The upper-case hexadecimal digit for `d`.
pub open spec fn hex_digit(d: nat) -> char {
    seq!['0', '1', '2', '3', '4', '5', '6', '7', '8', '9', 'A', 'B', 'C', 'D', 'E', 'F'][d as int]
}

/// A byte written as `%` and two upper-case hexadecimal digits.
pub open spec fn percent_byte(b: u8) -> Seq<char> {
    seq!['%', hex_digit((b / 16) as nat), hex_digit((b % 16) as nat)]
}

/// Bytes written one after another as `%XX`.
pub open spec fn percent_bytes(bytes: Seq<u8>) -> Seq<char>
    decreases bytes.len(),
{
    if bytes.len() == 0 {
        seq![]
    } else {
        percent_bytes(bytes.drop_last()) + percent_byte(bytes.last())
    }
}

/// The URL form of one character of a path: itself when URL-safe, otherwise each byte of
/// its UTF-8 encoding as `%XX`.
pub open spec fn url_char(c: char) -> Seq<char> {
    if url_safe(c) {
        seq![c]
    } else {
        percent_bytes(encode_scalar(c as u32))
    }
}

/// The URL form of a path, character by character.
pub open spec fn url_path(path: Seq<char>) -> Seq<char>
    decreases path.len(),
{
    if path.len() == 0 {
        seq![]
    } else {
        url_path(path.drop_last()) + url_char(path.last())
    }
}

/// A stretch of URL-safe characters comes through as it is.
proof fn lemma_url_path_safe_run(s: Seq<char>, start: int, end: int)
    requires
        0 <= start <= end <= s.len(),
        forall|i: int| start <= i < end ==> url_safe(#[trigger] s[i]),
    ensures
        url_path(s.take(end)) == url_path(s.take(start)) + s.subrange(start, end),
    decreases end - start,
{
    if end == start {
        assert(s.subrange(start, end) =~= Seq::<char>::empty());
    } else {
        lemma_url_path_safe_run(s, start, end - 1);
        assert(s.take(end).drop_last() =~= s.take(end - 1));
        assert(s.subrange(start, end - 1).push(s[end - 1]) =~= s.subrange(start, end));
    }
}

/// The UTF-8 encoding of `c`.
fn utf8_bytes(c: char) -> (v: Vec<u8>)
    ensures
        v@ == encode_scalar(c as u32),
{
    let u = c as u32;
    if u <= 0x7F {
        vec![(u & 0x7F) as u8]
    } else if 0x80 <= u && u <= 0x7FF {
        vec![0xC0 | ((u >> 6) & 0x1F) as u8, 0x80 | (u & 0x3F) as u8]
    } else if 0x800 <= u && u <= 0xFFFF && !(0xD800 <= u && u <= 0xDFFF) {
        vec![
            0xE0 | ((u >> 12) & 0x0F) as u8,
            0x80 | ((u >> 6) & 0x3F) as u8,
            0x80 | (u & 0x3F) as u8,
        ]
    } else {
        vec![
            0xF0 | ((u >> 18) & 0x7) as u8,
            0x80 | ((u >> 12) & 0x3F) as u8,
            0x80 | ((u >> 6) & 0x3F) as u8,
            0x80 | (u & 0x3F) as u8,
        ]
    }
}

/// The one-character string for the hexadecimal digit `d`.
fn hex_str(d: u8) -> (r: &'static str)
    requires
        d < 16,
    ensures
        r@ == seq![hex_digit(d as nat)],
{
    let digits = "0123456789ABCDEF";
    proof {
        reveal_strlit("0123456789ABCDEF");
    }
    let r = digits.substring_char(d as usize, (d + 1) as usize);
    assert(r@ =~= seq![hex_digit(d as nat)]);
    r
}

/// Appends `bytes` to `out`, each as `%XX`.
fn push_percent_bytes(out: &mut String, bytes: &Vec<u8>)
    ensures
        final(out)@ == old(out)@ + percent_bytes(bytes@),
{
    let ghost start = out@;
    for i in 0..bytes.len()
        invariant
            out@ == start + percent_bytes(bytes@.take(i as int)),
    {
        let b = bytes[i];
        proof {
            reveal_strlit("%");
            assert(bytes@.take(i + 1).drop_last() =~= bytes@.take(i as int));
        }
        out.append("%");
        out.append(hex_str(b / 16));
        out.append(hex_str(b % 16));
        assert(out@ =~= start + percent_bytes(bytes@.take(i + 1)));
    }
    assert(bytes@.take(bytes.len() as int) =~= bytes@);
}

/// The `file://` URL of a local path, given as the path's display text: `file://`, then
/// the path with every character that a URL parser would misread (space, `#`, `?`, `%`,
/// non-ASCII, ...) percent-encoded byte by byte in UTF-8.
pub fn file_url(path: &str) -> (r: String)
    ensures
        r@ == "file://"@ + url_path(path@),
{
    let chars = chars_of(path);
    let n = chars.len();
    let mut r = String::from_str("file://");
    let ghost prefix = r@;
    let mut start: usize = 0;
    let mut i: usize = 0;
    while i < n
        invariant
            n == chars@.len(),
            chars@ == path@,
            start <= i <= n,
            r@ == prefix + url_path(path@.take(start as int)),
            forall|j: int| start <= j < i ==> url_safe(#[trigger] path@[j]),
        decreases n - i,
    {
        let c = chars[i];
        if !is_url_safe(c) {
            proof {
                lemma_url_path_safe_run(path@, start as int, i as int);
                assert(path@.take(i + 1).drop_last() =~= path@.take(i as int));
            }
            r.append(path.substring_char(start, i));
            let bytes = utf8_bytes(c);
            push_percent_bytes(&mut r, &bytes);
            start = i + 1;
        }
        i = i + 1;
    }
    proof {
        lemma_url_path_safe_run(path@, start as int, n as int);
        assert(path@.take(n as int) =~= path@);
    }
    r.append(path.substring_char(start, n));
    r
}

/// Every character of a path's URL form is URL-safe or the `%` of an escape, so no space,
/// `#` or `?` is left for a URL parser to misread.
pub proof fn lemma_url_path_is_safe(path: Seq<char>)
    ensures
        forall|i: int|
            0 <= i < url_path(path).len() ==> url_safe(#[trigger] url_path(path)[i])
                || url_path(path)[i] == '%',
    decreases path.len(),
{
    if path.len() > 0 {
        lemma_url_path_is_safe(path.drop_last());
        let c = path.last();
        if !url_safe(c) {
            lemma_percent_bytes_safe(encode_scalar(c as u32));
        }
        let rest = url_path(path.drop_last());
        let out = url_path(path);
        assert forall|i: int| 0 <= i < out.len() implies url_safe(#[trigger] out[i]) || out[i]
            == '%' by {
            if i < rest.len() {
                assert(out[i] == rest[i]);
            } else {
                assert(out[i] == url_char(c)[i - rest.len()]);
            }
        }
    }
}

/// Escaped bytes are written with `%` and hexadecimal digits only.
proof fn lemma_percent_bytes_safe(bytes: Seq<u8>)
    ensures
        forall|i: int|
            0 <= i < percent_bytes(bytes).len() ==> url_safe(#[trigger] percent_bytes(bytes)[i])
                || percent_bytes(bytes)[i] == '%',
    decreases bytes.len(),
{
    if bytes.len() > 0 {
        lemma_percent_bytes_safe(bytes.drop_last());
        let rest = percent_bytes(bytes.drop_last());
        let out = percent_bytes(bytes);
        let b = bytes.last();
        let hs = seq!['0', '1', '2', '3', '4', '5', '6', '7', '8', '9', 'A', 'B', 'C', 'D', 'E', 'F'];
        assert forall|d: nat| d < 16 implies url_safe(#[trigger] hex_digit(d)) by {
            assert(hs[0] == '0' && hs[1] == '1' && hs[2] == '2' && hs[3] == '3');
            assert(hs[4] == '4' && hs[5] == '5' && hs[6] == '6' && hs[7] == '7');
            assert(hs[8] == '8' && hs[9] == '9' && hs[10] == 'A' && hs[11] == 'B');
            assert(hs[12] == 'C' && hs[13] == 'D' && hs[14] == 'E' && hs[15] == 'F');
        }
        assert(url_safe(hex_digit((b / 16) as nat)));
        assert(url_safe(hex_digit((b % 16) as nat)));
        assert forall|i: int| 0 <= i < out.len() implies url_safe(#[trigger] out[i]) || out[i]
            == '%' by {
            if i < rest.len() {
                assert(out[i] == rest[i]);
            } else {
                assert(out[i] == percent_byte(b)[i - rest.len()]);
            }
        }
    }
}

/// A path made only of URL-safe characters is its own URL form.
pub proof fn lemma_url_path_of_safe_path(path: Seq<char>)
    requires
        forall|i: int| 0 <= i < path.len() ==> url_safe(#[trigger] path[i]),
    ensures
        url_path(path) == path,
{
    lemma_url_path_safe_run(path, 0, path.len() as int);
    assert(path.take(0) =~= Seq::<char>::empty());
    assert(path.take(path.len() as int) =~= path);
    assert(path.subrange(0, path.len() as int) =~= path);
}

} // verus!
