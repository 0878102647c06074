//! Reading messages.

use rustle::mime::{
    parse_message, preview, preview_from_slices, sandbox_html, undo_truncated_base64, ParsedMessage,
};

#[test]
fn preview_prefers_text_and_collapses_whitespace() {
    let raw = b"Subject: hi\r\nContent-Type: multipart/alternative; boundary=b\r\n\r\n--b\r\nContent-Type: text/plain\r\n\r\nHello\n  there\r\n\r\nworld\r\n--b\r\nContent-Type: text/html\r\n\r\n<p>Hello</p>\r\n--b--\r\n";
    assert_eq!(preview(&parse_message(raw)), "Hello there world");
    let html = b"Content-Type: text/html\r\n\r\n<style>p{}</style><p>One</p><p>Two &amp; three</p>";
    assert_eq!(preview(&parse_message(html)), "One Two & three");
}

#[test]
fn preview_from_partial_fetch() {
    let headers =
        b"Content-Type: multipart/alternative; boundary=b\r\nContent-Transfer-Encoding: 7bit\r\n\r\n";
    // Cut off before the closing boundary, as a `<0.N>` fetch would.
    let text = b"--b\r\nContent-Type: text/plain\r\n\r\nStart of the body";
    assert_eq!(preview_from_slices(headers, text), "Start of the body");
    assert_eq!(
        preview_from_slices(b"Subject: x\r\n", b"plain body"),
        "plain body"
    );
    assert_eq!(preview_from_slices(b"", b""), "");
    // A base64 part cut mid-stream still reads as text.
    let headers = b"Content-Type: text/plain\r\nContent-Transfer-Encoding: base64\r\n\r\n";
    assert_eq!(
        preview_from_slices(
            headers,
            b"KipCdW1waW5nIHRoaXMgdG8gdGhlIHRvcCoq\r\nIGFuZCBtb3JlIHRleH"
        ),
        "**Bumping this to the top** and more te"
    );
}

const RAW: &[u8] = b"From: Ada Lovelace <ada@example.com>\r\nTo: Bob <bob@example.org>, carol@example.net\r\nCc: dan@example.net\r\nDate: Wed, 16 Jul 2026 10:00:00 +0000\r\nSubject: Hello\r\nList-Unsubscribe: <mailto:leave@list.example>, <https://list.example/u?\r\n token=abc>\r\nList-Unsubscribe-Post: List-Unsubscribe=One-Click\r\nMIME-Version: 1.0\r\nContent-Type: multipart/mixed; boundary=\"b\"\r\n\r\n--b\r\nContent-Type: multipart/alternative; boundary=\"a\"\r\n\r\n--a\r\nContent-Type: text/plain\r\n\r\nplain body\r\n--a\r\nContent-Type: text/html\r\n\r\n<p>html body</p>\r\n--a--\r\n--b\r\nContent-Type: application/pdf; name=\"doc.pdf\"\r\nContent-Disposition: attachment; filename=\"doc.pdf\"\r\nContent-Transfer-Encoding: base64\r\n\r\nSGVsbG8=\r\n--b--\r\n";

#[test]
fn parses_bodies_headers_and_attachments() {
    let parsed = parse_message(RAW);
    assert_eq!(parsed.subject, "Hello");
    assert_eq!(parsed.from_display, "Ada Lovelace <ada@example.com>");
    assert_eq!(parsed.from_header, "Ada Lovelace <ada@example.com>");
    assert_eq!(
        parsed.to,
        vec!["Bob <bob@example.org>", "carol@example.net"]
    );
    assert_eq!(parsed.cc, vec!["dan@example.net"]);
    assert_eq!(parsed.text_body.as_deref(), Some("plain body"));
    assert_eq!(parsed.html_body.as_deref(), Some("<p>html body</p>"));
    assert_eq!(parsed.attachments.len(), 1);
    assert_eq!(parsed.attachments[0].filename, "doc.pdf");
    assert_eq!(parsed.attachments[0].mime_type, "application/pdf");
    assert_eq!(parsed.attachments[0].content, b"Hello");
    assert!(parsed.date.starts_with("Jul 16, 2026"), "{}", parsed.date);
    let unsubscribe = parsed.unsubscribe.unwrap();
    assert_eq!(unsubscribe.url, "https://list.example/u?token=abc");
    assert_eq!(unsubscribe.mailto, "mailto:leave@list.example");
    assert!(unsubscribe.is_one_click);
}

#[test]
fn sandbox_blocks_remote_images_by_default() {
    let html = sandbox_html("<p>x</p>", false, "a{color:red}");
    assert!(html.contains("img-src data:\""));
    assert!(sandbox_html("", true, "").contains("img-src data: https: http:"));
    assert!(html.contains("<style>a{color:red}</style>"));
}

#[test]
fn the_policy_comes_before_the_message() {
    for allowed in [false, true] {
        let page = sandbox_html("<style>p{}</style><p>x</p>", allowed, "a{color:red}");
        let other = sandbox_html("</head><meta>", allowed, "");
        let end = page.find("<style>").unwrap() + "<style>".len();
        assert_eq!(other.find("<style>").unwrap() + "<style>".len(), end);
        assert_eq!(page[..end], other[..end]);
        let tail = if allowed {
            "img-src data: https: http:\"><style>"
        } else {
            "img-src data:\"><style>"
        };
        assert!(page[..end].ends_with(tail));
        assert!(page[..end].contains("<meta http-equiv=\"Content-Security-Policy\" content=\"default-src 'none';"));
    }
}

#[test]
fn text_that_is_not_base64_stays() {
    assert_eq!(undo_truncated_base64("plain words"), "plain words");
    let nothing = parse_message(b"");
    assert_eq!(nothing.subject, "");
    assert_eq!(nothing.html_body, None);
}

#[test]
fn words_are_never_taken_for_base64() {
    let text = "the quick  brown fox\njumps over the lazy dog";
    let parsed = ParsedMessage {
        text_body: Some(text.into()),
        ..ParsedMessage::default()
    };
    assert_eq!(
        preview(&parsed),
        "the quick brown fox jumps over the lazy dog"
    );
    assert_eq!(
        undo_truncated_base64(text),
        "the quick brown fox jumps over the lazy dog"
    );
    assert_eq!(
        undo_truncated_base64(" KipCdW1waW5nIHRoaXMgdG8g \r\n dGhlIHRvcCoq\r\n"),
        "**Bumping this to the top**"
    );
}
