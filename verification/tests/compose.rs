//! Building, addressing and quoting messages.

use rustle::compose::{
    build_mime_message, extract_recipients, first_recipient, fits_headers, forward_body,
    forward_subject, parse_mailto, quote_reply_body, replace_last_address, reply_all_cc,
    reply_subject, signature_block, split_addresses, suggest_addresses, try_build_mime_message,
    ComposeError, MailtoDraft,
};
use rustle::models::Attachment;

#[test]
fn subjects() {
    assert_eq!(reply_subject("Hi"), "Re: Hi");
    assert_eq!(reply_subject("RE: Hi"), "RE: Hi");
    assert_eq!(forward_subject("Hi"), "Fwd: Hi");
    assert_eq!(forward_subject("FW: Hi"), "FW: Hi");
}

#[test]
fn reply_all_excludes_self_and_target() {
    let cc = reply_all_cc(
        "me@x.y, ada@x.y",
        "bob@x.y, Ada <ada@x.y>",
        "me@x.y",
        "bob@x.y",
    );
    assert_eq!(cc, "ada@x.y");
}

#[test]
fn builds_and_reads_back() {
    let raw = build_mime_message(
        "me@example.com",
        &["Ada <ada@example.com>".into()],
        &["bob@example.org".into()],
        "Hello",
        "<div>Hi <b>there</b></div>",
        &[Attachment {
            filename: "a.txt".into(),
            mime_type: "text/plain".into(),
            content: b"x".to_vec(),
        }],
    )
    .unwrap();
    let text = String::from_utf8_lossy(&raw);
    assert!(text.contains("Subject: Hello"));
    assert!(text.contains("multipart/mixed"));
    assert!(text.contains("multipart/alternative"));
    assert!(text.contains("a.txt"));
    assert_eq!(
        extract_recipients(&raw),
        vec!["ada@example.com", "bob@example.org"]
    );
    assert!(build_mime_message("nonsense", &[], &[], "s", "", &[]).is_err());
}

#[test]
fn mailto_parsing() {
    let draft =
        parse_mailto("mailto:a+b@x.y?subject=Hi%20there&cc=c@x.y&body=line1%0Aline2&to=d@x.y");
    assert_eq!(draft.to, "a+b@x.y, d@x.y");
    assert_eq!(draft.cc, "c@x.y");
    assert_eq!(draft.subject, "Hi there");
    assert_eq!(draft.body_html, "line1<br>line2");
    assert_eq!(parse_mailto("mailto:"), MailtoDraft::default());
}

#[test]
fn address_helpers() {
    let known = vec!["Ada <ada@x.y>".to_string(), "bob@x.y".to_string()];
    assert_eq!(suggest_addresses("bob@x.y, AD", &known, 5), vec![&known[0]]);
    assert!(suggest_addresses("bob@x.y, ", &known, 5).is_empty());
    assert_eq!(
        replace_last_address("bob@x.y, ad", "ada@x.y"),
        "bob@x.y, ada@x.y, "
    );
    assert_eq!(replace_last_address("ad", "ada@x.y"), "ada@x.y, ");
    assert_eq!(split_addresses(" a@b ,, c@d"), vec!["a@b", "c@d"]);
    assert_eq!(
        first_recipient("Ada <ADA@x.y>, bob@x.y"),
        ("Ada".into(), "ada@x.y".into())
    );
    assert_eq!(first_recipient(""), (String::new(), String::new()));
}

#[test]
fn a_bad_address_is_named() {
    let error = build_mime_message("me@x.y", &["not an address".into()], &[], "s", "", &[]);
    assert_eq!(
        error,
        Err(ComposeError::Address("not an address".to_string()))
    );
    let nobody = build_mime_message("me@x.y", &[], &[], "s", "", &[]);
    assert!(matches!(&nobody, Err(ComposeError::Build(_))));
    if let Err(error) = nobody {
        assert_eq!(
            error.message(),
            "could not build the message: missing destination address, invalid envelope"
        );
    }
    assert_eq!(
        ComposeError::Address("x\"y".into()).message(),
        "invalid address \"x\\\"y\""
    );
}

#[test]
fn a_line_break_in_a_name_matters_only_where_the_name_is_written() {
    let broken = "A\nB <you@x.y>".to_string();
    let nobody = "A\nB <nobody>".to_string();
    let good = "Ada <ada@x.y>".to_string();
    assert!(!fits_headers("me@x.y", &[broken.clone()], &[]));
    assert_eq!(
        try_build_mime_message("me@x.y", &[broken.clone()], &[], "s", "", &[]),
        None
    );
    assert!(fits_headers("me@x.y", &[nobody.clone()], &[]));
    assert_eq!(
        try_build_mime_message("me@x.y", &[nobody.clone(), broken], &[], "s", "", &[]),
        Some(Err(ComposeError::Address(nobody.clone())))
    );
    assert_eq!(
        build_mime_message("me@x.y", &[nobody.clone()], &[], "s", "", &[]),
        Err(ComposeError::Address(nobody))
    );
    let built = try_build_mime_message("me@x.y", &[good], &[], "s", "<p>x</p>", &[]);
    assert!(matches!(built, Some(Ok(_))));
}

#[test]
fn a_bad_attachment_type_is_a_stream_of_bytes() {
    let raw = build_mime_message(
        "me@x.y",
        &["you@x.y".into()],
        &[],
        "s",
        "<p>x</p>",
        &[Attachment {
            filename: "b.bin".into(),
            mime_type: "no type".into(),
            content: vec![1, 2],
        }],
    )
    .unwrap();
    assert!(String::from_utf8_lossy(&raw).contains("application/octet-stream"));
}

#[test]
fn marks_are_put_on_once() {
    for subject in ["Hi", "Re: Hi", "fw: Hi", "Fwd: Hi"] {
        let reply = reply_subject(subject);
        assert_eq!(reply_subject(&reply), reply);
        let forward = forward_subject(subject);
        assert_eq!(forward_subject(&forward), forward);
    }
}

#[test]
fn bodies_quote_what_they_answer() {
    assert_eq!(
        signature_block("Me"),
        "<div class=\"signature\">-- <br>Me</div>"
    );
    let reply = quote_reply_body("Ada", "today", "a < b\nc", "Me");
    assert!(reply.contains("a &lt; b<br>c"));
    assert!(reply.contains("<div class=\"signature\">-- <br>Me</div>"));
    assert!(reply.contains("<blockquote>"));
    let forward = forward_body("Ada", "today", "Topic", "text", "");
    assert!(forward.contains("Topic"));
    assert!(!forward.contains("signature"));
}
