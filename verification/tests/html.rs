//! Text and markup.

use rustle::html::{html_to_text, to_html};

#[test]
fn flattens_markup() {
    let html = "<div>Hello<br>there</div><style>p{}</style><p>a &amp; b</p><ul><li>x</li><li>y</li></ul>";
    assert_eq!(html_to_text(html), "Hello\nthere\na & b\n\n- x\n- y");
    assert_eq!(html_to_text("1 < 2 and <b>bold</b>"), "1 < 2 and bold");
    assert_eq!(html_to_text("<!-- a > b -->text"), "text");
}

#[test]
fn escapes() {
    assert_eq!(to_html("a<b>\n\"c\""), "a&lt;b&gt;<br>&quot;c&quot;");
}

#[test]
fn escaped_text_reads_back() {
    for text in ["plain", "a < b & c", "\"quoted\" > x"] {
        assert_eq!(html_to_text(&to_html(text)), text);
        assert!(!to_html(text).contains('<'));
    }
}
