use rotext::parse_and_render_to_html;
use rotext::render::{write_escaped_double_quoted_attribute_value, write_escaped_html_text};

#[test]
fn renders_paragraphs_and_breaks() {
    assert_eq!(parse_and_render_to_html(b"a"), "<p>a</p>");
    assert_eq!(parse_and_render_to_html(b"a\nb"), "<p>a<br>b</p>");
    assert_eq!(parse_and_render_to_html(b"---"), "<hr>");
    assert_eq!(parse_and_render_to_html(b""), "");
}

#[test]
fn renders_headings_and_quotes() {
    assert_eq!(parse_and_render_to_html(b"= h ="), "<h1>h</h1>");
    assert_eq!(parse_and_render_to_html(b"=== h"), "<h3>h</h3>");
    assert_eq!(
        parse_and_render_to_html(b"> q"),
        "<blockquote><p>q</p></blockquote>"
    );
}

#[test]
fn renders_code_blocks() {
    assert_eq!(
        parse_and_render_to_html(b"```x\"y\ncode\n```"),
        "<x-code-block info-string=\"x&quot;y\">code</x-code-block>"
    );
}

#[test]
fn escapes_text() {
    assert_eq!(parse_and_render_to_html(b"a<b&c"), "<p>a&lt;b&amp;c</p>");
    let mut out = vec![];
    write_escaped_html_text(&mut out, b"<&\">");
    assert_eq!(out, b"&lt;&amp;\">".to_vec());
    let mut out = vec![];
    write_escaped_double_quoted_attribute_value(&mut out, b"<&\">");
    assert_eq!(out, b"<&amp;&quot;>".to_vec());
}

#[test]
fn keeps_non_ascii_text() {
    assert_eq!(parse_and_render_to_html("é<".as_bytes()), "<p>é&lt;</p>");
}

#[test]
fn replaces_invalid_utf8() {
    assert_eq!(parse_and_render_to_html(b"a\xffb"), "<p>a\u{FFFD}b</p>");
}
