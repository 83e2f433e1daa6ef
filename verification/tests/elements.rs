use diagramma::svg::elements::text::escape_xml;
use diagramma::svg::elements::{class_attr, render_group, style_attr};

#[test]
fn test_class_attr_formats_correctly() {
    assert_eq!(class_attr(&[]), "");
    assert_eq!(class_attr(&["dm-blue-fill"]), r#" class="dm-blue-fill""#);
    assert_eq!(
        class_attr(&["dm-blue-fill", "dm-blue-stroke"]),
        r#" class="dm-blue-fill dm-blue-stroke""#
    );
}

#[test]
fn test_style_attr_formats_correctly() {
    assert_eq!(style_attr(&[]), "");
    assert_eq!(style_attr(&[("fill", "red")]), r#" style="fill: red""#);
    assert_eq!(
        style_attr(&[("fill", "red"), ("stroke", "blue")]),
        r#" style="fill: red; stroke: blue""#
    );
}

#[test]
fn test_escape_xml_escapes_special_chars() {
    assert_eq!(escape_xml("<script>"), "&lt;script&gt;");
    assert_eq!(escape_xml("&"), "&amp;");
    assert_eq!(escape_xml("\"quoted\""), "&quot;quoted&quot;");
}

#[test]
fn test_escape_xml_preserves_normal_text() {
    assert_eq!(escape_xml("Hello World"), "Hello World");
    assert_eq!(escape_xml("Test 123"), "Test 123");
}

#[test]
fn escape_xml_mixed_and_unicode() {
    assert_eq!(escape_xml(""), "");
    assert_eq!(escape_xml("a < b && c > \"d\""), "a &lt; b &amp;&amp; c &gt; &quot;d&quot;");
    assert_eq!(escape_xml("黑风<雷>"), "黑风&lt;雷&gt;");
    assert_eq!(escape_xml("&amp;"), "&amp;amp;");
}

#[test]
fn render_group_exact() {
    assert_eq!(
        render_group("n1", "<rect/>", "dm-node"),
        r#"<g id="n1" class="dm-node"><rect/></g>"#
    );
    assert_eq!(class_attr(&["a", "b", "c"]), r#" class="a b c""#);
    assert_eq!(
        style_attr(&[("a", "1"), ("b", "2"), ("c", "3")]),
        r#" style="a: 1; b: 2; c: 3""#
    );
}

#[test]
fn escaped_text_has_no_markup_characters() {
    let escaped = escape_xml(r#"<a href="x">Tom & "Jerry"</a>"#);
    assert_eq!(
        escaped,
        "&lt;a href=&quot;x&quot;&gt;Tom &amp; &quot;Jerry&quot;&lt;/a&gt;"
    );
    assert!(!escaped.contains('<') && !escaped.contains('>') && !escaped.contains('"'));
    assert_eq!(escape_xml("plain text 42"), "plain text 42");
}

#[test]
fn escaping_reads_back_to_the_input() {
    let input = r#"a&lt;b <c> "d" & e"#;
    let escaped = escape_xml(input);
    let back = escaped
        .replace("&quot;", "\"")
        .replace("&gt;", ">")
        .replace("&lt;", "<")
        .replace("&amp;", "&");
    assert_eq!(back, input);
}
