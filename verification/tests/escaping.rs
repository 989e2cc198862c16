use markup_emitter::escape::{attribute, escape_text, non_attribute, Escape};

#[test]
fn attribute_escapes_reserved() {
    assert_eq!(attribute("a<b&c\"d>e"), "a&lt;b&amp;c&quot;d&gt;e");
}

#[test]
fn non_attribute_escapes_reserved_but_keeps_quote() {
    assert_eq!(non_attribute("a<b&c\"d>e"), "a&lt;b&amp;c\"d&gt;e");
}

#[test]
fn modes_differ_on_quote() {
    assert_ne!(attribute("a\"b"), non_attribute("a\"b"));
}

#[test]
fn modes_agree_without_quote() {
    assert_eq!(attribute("x<y&z"), non_attribute("x<y&z"));
}

#[test]
fn escape_of_empty_is_empty() {
    assert_eq!(attribute(""), "");
    assert_eq!(non_attribute(""), "");
}

#[test]
fn no_escape_mode_passes_reserved_through() {
    assert_eq!(escape_text("<&\">", Escape::NoEscape), "<&\">");
}

#[test]
fn escape_of_unreserved_text_is_a_noop() {
    assert_eq!(attribute("plain text"), "plain text");
    assert_eq!(non_attribute("plain text"), "plain text");
}

#[test]
fn reescaping_unreserved_text_changes_nothing() {
    let once = attribute("safe-1.2_x");
    let twice = attribute(&once);
    assert_eq!(once, "safe-1.2_x");
    assert_eq!(twice, once);
    let once_body = non_attribute("safe-1.2_x");
    let twice_body = non_attribute(&once_body);
    assert_eq!(twice_body, once_body);
}

#[test]
fn ampersand_alone_becomes_entity() {
    assert_eq!(attribute("&"), "&amp;");
    assert_eq!(non_attribute("&"), "&amp;");
}
