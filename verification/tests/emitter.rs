use markup_emitter::escape::Escape;
use markup_emitter::render::{Directive, Renderer};
use markup_emitter::sink::{BoundedSink, BufferSink, WriteError};

fn written(chars: &[char]) -> String {
    chars.iter().collect()
}

#[test]
fn output_order_matches_call_order() {
    let mut r = Renderer::new();
    r.write("A");
    r.splice(0, Escape::NoEscape);
    r.write("C");
    let p = r.finish();
    let values = vec![String::from("B")];
    assert!(p.slots_within(values.len()));
    let mut sink = BufferSink::new();
    assert_eq!(p.run(&values, &mut sink), Ok(()));
    assert_eq!(written(&sink.chars), "ABC");
}

#[test]
fn empty_procedure_writes_nothing() {
    let r = Renderer::new();
    let p = r.finish();
    let mut sink = BufferSink::new();
    assert_eq!(p.run(&vec![], &mut sink), Ok(()));
    assert_eq!(written(&sink.chars), "");
}

#[test]
fn fail_fast_skips_later_writes() {
    let mut r = Renderer::new();
    r.write("AB");
    r.write("CD");
    r.write("EF");
    let p = r.finish();
    // Room for the first write only: the second fails, the third must never
    // be attempted.
    let mut sink = BoundedSink::new(3, 7);
    assert_eq!(p.run(&vec![], &mut sink), Err(WriteError { code: 7 }));
    assert_eq!(written(&sink.chars), "AB");
}

#[test]
fn failure_code_is_surfaced_unchanged() {
    let mut r = Renderer::new();
    r.write("X");
    let p = r.finish();
    let mut sink = BoundedSink::new(0, 42);
    assert_eq!(p.run(&vec![], &mut sink), Err(WriteError { code: 42 }));
    assert_eq!(written(&sink.chars), "");
}

#[test]
fn failure_inside_a_splice_leaves_a_prefix_of_its_output() {
    let mut r = Renderer::new();
    r.splice(0, Escape::Attr);
    let p = r.finish();
    let values = vec![String::from("&&")];
    // The first entity fits, the second does not.
    let mut sink = BoundedSink::new(7, 9);
    assert_eq!(p.run(&values, &mut sink), Err(WriteError { code: 9 }));
    assert_eq!(written(&sink.chars), "&amp;");
}

#[test]
fn open_then_close_produces_empty_element() {
    let mut r = Renderer::new();
    r.element_open_start("div");
    r.element_open_end();
    r.element_close("div");
    let p = r.finish();
    let mut sink = BufferSink::new();
    assert_eq!(p.run(&vec![], &mut sink), Ok(()));
    assert_eq!(written(&sink.chars), "<div></div>");
}

#[test]
fn attribute_start_then_end_produces_empty_attribute() {
    let mut r = Renderer::new();
    r.attribute_start("id");
    r.attribute_end();
    let p = r.finish();
    let mut sink = BufferSink::new();
    assert_eq!(p.run(&vec![], &mut sink), Ok(()));
    assert_eq!(written(&sink.chars), " id=\"\"");
}

#[test]
fn splice_with_no_escape_writes_raw_text() {
    let mut r = Renderer::new();
    r.splice(0, Escape::NoEscape);
    let p = r.finish();
    let values = vec![String::from("<b>&\"raw\"</b>")];
    let mut sink = BufferSink::new();
    assert_eq!(p.run(&values, &mut sink), Ok(()));
    assert_eq!(written(&sink.chars), "<b>&\"raw\"</b>");
}

#[test]
fn splice_escapes_attribute_value_at_run_time() {
    let mut r = Renderer::new();
    r.splice(0, Escape::Attr);
    let p = r.finish();
    let values = vec![String::from("a\"<b")];
    let mut sink = BufferSink::new();
    assert_eq!(p.run(&values, &mut sink), Ok(()));
    assert_eq!(written(&sink.chars), "a&quot;&lt;b");
}

#[test]
fn splice_escapes_body_text_at_run_time() {
    let mut r = Renderer::new();
    r.splice(0, Escape::Body);
    let p = r.finish();
    let values = vec![String::from("a\"<b")];
    let mut sink = BufferSink::new();
    assert_eq!(p.run(&values, &mut sink), Ok(()));
    assert_eq!(written(&sink.chars), "a\"&lt;b");
}

#[test]
fn string_escapes_eagerly_into_a_literal() {
    let mut r = Renderer::new();
    r.string("<i>", Escape::Body);
    let p = r.finish();
    let mut sink = BufferSink::new();
    assert_eq!(p.run(&vec![], &mut sink), Ok(()));
    assert_eq!(written(&sink.chars), "&lt;i&gt;");
}

#[test]
fn string_with_no_escape_is_written_verbatim() {
    let mut r = Renderer::new();
    r.string("<i>", Escape::NoEscape);
    let p = r.finish();
    let mut sink = BufferSink::new();
    assert_eq!(p.run(&vec![], &mut sink), Ok(()));
    assert_eq!(written(&sink.chars), "<i>");
}

#[test]
fn with_assembles_directives_in_document_order() {
    let directives = vec![
        Directive::ElementOpenStart { name: String::from("p") },
        Directive::ElementOpenEnd,
        Directive::Text { text: String::from("a<b"), escape: Escape::Body },
        Directive::ElementClose { name: String::from("p") },
    ];
    let p = Renderer::with(&directives);
    let mut sink = BufferSink::new();
    assert_eq!(p.run(&vec![], &mut sink), Ok(()));
    assert_eq!(written(&sink.chars), "<p>a&lt;b</p>");
}

#[test]
fn with_splices_into_an_attribute() {
    let directives = vec![
        Directive::ElementOpenStart { name: String::from("a") },
        Directive::AttributeStart { name: String::from("href") },
        Directive::Splice { expr: 0, escape: Escape::Attr },
        Directive::AttributeEnd,
        Directive::ElementOpenEnd,
        Directive::Splice { expr: 1, escape: Escape::Body },
        Directive::ElementClose { name: String::from("a") },
    ];
    let p = Renderer::with(&directives);
    let values = vec![String::from("?x=1&y=\"2\""), String::from("A & B")];
    assert!(p.slots_within(values.len()));
    let mut sink = BufferSink::new();
    assert_eq!(p.run(&values, &mut sink), Ok(()));
    assert_eq!(
        written(&sink.chars),
        "<a href=\"?x=1&amp;y=&quot;2&quot;\">A &amp; B</a>"
    );
}

#[test]
fn slots_within_rejects_a_missing_value() {
    let mut r = Renderer::new();
    r.splice(2, Escape::NoEscape);
    let p = r.finish();
    assert!(!p.slots_within(2));
    assert!(p.slots_within(3));
}
