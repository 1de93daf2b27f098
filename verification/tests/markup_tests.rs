use numbat_session::markup::{css_class, html_format, FormattedSpan, HtmlFormatter, SpanKind};

#[test]
fn html_format_wraps_content_in_classed_span() {
    let r = html_format(Some("value"), "1<2");
    assert_eq!(r, "<span class=\"numbat-value\">1&lt;2</span>");
}

#[test]
fn html_format_empty_content_renders_nothing() {
    assert_eq!(html_format(Some("keyword"), ""), "");
    assert_eq!(html_format(None, ""), "");
}

#[test]
fn html_format_without_class_only_escapes() {
    assert_eq!(html_format(None, "a&b>c"), "a&amp;b&gt;c");
}

#[test]
fn css_classes_match_semantic_categories() {
    assert_eq!(css_class(SpanKind::Whitespace), None);
    assert_eq!(css_class(SpanKind::Text), None);
    assert_eq!(css_class(SpanKind::Emphasized), Some("emphasized"));
    assert_eq!(css_class(SpanKind::Dimmed), Some("dimmed"));
    assert_eq!(css_class(SpanKind::StringLiteral), Some("string"));
    assert_eq!(css_class(SpanKind::Keyword), Some("keyword"));
    assert_eq!(css_class(SpanKind::Value), Some("value"));
    assert_eq!(css_class(SpanKind::Unit), Some("unit"));
    assert_eq!(css_class(SpanKind::Identifier), Some("identifier"));
    assert_eq!(css_class(SpanKind::TypeIdentifier), Some("type-identifier"));
    assert_eq!(css_class(SpanKind::Operator), Some("operator"));
    assert_eq!(css_class(SpanKind::Decorator), Some("decorator"));
}

#[test]
fn format_concatenates_rendered_spans() {
    let formatter = HtmlFormatter;
    let parts = vec![
        FormattedSpan { format_type: SpanKind::Value, text: String::from("2") },
        FormattedSpan { format_type: SpanKind::Whitespace, text: String::from(" ") },
        FormattedSpan { format_type: SpanKind::Unit, text: String::from("m") },
    ];
    let r = formatter.format(&parts);
    assert_eq!(
        r,
        "<span class=\"numbat-value\">2</span> <span class=\"numbat-unit\">m</span>"
    );
}
