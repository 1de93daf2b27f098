//! Semantically tagged markup and its rendering to HTML.
//!
//! The engine describes its output (results, pretty-printed statements,
//! print side-output) as a sequence of spans, each carrying one semantic
//! category. Rendering wraps each span in a styled `<span>` element keyed by
//! its category, with the text content HTML-escaped.

use vstd::prelude::*;

verus! {

/// Semantic category of one span of engine output.
#[derive(Clone, Copy, Debug, PartialEq, Eq, Structural)]
pub enum SpanKind {
    Whitespace,
    Emphasized,
    Dimmed,
    Text,
    StringLiteral,
    Keyword,
    Value,
    Unit,
    Identifier,
    TypeIdentifier,
    Operator,
    Decorator,
}

/// One span of engine output: a semantic category and its text content.
pub struct FormattedSpan {
    pub format_type: SpanKind,
    pub text: String,
}

/// Mathematical model of a [`FormattedSpan`].
pub struct SpanModel {
    pub format_type: SpanKind,
    pub text: Seq<char>,
}

impl View for FormattedSpan {
    type V = SpanModel;

    open spec fn view(&self) -> SpanModel {
        SpanModel { format_type: self.format_type, text: self.text@ }
    }
}

/// View of a sequence of spans.
pub open spec fn spans_view(s: Seq<FormattedSpan>) -> Seq<SpanModel> {
    s.map_values(|p: FormattedSpan| p@)
}

/// HTML escaping of a single character: `&`, `<` and `>` become entities,
/// every other character stands unchanged.
pub open spec fn escape_char(c: char) -> Seq<char> {
    if c == '&' {
        "&amp;"@
    } else if c == '<' {
        "&lt;"@
    } else if c == '>' {
        "&gt;"@
    } else {
        seq![c]
    }
}

/// HTML escaping of a text, character by character.
pub open spec fn escape_text(s: Seq<char>) -> Seq<char>
    decreases s.len(),
{
    if s.len() == 0 {
        Seq::empty()
    } else {
        escape_char(s[0]) + escape_text(s.skip(1))
    }
}

/// The CSS style class attached to a semantic category, or `None` for
/// categories rendered as bare text.
pub open spec fn spec_css_class(t: SpanKind) -> Option<Seq<char>> {
    match t {
        SpanKind::Whitespace => None,
        SpanKind::Emphasized => Some("emphasized"@),
        SpanKind::Dimmed => Some("dimmed"@),
        SpanKind::Text => None,
        SpanKind::StringLiteral => Some("string"@),
        SpanKind::Keyword => Some("keyword"@),
        SpanKind::Value => Some("value"@),
        SpanKind::Unit => Some("unit"@),
        SpanKind::Identifier => Some("identifier"@),
        SpanKind::TypeIdentifier => Some("type-identifier"@),
        SpanKind::Operator => Some("operator"@),
        SpanKind::Decorator => Some("decorator"@),
    }
}

/// View of an optional string slice.
pub open spec fn str_opt_view(o: Option<&str>) -> Option<Seq<char>> {
    match o {
        Some(s) => Some(s@),
        None => None,
    }
}

/// HTML rendering of one piece of content under an optional style class:
/// empty content renders as nothing; classless content renders as the
/// escaped text; classed content is wrapped in a styled `<span>` element.
pub open spec fn spec_html_format(class: Option<Seq<char>>, content: Seq<char>) -> Seq<char> {
    if content.len() == 0 {
        Seq::empty()
    } else {
        match class {
            Some(c) => "<span class=\"numbat-"@ + c + "\">"@ + escape_text(content) + "</span>"@,
            None => escape_text(content),
        }
    }
}

/// HTML rendering of one span: its content under its category's class.
pub open spec fn spec_format_part(p: SpanModel) -> Seq<char> {
    spec_html_format(spec_css_class(p.format_type), p.text)
}

/// HTML rendering of a whole markup: the concatenation of its rendered spans.
pub open spec fn spec_format(parts: Seq<SpanModel>) -> Seq<char>
    decreases parts.len(),
{
    if parts.len() == 0 {
        Seq::empty()
    } else {
        spec_format_part(parts[0]) + spec_format(parts.skip(1))
    }
}

/// Rendering distributes over concatenation of markups.
pub proof fn lemma_format_concat(a: Seq<SpanModel>, b: Seq<SpanModel>)
    ensures
        spec_format(a + b) == spec_format(a) + spec_format(b),
    decreases a.len(),
{
    if a.len() == 0 {
        assert(a + b =~= b);
        assert(spec_format(a) + spec_format(b) =~= spec_format(b));
    } else {
        lemma_format_concat(a.skip(1), b);
        assert((a + b).skip(1) =~= a.skip(1) + b);
        assert(spec_format(a + b) =~= spec_format(a) + spec_format(b));
    }
}

/// Rendering a markup extended by one span appends that span's rendering.
pub proof fn lemma_format_snoc(s: Seq<SpanModel>, i: int)
    requires
        0 <= i < s.len(),
    ensures
        spec_format(s.take(i + 1)) == spec_format(s.take(i)) + spec_format_part(s[i]),
{
    lemma_format_concat(s.take(i), seq![s[i]]);
    assert(s.take(i + 1) =~= s.take(i) + seq![s[i]]);
    assert(spec_format(seq![s[i]].skip(1)) == Seq::<char>::empty());
    assert(spec_format(seq![s[i]]) =~= spec_format_part(s[i]));
}

/// Relies on `html_escape::encode_text`, which replaces `&`, `<` and `>`
/// by `&amp;`, `&lt;` and `&gt;` and leaves every other character as it is.
#[verifier::external_body]
fn encode_html_text(s: &str) -> (r: String)
    ensures
        r@ == escape_text(s@),
{
    html_escape::encode_text(s).into_owned()
}

/// The CSS style class for a semantic category.
pub fn css_class(t: SpanKind) -> (r: Option<&'static str>)
    ensures
        str_opt_view(r) == spec_css_class(t),
{
    match t {
        SpanKind::Whitespace => None,
        SpanKind::Emphasized => Some("emphasized"),
        SpanKind::Dimmed => Some("dimmed"),
        SpanKind::Text => None,
        SpanKind::StringLiteral => Some("string"),
        SpanKind::Keyword => Some("keyword"),
        SpanKind::Value => Some("value"),
        SpanKind::Unit => Some("unit"),
        SpanKind::Identifier => Some("identifier"),
        SpanKind::TypeIdentifier => Some("type-identifier"),
        SpanKind::Operator => Some("operator"),
        SpanKind::Decorator => Some("decorator"),
    }
}

/// Render one piece of content under an optional style class. Empty content
/// renders as the empty string; otherwise the content is HTML-escaped and,
/// when a class is given, wrapped in a `<span>` element carrying it.
pub fn html_format(class: Option<&str>, content: &str) -> (r: String)
    ensures
        r@ == spec_html_format(str_opt_view(class), content@),
{
    if content.is_empty() {
        return String::new();
    }
    let escaped = encode_html_text(content);
    match class {
        Some(c) => {
            let mut out = String::from_str("<span class=\"numbat-");
            out.append(c);
            out.append("\">");
            out.append(escaped.as_str());
            out.append("</span>");
            proof {
                assert(out@ =~= spec_html_format(str_opt_view(class), content@));
            }
            out
        },
        None => escaped,
    }
}

/// Renderer from semantically tagged markup to HTML.
pub struct HtmlFormatter;

impl HtmlFormatter {
    /// Render one span: its text under its category's style class.
    pub fn format_part(&self, part: &FormattedSpan) -> (r: String)
        ensures
            r@ == spec_format_part(part@),
    {
        html_format(css_class(part.format_type), part.text.as_str())
    }

    /// Render a whole markup: the concatenation of its rendered spans.
    pub fn format(&self, parts: &Vec<FormattedSpan>) -> (r: String)
        ensures
            r@ == spec_format(spans_view(parts@)),
    {
        let mut out = String::new();
        let mut i: usize = 0;
        while i < parts.len()
            invariant
                i <= parts@.len(),
                out@ == spec_format(spans_view(parts@).take(i as int)),
            decreases parts@.len() - i,
        {
            let piece = self.format_part(&parts[i]);
            out.append(piece.as_str());
            proof {
                lemma_format_snoc(spans_view(parts@), i as int);
            }
            i = i + 1;
        }
        proof {
            assert(spans_view(parts@).take(parts@.len() as int) =~= spans_view(parts@));
        }
        out
    }
}

} // verus!
