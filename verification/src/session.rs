//! The dispatcher core: evaluate a query against the canonical evaluation
//! state (committing) or against a disposable snapshot (previewing),
//! classify failures into the closed taxonomy, and render everything the
//! engine reports through the markup pipeline.
//!
//! Exclusive access to the canonical state is expressed by `&mut`: whoever
//! holds the mutable borrow is the one writer. An embedding program realizes
//! this with a mutual-exclusion primitive around the context.

use vstd::prelude::*;

verus! {

use crate::engine::{
    clone_context, enable_currency_loading, interpret_captured, new_context, plain_message,
    render_diagnostics, result_markup, statement_markup, value_string, compact_to_string,
};
use crate::markup::{spec_format, FormattedSpan, HtmlFormatter, SpanKind, SpanModel};

/// The closed taxonomy of evaluation failures.
#[derive(Clone, Copy, Debug, PartialEq, Eq, Structural)]
pub enum ErrorKind {
    /// Lexical, syntactic and module-resolution failures.
    Parse,
    /// Identifier clashes, reserved identifiers and unresolvable
    /// identifiers.
    Name,
    /// Type and dimension mismatches.
    Typecheck,
    /// Failures during execution of a well-formed program.
    Runtime,
}

/// The name of a failure kind, as callers see it.
pub open spec fn spec_kind_name(k: ErrorKind) -> Seq<char> {
    match k {
        ErrorKind::Parse => "parse"@,
        ErrorKind::Name => "name"@,
        ErrorKind::Typecheck => "typecheck"@,
        ErrorKind::Runtime => "runtime"@,
    }
}

impl ErrorKind {
    /// The name of this failure kind.
    pub fn name(&self) -> (r: &'static str)
        ensures
            r@ == spec_kind_name(*self),
    {
        match self {
            ErrorKind::Parse => "parse",
            ErrorKind::Name => "name",
            ErrorKind::Typecheck => "typecheck",
            ErrorKind::Runtime => "runtime",
        }
    }
}

/// The four failure kinds bear four pairwise distinct names, so a
/// classified failure is reported under exactly one of them.
pub proof fn lemma_kind_names_distinct(a: ErrorKind, b: ErrorKind)
    ensures
        a != b ==> spec_kind_name(a) != spec_kind_name(b),
{
    reveal_strlit("parse");
    reveal_strlit("name");
    reveal_strlit("typecheck");
    reveal_strlit("runtime");
    assert(spec_kind_name(ErrorKind::Parse).len() == 5);
    assert(spec_kind_name(ErrorKind::Name).len() == 4);
    assert(spec_kind_name(ErrorKind::Typecheck).len() == 9);
    assert(spec_kind_name(ErrorKind::Runtime).len() == 7);
}

/// Each engine failure falls under exactly one kind: module-resolution and
/// parse failures under `Parse`; identifier clashes, reserved identifiers
/// and unresolvable identifiers under `Name`; other type and dimension
/// failures under `Typecheck`; execution failures under `Runtime`. The
/// engine reports an unresolvable identifier as a type-check failure, so
/// that mark is taken alongside the variant.
pub open spec fn spec_classify(e: numbat::NumbatError, unresolvable: bool) -> ErrorKind {
    match e {
        numbat::NumbatError::ResolverError(_) => ErrorKind::Parse,
        numbat::NumbatError::NameResolutionError(_) => ErrorKind::Name,
        numbat::NumbatError::TypeCheckError(_) => if unresolvable {
            ErrorKind::Name
        } else {
            ErrorKind::Typecheck
        },
        numbat::NumbatError::RuntimeError(_) => ErrorKind::Runtime,
    }
}

/// Classify an engine failure, given whether it is the use of an
/// unresolvable identifier.
pub fn classify_with(e: &numbat::NumbatError, unresolvable: bool) -> (k: ErrorKind)
    ensures
        k == spec_classify(*e, unresolvable),
{
    match e {
        numbat::NumbatError::ResolverError(_) => ErrorKind::Parse,
        numbat::NumbatError::NameResolutionError(_) => ErrorKind::Name,
        numbat::NumbatError::TypeCheckError(_) => if unresolvable {
            ErrorKind::Name
        } else {
            ErrorKind::Typecheck
        },
        numbat::NumbatError::RuntimeError(_) => ErrorKind::Runtime,
    }
}

/// Classify an engine failure. Whether a type-check failure is an
/// unresolvable identifier is the engine's to say, so for that variant
/// either of the two kinds can come out; every other variant's kind is
/// fixed.
pub fn classify(e: &numbat::NumbatError) -> (k: ErrorKind)
    ensures
        *e is ResolverError ==> k == ErrorKind::Parse,
        *e is NameResolutionError ==> k == ErrorKind::Name,
        *e is TypeCheckError ==> (k == ErrorKind::Typecheck || k == ErrorKind::Name),
        *e is RuntimeError ==> k == ErrorKind::Runtime,
        k == ErrorKind::Runtime ==> *e is RuntimeError,
{
    let unresolvable = crate::engine::unknown_identifier(e);
    classify_with(e, unresolvable)
}

/// The library's semantic category for one engine markup category.
pub open spec fn spec_convert_kind(t: numbat::markup::FormatType) -> SpanKind {
    match t {
        numbat::markup::FormatType::Whitespace => SpanKind::Whitespace,
        numbat::markup::FormatType::Emphasized => SpanKind::Emphasized,
        numbat::markup::FormatType::Dimmed => SpanKind::Dimmed,
        numbat::markup::FormatType::Text => SpanKind::Text,
        numbat::markup::FormatType::String => SpanKind::StringLiteral,
        numbat::markup::FormatType::Keyword => SpanKind::Keyword,
        numbat::markup::FormatType::Value => SpanKind::Value,
        numbat::markup::FormatType::Unit => SpanKind::Unit,
        numbat::markup::FormatType::Identifier => SpanKind::Identifier,
        numbat::markup::FormatType::TypeIdentifier => SpanKind::TypeIdentifier,
        numbat::markup::FormatType::Operator => SpanKind::Operator,
        numbat::markup::FormatType::Decorator => SpanKind::Decorator,
    }
}

/// Map one engine markup category to the library's.
pub fn convert_kind(t: &numbat::markup::FormatType) -> (r: SpanKind)
    ensures
        r == spec_convert_kind(*t),
{
    match t {
        numbat::markup::FormatType::Whitespace => SpanKind::Whitespace,
        numbat::markup::FormatType::Emphasized => SpanKind::Emphasized,
        numbat::markup::FormatType::Dimmed => SpanKind::Dimmed,
        numbat::markup::FormatType::Text => SpanKind::Text,
        numbat::markup::FormatType::String => SpanKind::StringLiteral,
        numbat::markup::FormatType::Keyword => SpanKind::Keyword,
        numbat::markup::FormatType::Value => SpanKind::Value,
        numbat::markup::FormatType::Unit => SpanKind::Unit,
        numbat::markup::FormatType::Identifier => SpanKind::Identifier,
        numbat::markup::FormatType::TypeIdentifier => SpanKind::TypeIdentifier,
        numbat::markup::FormatType::Operator => SpanKind::Operator,
        numbat::markup::FormatType::Decorator => SpanKind::Decorator,
    }
}

/// The text of a span whose content is borrowed static text; the content
/// of an owned compact string is the engine's and stays opaque.
pub open spec fn spec_static_text(c: numbat::markup::CompactStrCow) -> Option<Seq<char>> {
    match c {
        numbat::markup::CompactStrCow::Static(s) => Some(s@),
        numbat::markup::CompactStrCow::Owned(_) => None,
    }
}

/// One engine span converted: the category is mapped exactly, and static
/// text content is taken over character for character.
pub open spec fn span_converted(part: numbat::markup::FormattedString, s: SpanModel) -> bool {
    &&& s.format_type == spec_convert_kind(part.1)
    &&& match spec_static_text(part.2) {
        Some(t) => s.text == t,
        None => true,
    }
}

/// Turn one engine markup into the library's spans, category by category;
/// the text of each span is taken over as the engine wrote it.
pub fn markup_spans(m: &numbat::markup::Markup) -> (r: Vec<FormattedSpan>)
    ensures
        r@.len() == m.0@.len(),
        forall|i: int| 0 <= i < r@.len() ==> span_converted(m.0@[i], (#[trigger] r@[i])@),
{
    let mut out: Vec<FormattedSpan> = Vec::new();
    let mut i: usize = 0;
    while i < m.0.len()
        invariant
            i <= m.0@.len(),
            out@.len() == i,
            forall|k: int| 0 <= k < i ==> span_converted(m.0@[k], (#[trigger] out@[k])@),
        decreases m.0@.len() - i,
    {
        let part = &m.0[i];
        let text = match &part.2 {
            numbat::markup::CompactStrCow::Owned(cs) => compact_to_string(cs),
            numbat::markup::CompactStrCow::Static(st) => (*st).to_owned(),
        };
        out.push(FormattedSpan { format_type: convert_kind(&part.1), text });
        i = i + 1;
    }
    out
}

/// The output is the HTML rendering of some conversion of this markup:
/// one span per engine span, categories mapped exactly, static texts taken
/// over exactly; only the owned texts come from the engine and stay open.
pub open spec fn renders_markup(m: numbat::markup::Markup, out: Seq<char>) -> bool {
    exists|spans: Seq<SpanModel>|
        {
            &&& spans.len() == m.0@.len()
            &&& (forall|i: int| 0 <= i < spans.len() ==> span_converted(m.0@[i], #[trigger] spans[i]))
            &&& out == #[trigger] spec_format(spans)
        }
}

/// Render one engine markup as HTML through the span pipeline.
pub fn render_markup(m: &numbat::markup::Markup) -> (r: String)
    ensures
        renders_markup(*m, r@),
{
    let spans = markup_spans(m);
    let formatter = HtmlFormatter;
    let r = formatter.format(&spans);
    proof {
        let w = crate::markup::spans_view(spans@);
        assert(w.len() == m.0@.len());
        assert forall|i: int| 0 <= i < w.len() implies span_converted(m.0@[i], #[trigger] w[i]) by {
            assert(w[i] == spans@[i]@);
        }
        assert(r@ == spec_format(w));
    }
    r
}

/// Rendered print lines joined by line breaks.
pub open spec fn spec_join_lines(lines: Seq<Seq<char>>) -> Seq<char>
    decreases lines.len(),
{
    if lines.len() == 0 {
        Seq::empty()
    } else if lines.len() == 1 {
        lines[0]
    } else {
        lines[0] + "\n"@ + spec_join_lines(lines.skip(1))
    }
}

/// Joining one more line appends a line break and the line.
proof fn lemma_join_lines_push(lines: Seq<Seq<char>>, l: Seq<char>)
    ensures
        lines.len() == 0 ==> spec_join_lines(lines.push(l)) == l,
        lines.len() > 0 ==> spec_join_lines(lines.push(l)) == spec_join_lines(lines) + "\n"@ + l,
    decreases lines.len(),
{
    if lines.len() == 0 {
        assert(lines.push(l)[0] == l);
    } else if lines.len() == 1 {
        assert(lines.push(l).skip(1) =~= seq![l]);
        assert(spec_join_lines(seq![l]) == l);
        assert(spec_join_lines(lines.push(l)) =~= lines[0] + "\n"@ + l);
    } else {
        lemma_join_lines_push(lines.skip(1), l);
        assert(lines.push(l).skip(1) =~= lines.skip(1).push(l));
        assert(spec_join_lines(lines.push(l)) =~= spec_join_lines(lines) + "\n"@ + l);
    }
}

/// The output joins, line by line, a rendering of each printed markup.
pub open spec fn renders_print_lines(prints: Seq<numbat::markup::Markup>, out: Seq<char>) -> bool {
    exists|lines: Seq<Seq<char>>|
        {
            &&& lines.len() == prints.len()
            &&& (forall|i: int|
                0 <= i < lines.len() ==> renders_markup(prints[i], #[trigger] lines[i]))
            &&& out == #[trigger] spec_join_lines(lines)
        }
}

/// Render captured print side-output: each printed markup on its own line.
pub fn render_prints(prints: &Vec<numbat::markup::Markup>) -> (r: Option<String>)
    ensures
        r is Some <==> prints@.len() > 0,
        r matches Some(s) ==> renders_print_lines(prints@, s@),
{
    if prints.len() == 0 {
        return None;
    }
    let mut out = String::new();
    let ghost mut lines: Seq<Seq<char>> = Seq::empty();
    let mut i: usize = 0;
    while i < prints.len()
        invariant
            i <= prints@.len(),
            lines.len() == i,
            forall|k: int| 0 <= k < i ==> renders_markup(prints@[k], #[trigger] lines[k]),
            out@ == spec_join_lines(lines),
        decreases prints@.len() - i,
    {
        if i > 0 {
            out.append("\n");
        }
        let piece = render_markup(&prints[i]);
        out.append(piece.as_str());
        proof {
            lemma_join_lines_push(lines, piece@);
            lines = lines.push(piece@);
        }
        i = i + 1;
    }
    proof {
        assert(renders_print_lines(prints@, out@));
    }
    Some(out)
}

/// The result of one evaluation request.
pub struct EvaluationOutcome {
    /// The evaluation failed.
    pub is_error: bool,
    /// The failure's kind, exactly when the evaluation failed.
    pub error_type: Option<ErrorKind>,
    /// The rendered result, or the rendered diagnostic.
    pub output: String,
    /// Print side-output captured before returning or failing, when any.
    pub print_output: Option<String>,
    /// The rendered statements of a successful evaluation.
    pub statements: Vec<String>,
    /// The scalar or string value of a successful evaluation, when there is
    /// one.
    pub value: Option<String>,
}

/// A failure still produces a full response: classified, rendered, and
/// carrying whatever was printed before the failure. Failures with
/// positional diagnostics go through the markup renderer; runtime failures
/// are rendered as plain text.
pub fn failure_outcome(
    ctx: &numbat::Context,
    e: &numbat::NumbatError,
    print_output: Option<String>,
) -> (r: EvaluationOutcome)
    ensures
        r.is_error,
        r.error_type is Some,
        *e is ResolverError ==> r.error_type == Some(ErrorKind::Parse),
        *e is NameResolutionError ==> r.error_type == Some(ErrorKind::Name),
        *e is TypeCheckError ==> (r.error_type == Some(ErrorKind::Typecheck) || r.error_type
            == Some(ErrorKind::Name)),
        *e is RuntimeError ==> r.error_type == Some(ErrorKind::Runtime),
        r.value is None,
        r.statements@.len() == 0,
        r.print_output == print_output,
{
    let kind = classify(e);
    let output = match kind {
        ErrorKind::Runtime => plain_message(e),
        _ => render_diagnostics(ctx, e),
    };
    EvaluationOutcome {
        is_error: true,
        error_type: Some(kind),
        output,
        print_output,
        statements: Vec::new(),
        value: None,
    }
}

/// Evaluate a query against this context, mutating it in place. Every
/// failure is recovered into a classified response; success carries the
/// rendered statements, the rendered result and its value.
pub fn interpret(ctx: &mut numbat::Context, query: &str) -> (r: EvaluationOutcome)
    ensures
        r.is_error ==> r.error_type is Some && r.value is None && r.statements@.len() == 0,
        !r.is_error ==> r.error_type is None,
{
    let (outcome, printed) = interpret_captured(ctx, query);
    let print_output = render_prints(&printed);
    match outcome {
        Ok((statements, result)) => {
            let mut statement_html: Vec<String> = Vec::new();
            let mut i: usize = 0;
            while i < statements.len()
                decreases statements@.len() - i,
            {
                let m = statement_markup(&statements[i]);
                statement_html.push(render_markup(&m));
                i = i + 1;
            }
            let last = if statements.len() > 0 {
                Some(&statements[statements.len() - 1])
            } else {
                None
            };
            let result_m = result_markup(ctx, &result, last);
            EvaluationOutcome {
                is_error: false,
                error_type: None,
                output: render_markup(&result_m),
                print_output,
                statements: statement_html,
                value: value_string(&result),
            }
        },
        Err(e) => failure_outcome(ctx, &e, print_output),
    }
}

/// An independent, fully functional copy of an evaluation state, for
/// preview evaluation: the original keeps no link to it.
pub fn snapshot(ctx: &numbat::Context) -> (r: numbat::Context)
    ensures
        r == *ctx,
{
    clone_context(ctx)
}

/// Evaluate a query. Committing runs against the given canonical state and
/// keeps its side effects; previewing runs against an independent snapshot,
/// and the canonical state is exactly what it was, whatever the outcome.
pub fn calculate(ctx: &mut numbat::Context, query: &str, commit: bool) -> (r: EvaluationOutcome)
    ensures
        !commit ==> *final(ctx) == *old(ctx),
        r.is_error ==> r.error_type is Some && r.value is None && r.statements@.len() == 0,
        !r.is_error ==> r.error_type is None,
{
    if commit {
        interpret(ctx, query)
    } else {
        let mut preview = snapshot(ctx);
        interpret(&mut preview, query)
    }
}

/// A freshly initialized evaluation state: the built-in modules, on-demand
/// loading of the exchange-rate module, and the prelude.
pub fn fresh_context() -> numbat::Context {
    let mut ctx = new_context();
    enable_currency_loading(&mut ctx);
    let _ = calculate(&mut ctx, "use prelude", true);
    ctx
}

/// Discard the canonical state and replace it by a freshly initialized one,
/// as at process start.
pub fn reset(ctx: &mut numbat::Context) {
    *ctx = fresh_context();
}

} // verus!
