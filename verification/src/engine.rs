//! The trusted boundary to the embedded evaluation engine (the `numbat`
//! interpreter) and to the diagnostic renderer (`codespan_reporting`).
//!
//! Everything the library believes about the engine is stated here, in the
//! contracts of the type declarations and wrappers below; nothing else in the
//! library touches the engine directly.

use vstd::prelude::*;

verus! {

use numbat::buffered_writer::BufferedWriter;
use numbat::diagnostic::ErrorDiagnostic;
use numbat::pretty_print::PrettyPrint;

use crate::catalog::{FnOrigin, RawFunction, RawUnit};

// ---------------------------------------------------------------------------
// Engine types. The context, the statements, the evaluation result and the
// four failure payloads are opaque to the library; the failure sum itself and
// the markup types are declared with their variants and fields visible, so
// that classification and markup conversion are verified code.
// ---------------------------------------------------------------------------

/// The engine's evaluation context (bindings, loaded modules, registries).
#[verifier::external_type_specification]
#[verifier::external_body]
pub struct ExContext(numbat::Context);

/// One statement of an evaluated program, borrowed from the source text.
#[verifier::external_type_specification]
#[verifier::external_body]
pub struct ExStatement<'a>(numbat::Statement<'a>);

/// The engine's result of one evaluation.
#[verifier::external_type_specification]
#[verifier::external_body]
pub struct ExInterpreterResult(numbat::InterpreterResult);

/// Module-resolution and parse failures.
#[verifier::external_type_specification]
#[verifier::external_body]
pub struct ExResolverError(numbat::resolver::ResolverError);

/// Identifier-clash and reserved-identifier failures.
#[verifier::external_type_specification]
#[verifier::external_body]
pub struct ExNameResolutionError(numbat::NameResolutionError);

/// Type- and dimension-check failures.
#[verifier::external_type_specification]
#[verifier::external_body]
pub struct ExTypeCheckError(numbat::TypeCheckError);

/// Failures during execution of a well-formed program.
#[verifier::external_type_specification]
#[verifier::external_body]
pub struct ExRuntimeError(numbat::RuntimeError);

/// The engine's failure sum; its four variants stay visible so that the
/// classifier can be verified against them.
#[verifier::external_type_specification]
pub struct ExNumbatError(numbat::NumbatError);

/// A compact string of the engine's markup.
#[verifier::external_type_specification]
#[verifier::external_body]
pub struct ExCompactString(compact_str::CompactString);

/// The engine's semantic categories; the variants stay visible.
#[verifier::external_type_specification]
pub struct ExFormatType(numbat::markup::FormatType);

/// Normal versus optional output; the variants stay visible.
#[verifier::external_type_specification]
pub struct ExOutputType(numbat::markup::OutputType);

/// Owned or borrowed text of one markup span; the variants stay visible.
#[verifier::external_type_specification]
pub struct ExCompactStrCow(numbat::markup::CompactStrCow);

/// One span of engine markup; the fields stay visible.
#[verifier::external_type_specification]
pub struct ExFormattedString(numbat::markup::FormattedString);

/// A whole engine markup: a vector of spans, visible.
#[verifier::external_type_specification]
pub struct ExMarkup(numbat::markup::Markup);

// ---------------------------------------------------------------------------
// Wrappers around the engine calls.
// ---------------------------------------------------------------------------

/// Relies on `numbat::Context::new` with
/// `BuiltinModuleImporter::default()`: a fresh evaluation context over the
/// built-in modules.
#[verifier::external_body]
pub fn new_context() -> numbat::Context {
    numbat::Context::new(numbat::module_importer::BuiltinModuleImporter::default())
}

/// Relies on `numbat::Context::load_currency_module_on_demand`: marks the
/// context so that the exchange-rate module is loaded when first needed.
#[verifier::external_body]
pub fn enable_currency_loading(ctx: &mut numbat::Context) {
    ctx.load_currency_module_on_demand(true);
}

/// Relies on the derived `Clone` of `numbat::Context`: a structural copy,
/// fully independent of and equal to the original.
#[verifier::external_body]
pub fn clone_context(ctx: &numbat::Context) -> (r: numbat::Context)
    ensures
        r == *ctx,
{
    ctx.clone()
}

/// Relies on `numbat::Context::interpret_with_settings` with a print handler
/// that collects each printed markup: evaluates the source text against this
/// context and returns the engine's outcome together with everything the
/// program printed before returning or failing.
#[verifier::external_body]
pub fn interpret_captured<'a>(ctx: &mut numbat::Context, code: &'a str) -> (r: (Result<
    (Vec<numbat::Statement<'a>>, numbat::InterpreterResult),
    Box<numbat::NumbatError>,
>, Vec<numbat::markup::Markup>)) {
    let prints = std::sync::Arc::new(std::sync::Mutex::new(Vec::new()));
    let sink = std::sync::Arc::clone(&prints);
    let mut settings = numbat::InterpreterSettings {
        print_fn: Box::new(move |m: &numbat::markup::Markup| sink.lock().unwrap().push(m.clone())),
    };
    let outcome = ctx.interpret_with_settings(&mut settings, code, numbat::resolver::CodeSource::Text);
    let printed = std::mem::take(&mut *prints.lock().unwrap());
    (outcome, printed)
}

/// Relies on `numbat::pretty_print::PrettyPrint` for statements: the
/// statement as semantically tagged markup.
#[verifier::external_body]
pub fn statement_markup(s: &numbat::Statement) -> numbat::markup::Markup {
    s.pretty_print()
}

/// Relies on `numbat::InterpreterResult::to_markup` (with type information,
/// no leading equals sign, default formatting) and
/// `numbat::Context::dimension_registry`: the result as semantically tagged
/// markup.
#[verifier::external_body]
pub fn result_markup(
    ctx: &numbat::Context,
    result: &numbat::InterpreterResult,
    last: Option<&numbat::Statement>,
) -> numbat::markup::Markup {
    result.to_markup(
        last,
        ctx.dimension_registry(),
        true,
        false,
        &numbat::FormatOptions::default(),
    )
}

/// Relies on `numbat::InterpreterResult::value_as_string`: the scalar or
/// string value of the evaluation, when there is one.
#[verifier::external_body]
pub fn value_string(result: &numbat::InterpreterResult) -> Option<String> {
    result.value_as_string().map(|s| s.to_string())
}

/// Relies on `compact_str::CompactString`'s view as `str`.
#[verifier::external_body]
pub fn compact_to_string(s: &compact_str::CompactString) -> String {
    s.as_str().to_owned()
}

/// Relies on `codespan_reporting::term::emit` over `numbat`'s `HtmlWriter`
/// and the resolver's file table: renders the positional diagnostics of a
/// resolver, name-resolution or type-check failure as HTML. Runtime failures
/// carry no such diagnostics and are left out by the precondition. The
/// writer wraps colored ranges in span elements but copies the diagnostic
/// text itself as emitted, without HTML escaping.
#[verifier::external_body]
pub fn render_diagnostics(ctx: &numbat::Context, e: &numbat::NumbatError) -> String
    requires
        !(e is RuntimeError),
{
    let mut writer = numbat::html_formatter::HtmlWriter::new();
    let config = codespan_reporting::term::Config::default();
    let diags = match e {
        numbat::NumbatError::ResolverError(d) => d.diagnostics(),
        numbat::NumbatError::NameResolutionError(d) => d.diagnostics(),
        numbat::NumbatError::TypeCheckError(d) => d.diagnostics(),
        numbat::NumbatError::RuntimeError(_) => Vec::new(),
    };
    for d in &diags {
        let _ = codespan_reporting::term::emit(&mut writer, &config, &ctx.resolver().files, d);
    }
    writer.to_string()
}

/// Relies on the `Display` impls of the engine's failure types: the failure
/// as one plain descriptive text.
#[verifier::external_body]
pub fn plain_message(e: &numbat::NumbatError) -> String {
    format!("{e}")
}

/// Relies on `numbat::Context::variable_names`: the names of all currently
/// bound non-function identifiers, in the engine's own order.
#[verifier::external_body]
pub fn variable_names(ctx: &numbat::Context) -> Vec<String> {
    ctx.variable_names().map(|s| s.to_string()).collect()
}

/// Relies on `numbat::Context::get_completions_for` (without a trailing
/// parenthesis): candidate identifiers for a word, in the engine's relevance
/// order.
#[verifier::external_body]
pub fn completion_candidates(ctx: &numbat::Context, word: &str) -> Vec<String> {
    ctx.get_completions_for(word, false).collect()
}

/// Relies on `numbat::Context::unit_representations` and the fields of
/// `UnitMetadata`: one record per registered unit, carrying whether its
/// type is the scalar dimension, the rendering of its readable type as the
/// dimension's display name, its alias names in order, and its designated
/// human name.
#[verifier::external_body]
pub fn unit_catalog(ctx: &numbat::Context) -> Vec<RawUnit> {
    ctx.unit_representations().map(|(_, (_, metadata))| RawUnit {
        scalar: matches!(metadata.type_, numbat::Type::Dimension(ref d) if d.is_scalar()),
        dimension: Some(metadata.readable_type.to_string()),
        aliases: metadata.aliases.iter().map(|(a, _)| a.to_string()).collect(),
        display_name: metadata.name.as_ref().map(|n| n.to_string()),
    }).collect()
}

/// The origin of a function's code.
#[verifier::external_type_specification]
#[verifier::external_body]
pub struct ExCodeSource(numbat::resolver::CodeSource);

/// Relies on the variants of `numbat::resolver::CodeSource`: session input,
/// internal built-ins, a named module path, or a source file, whose base
/// name is kept.
#[verifier::external_body]
pub fn convert_code_source(cs: numbat::resolver::CodeSource) -> FnOrigin {
    match cs {
        numbat::resolver::CodeSource::Text => FnOrigin::Session,
        numbat::resolver::CodeSource::Internal => FnOrigin::Builtin,
        numbat::resolver::CodeSource::Module(p, _) => FnOrigin::Module(p.0.iter().map(|c| c.to_string()).collect()),
        numbat::resolver::CodeSource::File(p) => FnOrigin::SourceFile(p.file_name().map(|s| s.to_string_lossy().into_owned()).unwrap_or_default()),
    }
}

/// Relies on `numbat::Context::functions` and the fields of `FunctionInfo`:
/// one record per registered function, with its internal name, optional
/// display name, signature text, optional description, and its origin.
#[verifier::external_body]
pub fn function_catalog(ctx: &numbat::Context) -> Vec<RawFunction> {
    ctx.functions().map(|f| RawFunction {
        fn_name: f.fn_name.to_string(),
        name: f.name.as_ref().map(|s| s.to_string()),
        signature: f.signature_str.to_string(),
        description: f.description.as_ref().map(|s| s.to_string()),
        origin: convert_code_source(f.code_source),
    }).collect()
}

/// Relies on matching `numbat::TypeCheckError::UnknownIdentifier`: whether
/// this failure is the use of an identifier the type checker cannot
/// resolve. Such a failure is always a type-check failure of the engine.
#[verifier::external_body]
pub fn unknown_identifier(e: &numbat::NumbatError) -> (r: bool)
    ensures
        r ==> *e is TypeCheckError,
{
    matches!(
        e,
        numbat::NumbatError::TypeCheckError(numbat::TypeCheckError::UnknownIdentifier(..))
    )
}

} // verus!
