//! Validating and printing scoped content with lightningcss.
use vstd::prelude::*;
use crate::error::CompileError;

verus! {

/// The text lightningcss prints for `css` (minified or not), or `None` where
/// it fails to parse or to print it.
pub uninterp spec fn normalized_css(css: Seq<char>, minify: bool) -> Option<Seq<char>>;

/// Where lightningcss fails on `css`: whether it failed while printing (not
/// while parsing), and the message of its error.
pub uninterp spec fn normalize_failure(css: Seq<char>, minify: bool) -> (bool, Seq<char>);

/// The error a failed normalization of `css` reports: a print failure is a
/// `CssPrintError`, a parse failure a `CssSyntaxError`, each carrying the
/// engine's message as it stands.
pub open spec fn reports_failure(css: Seq<char>, minify: bool, e: CompileError) -> bool {
    let (printing, msg) = normalize_failure(css, minify);
    if printing {
        e is CssPrintError && e->CssPrintError_0@ == msg
    } else {
        e is CssSyntaxError && e->CssSyntaxError_0@ == msg
    }
}

/// Relies on lightningcss `StyleSheet::parse` (without error recovery, so
/// an invalid rule is an error) followed by `StyleSheet::to_css`: the
/// printed stylesheet, or the parse or print error with its `Display`
/// message. Both depend on the text and the option alone.
#[verifier::external_body]
fn lightning_normalize(css: &str, minify: bool) -> (r: Result<String, CompileError>)
    ensures
        match normalized_css(css@, minify) {
            Some(out) => r is Ok && r->Ok_0@ == out,
            None => r is Err && (if normalize_failure(css@, minify).0 {
                r->Err_0 is CssPrintError && r->Err_0->CssPrintError_0@ == normalize_failure(
                    css@,
                    minify,
                ).1
            } else {
                r->Err_0 is CssSyntaxError && r->Err_0->CssSyntaxError_0@ == normalize_failure(
                    css@,
                    minify,
                ).1
            }),
        },
{
    let options = lightningcss::stylesheet::ParserOptions {
        filename: "inline.css".to_string(),
        error_recovery: false,
        ..Default::default()
    };
    let sheet = match lightningcss::stylesheet::StyleSheet::parse(css, options) {
        Ok(sheet) => sheet,
        Err(e) => return Err(CompileError::CssSyntaxError(e.to_string())),
    };
    let printer = lightningcss::printer::PrinterOptions { minify, ..Default::default() };
    match sheet.to_css(printer) {
        Ok(res) => Ok(res.code),
        Err(e) => Err(CompileError::CssPrintError(e.to_string())),
    }
}

/// Parses `css` and prints it back, whitespace-minified when `minify` holds;
/// a parse failure is a `CssSyntaxError`, a print failure a `CssPrintError`,
/// each with the engine's message.
pub fn process_css_with_lightning(css: &str, minify: bool) -> (r: Result<String, CompileError>)
    ensures
        match normalized_css(css@, minify) {
            Some(out) => r is Ok && r->Ok_0@ == out,
            None => r is Err && reports_failure(css@, minify, r->Err_0),
        },
{
    lightning_normalize(css, minify)
}

} // verus!
