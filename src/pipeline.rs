//! The whole compilation: scan, assemble, identify, rewrite, normalize.
use vstd::prelude::*;
use crate::assemble::{assemble, assembled, lemma_interleave_no_open, views_of};
use crate::error::CompileError;
use crate::ident::{class_name_of, generate_class_name, lemma_class_name_shape};
use crate::normalize::{normalized_css, process_css_with_lightning, reports_failure};
use crate::scope::{lemma_rewrite_removes_markers, lemma_scope_coverage, rewrite_scope, rewrite_scope_spec};
use crate::template::{
    ends_open, find_from, lemma_scan_chunks, lemma_scan_shape, lemma_unclosed_fails, marker_at, no_open, scan,
    scan_spec,
};

verus! {

/// The content a template assembles to with the given values, or the
/// failure that stops it before any hashing.
pub open spec fn content_of(template: Seq<char>, vals: Seq<Seq<char>>) -> Result<Seq<char>, CompileError> {
    match scan_spec(template) {
        None => Err(CompileError::UnclosedPlaceholder),
        Some(v) => if vals.len() == v.spans.len() {
            Ok(assembled(v, vals))
        } else {
            Err(CompileError::UnresolvedPlaceholder)
        },
    }
}

/// The scoped content of an assembled content: markers rewritten with its
/// own identifier, which is derived before the rewrite.
pub open spec fn scoped_of(content: Seq<char>) -> Seq<char> {
    rewrite_scope_spec(content, class_name_of(content))
}

/// Compiles a style template: `[[...]]` placeholders are filled with
/// `values` in order, the class identifier is derived from the assembled
/// content, every `&` becomes `.` + identifier, and lightningcss validates
/// and prints the result. Returns the identifier and the stylesheet.
pub fn style(template: &str, values: &Vec<String>, minify: bool) -> (r: Result<(String, String), CompileError>)
    ensures
        match content_of(template@, views_of(values@)) {
            Err(e) => r is Err && (e is UnclosedPlaceholder ==> r->Err_0 is UnclosedPlaceholder)
                && (e is UnresolvedPlaceholder ==> r->Err_0 is UnresolvedPlaceholder),
            Ok(content) => match normalized_css(scoped_of(content), minify) {
                Some(css) => r is Ok && r->Ok_0.0@ == class_name_of(content) && r->Ok_0.1@ == css,
                None => r is Err && reports_failure(scoped_of(content), minify, r->Err_0),
            },
        },
{
    let scanned = match scan(template) {
        Ok(s) => s,
        Err(e) => return Err(e),
    };
    let content = match assemble(&scanned, values) {
        Ok(c) => c,
        Err(e) => return Err(e),
    };
    let class = generate_class_name(content.as_str());
    let scoped = rewrite_scope(content.as_str(), class.as_str());
    match process_css_with_lightning(scoped.as_str(), minify) {
        Ok(css) => Ok((class, css)),
        Err(e) => Err(e),
    }
}

/// A template with an open marker that no close marker follows fails with
/// `UnclosedPlaceholder`, whatever values come with it, before any hashing.
pub proof fn lemma_unclosed_always_fails(template: Seq<char>, vals: Seq<Seq<char>>, o: int)
    requires
        marker_at(template, o, '[', '['),
        forall|k: int| o + 2 <= k ==> !marker_at(template, k, ']', ']'),
    ensures
        content_of(template, vals) == Err::<Seq<char>, CompileError>(CompileError::UnclosedPlaceholder),
{
    lemma_unclosed_fails(template, o);
}

/// No open marker is left in assembled content, where the resolved values
/// bring none in: none holds `[[` or ends with `[`.
pub proof fn lemma_no_leftover_placeholders(template: Seq<char>, vals: Seq<Seq<char>>)
    requires
        content_of(template, vals) is Ok,
        forall|i: int| 0 <= i < vals.len() ==> no_open(#[trigger] vals[i]) && !ends_open(vals[i]),
    ensures
        no_open(content_of(template, vals)->Ok_0),
{
    lemma_scan_chunks(template, 0);
    lemma_scan_shape(template, 0);
    let v = scan_spec(template)->Some_0;
    lemma_interleave_no_open(v.chunks, vals);
}

/// Scoped content holds no scope marker: each `&` of the content became the
/// selector `.` + identifier, at the place where the text before it ends.
pub proof fn lemma_scope_covered(content: Seq<char>, k: int)
    requires
        0 <= k < content.len(),
        content[k] == '&',
    ensures
        !scoped_of(content).contains('&'),
        ({
            let id = class_name_of(content);
            let p = rewrite_scope_spec(content.take(k), id).len() as int;
            scoped_of(content).subrange(p, p + 1 + id.len()) == seq!['.'] + id
        }),
{
    let id = class_name_of(content);
    lemma_class_name_shape(content);
    assert(!id.contains('&')) by {
        assert forall|i: int| 0 <= i < id.len() implies id[i] != '&' by {
            if i < 4 {
                assert(id[i] == id.take(4)[i]);
            }
        }
    }
    lemma_rewrite_removes_markers(content, id);
    lemma_scope_coverage(content, id, k);
}

/// A template without placeholders assembles to itself, braces included.
pub proof fn lemma_plain_template_unchanged(template: Seq<char>)
    requires
        find_from(template, 0, '[', '[') is None,
    ensures
        content_of(template, Seq::empty()) == Ok::<Seq<char>, CompileError>(template),
{
    assert(template.subrange(0, template.len() as int) =~= template);
}

} // verus!
