//! Scanning a style template into literal chunks and placeholder spans.
use vstd::prelude::*;
use crate::error::CompileError;
use crate::text::{chars_of, string_of_range};

verus! {

/// The two characters `a b` stand at index `i` of `s`.
pub open spec fn marker_at(s: Seq<char>, i: int, a: char, b: char) -> bool {
    0 <= i && i + 1 < s.len() && s[i] == a && s[i + 1] == b
}

/// The index of the first `a b` in `s` at or after `i`.
pub open spec fn find_from(s: Seq<char>, i: int, a: char, b: char) -> Option<int>
    decreases s.len() - i,
{
    if i < 0 || i + 1 >= s.len() {
        None
    } else if s[i] == a && s[i + 1] == b {
        Some(i)
    } else {
        find_from(s, i + 1, a, b)
    }
}

pub proof fn lemma_find_from(s: Seq<char>, i: int, a: char, b: char)
    ensures
        match find_from(s, i, a, b) {
            Some(o) => {
                &&& 0 <= i <= o
                &&& marker_at(s, o, a, b)
                &&& forall|k: int| i <= k < o ==> !marker_at(s, k, a, b)
            },
            None => forall|k: int| 0 <= i <= k ==> !marker_at(s, k, a, b),
        },
    decreases s.len() - i,
{
    if i < 0 || i + 1 >= s.len() {
    } else if s[i] == a && s[i + 1] == b {
    } else {
        lemma_find_from(s, i + 1, a, b);
    }
}

/// A placeholder span as a mathematical value.
pub struct SpanView {
    pub start: int,
    pub end: int,
    pub expr: Seq<char>,
}

/// A scanned template: `chunks[i]` is the literal text before `spans[i]`,
/// and the last chunk is the text after the last span.
pub struct TemplateView {
    pub chunks: Seq<Seq<char>>,
    pub spans: Seq<SpanView>,
}

/// `v` with `pre` placed in front of it.
pub open spec fn prepend_view(pre: TemplateView, v: Option<TemplateView>) -> Option<TemplateView> {
    match v {
        Some(t) => Some(TemplateView { chunks: pre.chunks + t.chunks, spans: pre.spans + t.spans }),
        None => None,
    }
}

/// Scanning `s` from index `pos`: `None` where an open marker has no close
/// marker after it.
pub open spec fn scan_from(s: Seq<char>, pos: int) -> Option<TemplateView>
    decreases s.len() - pos,
    via scan_from_decreases
{
    match find_from(s, pos, '[', '[') {
        None => Some(TemplateView { chunks: seq![s.subrange(pos, s.len() as int)], spans: seq![] }),
        Some(o) => match find_from(s, o + 2, ']', ']') {
            None => None,
            Some(c) => prepend_view(
                TemplateView {
                    chunks: seq![s.subrange(pos, o)],
                    spans: seq![SpanView { start: o, end: c + 2, expr: s.subrange(o + 2, c) }],
                },
                scan_from(s, c + 2),
            ),
        },
    }
}

#[via_fn]
proof fn scan_from_decreases(s: Seq<char>, pos: int) {
    lemma_find_from(s, pos, '[', '[');
    if let Some(o) = find_from(s, pos, '[', '[') {
        lemma_find_from(s, o + 2, ']', ']');
    }
}

/// `s` holds no open marker `[[`.
pub open spec fn no_open(s: Seq<char>) -> bool {
    forall|k: int| !marker_at(s, k, '[', '[')
}

/// `s` ends with `[`.
pub open spec fn ends_open(s: Seq<char>) -> bool {
    s.len() > 0 && s.last() == '['
}

proof fn lemma_no_open_subrange(s: Seq<char>, from: int, to: int)
    requires
        0 <= from <= to <= s.len(),
        forall|k: int| from <= k && k + 1 < to ==> !marker_at(s, k, '[', '['),
    ensures
        no_open(s.subrange(from, to)),
{
    let t = s.subrange(from, to);
    assert forall|k: int| !marker_at(t, k, '[', '[') by {
        if marker_at(t, k, '[', '[') {
            assert(marker_at(s, from + k, '[', '['));
        }
    }
}

/// Literal chunks of a scan hold no open marker, and no chunk but the last
/// ends with `[`.
pub proof fn lemma_scan_chunks(s: Seq<char>, pos: int)
    requires
        0 <= pos <= s.len(),
    ensures
        scan_from(s, pos) matches Some(v) ==> forall|i: int|
            0 <= i < v.chunks.len() ==> no_open(#[trigger] v.chunks[i]) && (i + 1 < v.chunks.len()
                ==> !ends_open(v.chunks[i])),
    decreases s.len() - pos,
{
    lemma_find_from(s, pos, '[', '[');
    match find_from(s, pos, '[', '[') {
        None => {
            lemma_no_open_subrange(s, pos, s.len() as int);
        },
        Some(o) => {
            lemma_find_from(s, o + 2, ']', ']');
            if let Some(c) = find_from(s, o + 2, ']', ']') {
                lemma_scan_chunks(s, c + 2);
                lemma_no_open_subrange(s, pos, o);
                let c0 = s.subrange(pos, o);
                assert(!ends_open(c0)) by {
                    if ends_open(c0) {
                        assert(marker_at(s, o - 1, '[', '['));
                    }
                }
                if let Some(rest) = scan_from(s, c + 2) {
                    let v = scan_from(s, pos)->Some_0;
                    assert(v.chunks == seq![c0] + rest.chunks);
                    assert forall|i: int| 0 <= i < v.chunks.len() implies no_open(#[trigger] v.chunks[i])
                        && (i + 1 < v.chunks.len() ==> !ends_open(v.chunks[i])) by {
                        if i > 0 {
                            assert(v.chunks[i] == rest.chunks[i - 1]);
                        }
                    }
                }
            }
        },
    }
}

/// A successful scan has one more chunk than spans.
pub proof fn lemma_scan_shape(s: Seq<char>, pos: int)
    ensures
        scan_from(s, pos) matches Some(v) ==> v.chunks.len() == v.spans.len() + 1,
    decreases s.len() - pos,
{
    lemma_find_from(s, pos, '[', '[');
    if let Some(o) = find_from(s, pos, '[', '[') {
        lemma_find_from(s, o + 2, ']', ']');
        if let Some(c) = find_from(s, o + 2, ']', ']') {
            lemma_scan_shape(s, c + 2);
        }
    }
}

proof fn lemma_unclosed_from(s: Seq<char>, pos: int, o: int)
    requires
        0 <= pos <= o,
        marker_at(s, o, '[', '['),
        forall|k: int| o + 2 <= k ==> !marker_at(s, k, ']', ']'),
    ensures
        scan_from(s, pos) is None,
    decreases s.len() - pos,
{
    lemma_find_from(s, pos, '[', '[');
    if let Some(o1) = find_from(s, pos, '[', '[') {
        assert(o1 <= o);
        lemma_find_from(s, o1 + 2, ']', ']');
        if let Some(c) = find_from(s, o1 + 2, ']', ']') {
            assert(c + 2 <= o) by {
                if c >= o + 2 {
                    assert(!marker_at(s, c, ']', ']'));
                } else if c == o || c == o + 1 || c == o - 1 {
                    assert(s[o] == '[' && s[o + 1] == '[');
                }
            }
            lemma_unclosed_from(s, c + 2, o);
        }
    } else {
        assert(!marker_at(s, o, '[', '['));
    }
}

/// A template with an open marker that no close marker follows never scans,
/// however the markers before it pair up.
pub proof fn lemma_unclosed_fails(s: Seq<char>, o: int)
    requires
        marker_at(s, o, '[', '['),
        forall|k: int| o + 2 <= k ==> !marker_at(s, k, ']', ']'),
    ensures
        scan_spec(s) is None,
{
    lemma_unclosed_from(s, 0, o);
}

/// The scan of a whole template.
pub open spec fn scan_spec(s: Seq<char>) -> Option<TemplateView> {
    scan_from(s, 0)
}

/// A placeholder: `template[start..end]` is `[[expr]]`.
#[derive(Debug, Clone)]
pub struct PlaceholderSpan {
    pub start: usize,
    pub end: usize,
    pub expr: String,
}

impl View for PlaceholderSpan {
    type V = SpanView;

    open spec fn view(&self) -> SpanView {
        SpanView { start: self.start as int, end: self.end as int, expr: self.expr@ }
    }
}

/// A template split into literal chunks and the placeholders between them.
#[derive(Debug, Clone)]
pub struct ScannedTemplate {
    pub chunks: Vec<String>,
    pub spans: Vec<PlaceholderSpan>,
}

impl ScannedTemplate {
    /// One more chunk than spans.
    pub open spec fn wf(&self) -> bool {
        self.chunks@.len() == self.spans@.len() + 1
    }
}

impl View for ScannedTemplate {
    type V = TemplateView;

    open spec fn view(&self) -> TemplateView {
        TemplateView {
            chunks: self.chunks@.map_values(|c: String| c@),
            spans: self.spans@.map_values(|p: PlaceholderSpan| p@),
        }
    }
}

/// The first index at or after `from` where `a b` stands in `s`.
fn find_marker(s: &Vec<char>, from: usize, a: char, b: char) -> (r: Option<usize>)
    ensures
        match r {
            Some(o) => find_from(s@, from as int, a, b) == Some(o as int),
            None => find_from(s@, from as int, a, b) is None,
        },
{
    let mut i: usize = from;
    while i < s.len() && i + 1 < s.len()
        invariant
            from <= i,
            find_from(s@, from as int, a, b) == find_from(s@, i as int, a, b),
        decreases s@.len() - i,
    {
        if s[i] == a && s[i + 1] == b {
            return Some(i);
        }
        i = i + 1;
    }
    None
}

/// Splits `template` into literal chunks and `[[...]]` placeholder spans,
/// scanning left to right; the close marker is searched from just after
/// the open marker.
pub fn scan(template: &str) -> (r: Result<ScannedTemplate, CompileError>)
    ensures
        match scan_spec(template@) {
            Some(v) => r is Ok && r->Ok_0@ == v,
            None => r is Err && r->Err_0 is UnclosedPlaceholder,
        },
        r is Ok ==> r->Ok_0.wf(),
{
    let s = chars_of(template);
    let mut chunks: Vec<String> = Vec::new();
    let mut spans: Vec<PlaceholderSpan> = Vec::new();
    let mut pos: usize = 0;
    loop
        invariant
            s@ == template@,
            pos <= s@.len(),
            scan_spec(s@) == prepend_view(
                ScannedTemplate { chunks, spans }@,
                scan_from(s@, pos as int),
            ),
        decreases s@.len() - pos,
    {
        let ghost acc = ScannedTemplate { chunks, spans }@;
        proof {
            lemma_find_from(s@, pos as int, '[', '[');
        }
        match find_marker(&s, pos, '[', '[') {
            None => {
                chunks.push(string_of_range(&s, pos, s.len()));
                proof {
                    let got = ScannedTemplate { chunks, spans }@;
                    assert(got.chunks =~= acc.chunks + seq![s@.subrange(pos as int, s@.len() as int)]);
                    assert(got.spans =~= acc.spans + Seq::<SpanView>::empty());
                    lemma_scan_shape(template@, 0);
                }
                return Ok(ScannedTemplate { chunks, spans });
            },
            Some(o) => {
                proof {
                    lemma_find_from(s@, o + 2, ']', ']');
                }
                match find_marker(&s, o + 2, ']', ']') {
                    None => {
                        return Err(CompileError::UnclosedPlaceholder);
                    },
                    Some(c) => {
                        chunks.push(string_of_range(&s, pos, o));
                        spans.push(PlaceholderSpan { start: o, end: c + 2, expr: string_of_range(&s, o + 2, c) });
                        proof {
                            let got = ScannedTemplate { chunks, spans }@;
                            let step = TemplateView {
                                chunks: seq![s@.subrange(pos as int, o as int)],
                                spans: seq![SpanView { start: o as int, end: c + 2, expr: s@.subrange(o + 2, c as int) }],
                            };
                            assert(got.chunks =~= acc.chunks + step.chunks);
                            assert(got.spans =~= acc.spans + step.spans);
                            match scan_from(s@, c + 2) {
                                Some(t) => {
                                    assert(acc.chunks + (step.chunks + t.chunks) =~= got.chunks + t.chunks);
                                    assert(acc.spans + (step.spans + t.spans) =~= got.spans + t.spans);
                                },
                                None => {},
                            }
                        }
                        pos = c + 2;
                    },
                }
            },
        }
    }
}

} // verus!
