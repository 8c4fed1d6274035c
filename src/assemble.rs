//! Assembling literal chunks and resolved values into one content string.
//!
//! Values are spliced in through a small slot grammar: `{}` marks a slot,
//! `{{` and `}}` stand for literal braces. Literal chunks are escaped before
//! they enter that grammar, so CSS rule braces come out exactly as written.
use vstd::prelude::*;
use crate::error::CompileError;
use crate::template::{ends_open, marker_at, no_open, ScannedTemplate, TemplateView};
use crate::text::{append_char, chars_of};

verus! {

/// The escaped form of one character.
pub open spec fn escape_char(c: char) -> Seq<char> {
    if c == '{' {
        seq!['{', '{']
    } else if c == '}' {
        seq!['}', '}']
    } else {
        seq![c]
    }
}

/// `t` with every brace doubled.
pub open spec fn escape(t: Seq<char>) -> Seq<char>
    decreases t.len(),
{
    if t.len() == 0 {
        Seq::empty()
    } else {
        escape(t.drop_last()) + escape_char(t.last())
    }
}

/// `o` with `p` in front of the text it holds.
pub open spec fn prepend_opt(p: Seq<char>, o: Option<Seq<char>>) -> Option<Seq<char>> {
    match o {
        Some(x) => Some(p + x),
        None => None,
    }
}

/// Fills the slots of the pattern `f` with `vals`, in order: `None` where the
/// pattern is malformed or the number of values differs from the number of slots.
pub open spec fn fill(f: Seq<char>, vals: Seq<Seq<char>>) -> Option<Seq<char>>
    decreases f.len(),
{
    if f.len() == 0 {
        if vals.len() == 0 {
            Some(Seq::empty())
        } else {
            None
        }
    } else if f.len() >= 2 && f[0] == '{' && f[1] == '{' {
        prepend_opt(seq!['{'], fill(f.skip(2), vals))
    } else if f.len() >= 2 && f[0] == '}' && f[1] == '}' {
        prepend_opt(seq!['}'], fill(f.skip(2), vals))
    } else if f.len() >= 2 && f[0] == '{' && f[1] == '}' {
        if vals.len() == 0 {
            None
        } else {
            prepend_opt(vals[0], fill(f.skip(2), vals.drop_first()))
        }
    } else if f[0] == '{' || f[0] == '}' {
        None
    } else {
        prepend_opt(seq![f[0]], fill(f.skip(1), vals))
    }
}

/// The slot pattern of a chunk list: escaped chunks with a slot between each two.
pub open spec fn format_of(chunks: Seq<Seq<char>>) -> Seq<char>
    decreases chunks.len(),
{
    if chunks.len() <= 1 {
        if chunks.len() == 1 {
            escape(chunks[0])
        } else {
            Seq::empty()
        }
    } else {
        format_of(chunks.drop_last()) + seq!['{', '}'] + escape(chunks.last())
    }
}

/// Chunks and values interleaved: `chunks[0] + vals[0] + chunks[1] + ...`.
pub open spec fn interleave(chunks: Seq<Seq<char>>, vals: Seq<Seq<char>>) -> Seq<char>
    decreases chunks.len(),
{
    if chunks.len() <= 1 {
        if chunks.len() == 1 {
            chunks[0]
        } else {
            Seq::empty()
        }
    } else {
        interleave(chunks.drop_last(), vals.drop_last()) + vals.last() + chunks.last()
    }
}

/// The views of a list of strings.
pub open spec fn views_of(v: Seq<String>) -> Seq<Seq<char>> {
    v.map_values(|s: String| s@)
}

/// The content assembled from a scanned template and its resolved values.
pub open spec fn assembled(t: TemplateView, vals: Seq<Seq<char>>) -> Seq<char> {
    interleave(t.chunks, vals)
}

proof fn lemma_prepend_assoc(a: Seq<char>, b: Seq<char>, o: Option<Seq<char>>)
    ensures
        prepend_opt(a, prepend_opt(b, o)) == prepend_opt(a + b, o),
{
    if let Some(x) = o {
        assert(a + (b + x) =~= (a + b) + x);
    }
}

proof fn lemma_fill_escape_char(c: char, r: Seq<char>, vals: Seq<Seq<char>>)
    ensures
        fill(escape_char(c) + r, vals) == prepend_opt(seq![c], fill(r, vals)),
{
    let f = escape_char(c) + r;
    if c == '{' || c == '}' {
        assert(f.skip(2) =~= r);
    } else {
        assert(f.skip(1) =~= r);
    }
}

/// Escaping is undone by filling: an escaped literal comes out as written.
pub proof fn lemma_fill_escape(t: Seq<char>, r: Seq<char>, vals: Seq<Seq<char>>)
    ensures
        fill(escape(t) + r, vals) == prepend_opt(t, fill(r, vals)),
    decreases t.len(),
{
    if t.len() == 0 {
        assert(escape(t) + r =~= r);
        if let Some(x) = fill(r, vals) {
            assert(t + x =~= x);
        }
    } else {
        let init = t.drop_last();
        let c = t.last();
        assert(escape(t) + r =~= escape(init) + (escape_char(c) + r));
        lemma_fill_escape(init, escape_char(c) + r, vals);
        lemma_fill_escape_char(c, r, vals);
        lemma_prepend_assoc(init, seq![c], fill(r, vals));
        assert(init + seq![c] =~= t);
    }
}

proof fn lemma_fill_slot(x: Seq<char>, vals: Seq<Seq<char>>)
    ensures
        fill(seq!['{', '}'] + x, vals) == (if vals.len() == 0 {
            None
        } else {
            prepend_opt(vals[0], fill(x, vals.drop_first()))
        }),
{
    assert((seq!['{', '}'] + x).skip(2) =~= x);
}

/// Filling the pattern of `chunks` followed by `r` consumes one value per slot.
pub proof fn lemma_fill_format(chunks: Seq<Seq<char>>, r: Seq<char>, vals: Seq<Seq<char>>)
    requires
        chunks.len() >= 1,
    ensures
        fill(format_of(chunks) + r, vals) == (if vals.len() >= chunks.len() - 1 {
            prepend_opt(
                interleave(chunks, vals.take(chunks.len() - 1)),
                fill(r, vals.skip(chunks.len() - 1)),
            )
        } else {
            None
        }),
    decreases chunks.len(),
{
    let k = chunks.len() - 1;
    if chunks.len() == 1 {
        lemma_fill_escape(chunks[0], r, vals);
        assert(vals.skip(0) =~= vals);
    } else {
        let init = chunks.drop_last();
        let last = chunks.last();
        let x = escape(last) + r;
        assert(format_of(chunks) + r =~= format_of(init) + (seq!['{', '}'] + x));
        lemma_fill_format(init, seq!['{', '}'] + x, vals);
        if vals.len() >= k - 1 {
            let w = vals.skip(k - 1);
            lemma_fill_slot(x, w);
            if vals.len() >= k {
                assert(w[0] == vals[k - 1]);
                assert(w.drop_first() =~= vals.skip(k));
                lemma_fill_escape(last, r, vals.skip(k));
                lemma_prepend_assoc(vals[k - 1], last, fill(r, vals.skip(k)));
                lemma_prepend_assoc(
                    interleave(init, vals.take(k - 1)),
                    vals[k - 1] + last,
                    fill(r, vals.skip(k)),
                );
                let vt = vals.take(k);
                assert(vt.drop_last() =~= vals.take(k - 1));
                assert(interleave(chunks, vt) == interleave(init, vt.drop_last()) + vt.last() + last);
                assert(interleave(init, vals.take(k - 1)) + (vals[k - 1] + last) =~= interleave(
                    init,
                    vals.take(k - 1),
                ) + vals[k - 1] + last);
            }
        }
    }
}

/// Filling the pattern of `chunks` with `vals` gives the interleaving exactly
/// when there is one value per slot, and fails otherwise.
pub proof fn lemma_fill_format_exact(chunks: Seq<Seq<char>>, vals: Seq<Seq<char>>)
    requires
        chunks.len() >= 1,
    ensures
        fill(format_of(chunks), vals) == (if vals.len() == chunks.len() - 1 {
            Some(interleave(chunks, vals))
        } else {
            None
        }),
{
    let k = chunks.len() - 1;
    lemma_fill_format(chunks, Seq::empty(), vals);
    assert(format_of(chunks) + Seq::<char>::empty() =~= format_of(chunks));
    if vals.len() >= k {
        assert(vals.skip(k).len() == 0 <==> vals.len() == k);
        if vals.len() == k {
            assert(vals.take(k) =~= vals);
            assert(vals.skip(k) =~= Seq::<Seq<char>>::empty());
            let i = interleave(chunks, vals);
            assert(i + Seq::<char>::empty() =~= i);
        }
    }
}

proof fn lemma_no_open_concat(a: Seq<char>, b: Seq<char>)
    requires
        no_open(a),
        no_open(b),
        !ends_open(a),
    ensures
        no_open(a + b),
        !ends_open(b) ==> !ends_open(a + b),
{
    let ab = a + b;
    assert forall|k: int| !marker_at(ab, k, '[', '[') by {
        if marker_at(ab, k, '[', '[') {
            if k + 1 < a.len() {
                assert(marker_at(a, k, '[', '['));
            } else if k >= a.len() {
                assert(marker_at(b, k - a.len(), '[', '['));
            } else {
                assert(a.last() == ab[k]);
            }
        }
    }
    if !ends_open(b) && b.len() == 0 {
        assert(ab =~= a);
    }
}

/// Interleaving chunks and values with no open marker in them, where no chunk
/// but the last and no value ends with `[`, leaves no open marker.
pub proof fn lemma_interleave_no_open(chunks: Seq<Seq<char>>, vals: Seq<Seq<char>>)
    requires
        chunks.len() >= 1,
        vals.len() == chunks.len() - 1,
        forall|i: int| 0 <= i < chunks.len() ==> no_open(#[trigger] chunks[i]),
        forall|i: int| 0 <= i < chunks.len() - 1 ==> !ends_open(#[trigger] chunks[i]),
        forall|i: int| 0 <= i < vals.len() ==> no_open(#[trigger] vals[i]) && !ends_open(vals[i]),
    ensures
        no_open(interleave(chunks, vals)),
        !ends_open(chunks.last()) ==> !ends_open(interleave(chunks, vals)),
    decreases chunks.len(),
{
    if chunks.len() > 1 {
        let c = chunks.drop_last();
        let v = vals.drop_last();
        assert forall|i: int| 0 <= i < c.len() - 1 implies !ends_open(#[trigger] c[i]) by {
            assert(c[i] == chunks[i]);
        }
        assert(c.last() == chunks[chunks.len() - 2]);
        lemma_interleave_no_open(c, v);
        let x = interleave(c, v);
        let w = vals.last();
        assert(no_open(w) && !ends_open(w)) by {
            assert(w == vals[vals.len() - 1]);
        }
        lemma_no_open_concat(x, w);
        lemma_no_open_concat(x + w, chunks.last());
    }
}

/// Appends the escaped form of `t` to `out`.
fn escape_into(out: &mut String, t: &Vec<char>)
    ensures
        final(out)@ == old(out)@ + escape(t@),
{
    let mut i: usize = 0;
    while i < t.len()
        invariant
            i <= t@.len(),
            out@ == old(out)@ + escape(t@.take(i as int)),
        decreases t@.len() - i,
    {
        let c = t[i];
        if c == '{' {
            append_char(out, '{');
            append_char(out, '{');
        } else if c == '}' {
            append_char(out, '}');
            append_char(out, '}');
        } else {
            append_char(out, c);
        }
        proof {
            let p = t@.take(i + 1);
            assert(p.drop_last() =~= t@.take(i as int));
            assert(p.last() == c);
            assert(escape(p) == escape(t@.take(i as int)) + escape_char(c));
            assert(out@ =~= old(out)@ + escape(p));
        }
        i = i + 1;
    }
    assert(t@.take(t@.len() as int) =~= t@);
}

/// The slot pattern of the chunks: each chunk with its braces doubled, and
/// `{}` between each two.
pub fn build_format(chunks: &Vec<String>) -> (r: String)
    ensures
        r@ == format_of(views_of(chunks@)),
{
    let ghost cs = views_of(chunks@);
    let mut out = String::new();
    let mut i: usize = 0;
    while i < chunks.len()
        invariant
            cs == views_of(chunks@),
            i <= chunks@.len(),
            out@ == format_of(cs.take(i as int)),
        decreases chunks@.len() - i,
    {
        if i > 0 {
            append_char(&mut out, '{');
            append_char(&mut out, '}');
        }
        let t = chars_of(chunks[i].as_str());
        escape_into(&mut out, &t);
        proof {
            let p = cs.take(i + 1);
            assert(p.drop_last() =~= cs.take(i as int));
            assert(p.last() == chunks@[i as int]@);
            assert(out@ =~= format_of(p));
        }
        i = i + 1;
    }
    assert(cs.take(chunks@.len() as int) =~= cs);
    out
}

/// Fills the slots of `pattern` with `values`, in order; `{{` and `}}` give
/// one brace each. `None` where the pattern is malformed or the number of
/// values differs from the number of slots.
pub fn fill_slots(pattern: &str, values: &Vec<String>) -> (r: Option<String>)
    ensures
        match fill(pattern@, views_of(values@)) {
            Some(x) => r is Some && r->Some_0@ == x,
            None => r is None,
        },
{
    let f = chars_of(pattern);
    let ghost vs = views_of(values@);
    let mut out = String::new();
    let mut i: usize = 0;
    let mut j: usize = 0;
    proof {
        assert(f@.skip(0) =~= f@);
        assert(vs.skip(0) =~= vs);
        if let Some(x) = fill(f@, vs) {
            assert(out@ + x =~= x);
        }
    }
    while i < f.len()
        invariant
            f@ == pattern@,
            vs == views_of(values@),
            i <= f@.len(),
            j <= values@.len(),
            fill(f@, vs) == prepend_opt(out@, fill(f@.skip(i as int), vs.skip(j as int))),
        decreases f@.len() - i,
    {
        let ghost g = f@.skip(i as int);
        let ghost w = vs.skip(j as int);
        let ghost before = out@;
        if i + 1 < f.len() && f[i] == '{' && f[i + 1] == '{' {
            append_char(&mut out, '{');
            proof {
                assert(g.skip(2) =~= f@.skip(i + 2));
                lemma_prepend_assoc(before, seq!['{'], fill(g.skip(2), w));
            }
            i = i + 2;
        } else if i + 1 < f.len() && f[i] == '}' && f[i + 1] == '}' {
            append_char(&mut out, '}');
            proof {
                assert(g.skip(2) =~= f@.skip(i + 2));
                lemma_prepend_assoc(before, seq!['}'], fill(g.skip(2), w));
            }
            i = i + 2;
        } else if i + 1 < f.len() && f[i] == '{' && f[i + 1] == '}' {
            if j >= values.len() {
                return None;
            }
            out.append(values[j].as_str());
            proof {
                assert(g.skip(2) =~= f@.skip(i + 2));
                assert(w[0] == vs[j as int]);
                assert(w.drop_first() =~= vs.skip(j + 1));
                lemma_prepend_assoc(before, vs[j as int], fill(g.skip(2), w.drop_first()));
            }
            i = i + 2;
            j = j + 1;
        } else if f[i] == '{' || f[i] == '}' {
            return None;
        } else {
            append_char(&mut out, f[i]);
            proof {
                assert(g.skip(1) =~= f@.skip(i + 1));
                lemma_prepend_assoc(before, seq![f@[i as int]], fill(g.skip(1), w));
            }
            i = i + 1;
        }
    }
    proof {
        assert(f@.skip(i as int).len() == 0);
    }
    if j < values.len() {
        return None;
    }
    proof {
        assert(vs.skip(j as int).len() == 0);
        assert(out@ + Seq::<char>::empty() =~= out@);
    }
    Some(out)
}

/// The content of a scanned template with its resolved values spliced in,
/// one per placeholder in scan order; literal text comes out unchanged.
pub fn assemble(scanned: &ScannedTemplate, values: &Vec<String>) -> (r: Result<String, CompileError>)
    requires
        scanned.wf(),
    ensures
        values@.len() == scanned.spans@.len() ==> r is Ok && r->Ok_0@ == assembled(
            scanned@,
            views_of(values@),
        ),
        values@.len() != scanned.spans@.len() ==> r is Err && r->Err_0 is UnresolvedPlaceholder,
{
    let pattern = build_format(&scanned.chunks);
    proof {
        lemma_fill_format_exact(views_of(scanned.chunks@), views_of(values@));
    }
    match fill_slots(pattern.as_str(), values) {
        Some(s) => Ok(s),
        None => Err(CompileError::UnresolvedPlaceholder),
    }
}

} // verus!
