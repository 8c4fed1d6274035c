//! Rewriting the scope marker `&` into the class selector.
use vstd::prelude::*;
use crate::text::{append_char, chars_of};

verus! {

/// What one character of the content becomes.
pub open spec fn rewrite_char(c: char, id: Seq<char>) -> Seq<char> {
    if c == '&' {
        seq!['.'] + id
    } else {
        seq![c]
    }
}

/// `s` with every `&` replaced by `.` followed by `id`.
pub open spec fn rewrite_scope_spec(s: Seq<char>, id: Seq<char>) -> Seq<char>
    decreases s.len(),
{
    if s.len() == 0 {
        Seq::empty()
    } else {
        rewrite_scope_spec(s.drop_last(), id) + rewrite_char(s.last(), id)
    }
}

/// Replaces every `&` of `content` with `.` followed by `id`. The
/// substitution is textual: markers inside nested blocks, comments and
/// strings are rewritten too.
pub fn rewrite_scope(content: &str, id: &str) -> (r: String)
    ensures
        r@ == rewrite_scope_spec(content@, id@),
{
    let s = chars_of(content);
    let mut out = String::new();
    let mut i: usize = 0;
    while i < s.len()
        invariant
            s@ == content@,
            i <= s@.len(),
            out@ == rewrite_scope_spec(s@.take(i as int), id@),
        decreases s@.len() - i,
    {
        let c = s[i];
        if c == '&' {
            append_char(&mut out, '.');
            out.append(id);
        } else {
            append_char(&mut out, c);
        }
        proof {
            let p = s@.take(i + 1);
            assert(p.drop_last() =~= s@.take(i as int));
            assert(p.last() == c);
            assert(out@ =~= rewrite_scope_spec(p, id@));
        }
        i = i + 1;
    }
    assert(s@.take(s@.len() as int) =~= s@);
    out
}

/// Rewriting distributes over concatenation.
pub proof fn lemma_rewrite_concat(a: Seq<char>, b: Seq<char>, id: Seq<char>)
    ensures
        rewrite_scope_spec(a + b, id) == rewrite_scope_spec(a, id) + rewrite_scope_spec(b, id),
    decreases b.len(),
{
    if b.len() == 0 {
        assert(a + b =~= a);
        assert(rewrite_scope_spec(a, id) + rewrite_scope_spec(b, id) =~= rewrite_scope_spec(a, id));
    } else {
        assert((a + b).drop_last() =~= a + b.drop_last());
        assert((a + b).last() == b.last());
        lemma_rewrite_concat(a, b.drop_last(), id);
        assert(rewrite_scope_spec(a + b, id) =~= rewrite_scope_spec(a, id) + rewrite_scope_spec(b, id));
    }
}

/// Where an identifier holds no `&`, no `&` is left after rewriting.
pub proof fn lemma_rewrite_removes_markers(s: Seq<char>, id: Seq<char>)
    requires
        !id.contains('&'),
    ensures
        !rewrite_scope_spec(s, id).contains('&'),
    decreases s.len(),
{
    if s.len() > 0 {
        lemma_rewrite_removes_markers(s.drop_last(), id);
        let a = rewrite_scope_spec(s.drop_last(), id);
        let b = rewrite_char(s.last(), id);
        assert(!b.contains('&')) by {
            if s.last() == '&' {
                assert forall|k: int| 0 <= k < b.len() implies b[k] != '&' by {
                    if k > 0 {
                        assert(b[k] == id[k - 1]);
                    }
                }
            }
        }
        assert forall|k: int| 0 <= k < (a + b).len() implies (a + b)[k] != '&' by {
            if k < a.len() {
                assert((a + b)[k] == a[k]);
            } else {
                assert((a + b)[k] == b[k - a.len()]);
            }
        }
    }
}

/// Every `&` of `s` becomes the selector `.` + `id`, at the place where the
/// text before it ends after rewriting.
pub proof fn lemma_scope_coverage(s: Seq<char>, id: Seq<char>, k: int)
    requires
        0 <= k < s.len(),
        s[k] == '&',
    ensures
        ({
            let p = rewrite_scope_spec(s.take(k), id).len() as int;
            rewrite_scope_spec(s, id).subrange(p, p + 1 + id.len()) == seq!['.'] + id
        }),
{
    let pre = s.take(k);
    let post = s.skip(k + 1);
    assert(s =~= pre + (seq!['&'] + post));
    lemma_rewrite_concat(pre, seq!['&'] + post, id);
    lemma_rewrite_concat(seq!['&'], post, id);
    let one = seq!['&'];
    assert(one.drop_last() =~= Seq::<char>::empty());
    assert(one.last() == '&');
    assert(rewrite_scope_spec(one.drop_last(), id) == Seq::<char>::empty());
    assert(rewrite_scope_spec(one, id) == rewrite_scope_spec(one.drop_last(), id) + rewrite_char('&', id));
    assert(rewrite_scope_spec(seq!['&'], id) =~= seq!['.'] + id);
    let p = rewrite_scope_spec(pre, id).len() as int;
    assert(rewrite_scope_spec(s, id).subrange(p, p + 1 + id.len()) =~= seq!['.'] + id);
}

} // verus!
