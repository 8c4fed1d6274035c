//! The text of a string literal as written in source: `"..."` or `r#"..."#`.
use vstd::prelude::*;
use crate::text::{chars_of, string_of_range};

verus! {

/// The body of the literal `s`: `None` where `s` is neither `r#"..."#` nor
/// `"..."`.
pub open spec fn literal_body(s: Seq<char>) -> Option<Seq<char>> {
    if s.len() >= 5 && s[0] == 'r' && s[1] == '#' && s[2] == '"' && s[s.len() - 2] == '"'
        && s[s.len() - 1] == '#' {
        Some(s.subrange(3, s.len() - 2))
    } else if s.len() >= 2 && s[0] == '"' && s[s.len() - 1] == '"' {
        Some(s.subrange(1, s.len() - 1))
    } else {
        None
    }
}

/// The text between the quotes of a string literal written as `"..."` or
/// as a raw literal `r#"..."#`; escapes are left as they stand.
pub fn parse_literal_to_string(lit: &str) -> (r: Option<String>)
    ensures
        match literal_body(lit@) {
            Some(b) => r is Some && r->Some_0@ == b,
            None => r is None,
        },
{
    let s = chars_of(lit);
    let n = s.len();
    if n >= 5 && s[0] == 'r' && s[1] == '#' && s[2] == '"' && s[n - 2] == '"' && s[n - 1] == '#' {
        Some(string_of_range(&s, 3, n - 2))
    } else if n >= 2 && s[0] == '"' && s[n - 1] == '"' {
        Some(string_of_range(&s, 1, n - 1))
    } else {
        None
    }
}

} // verus!
