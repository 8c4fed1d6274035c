//! Content-derived class identifiers: `css-` and eight lowercase hex digits
//! taken from the SHA-256 digest of the content.
use vstd::prelude::*;
use crate::text::append_char;

verus! {

/// The SHA-256 digest of the UTF-8 encoding of `s`.
pub uninterp spec fn sha256_of(s: Seq<char>) -> Seq<u8>;

/// Relies on sha2's `Sha256` through `Digest::digest`: the 32-byte SHA-256
/// digest of the UTF-8 bytes of `s`, which depends on those bytes alone.
#[verifier::external_body]
fn sha256_digest(s: &str) -> (r: Vec<u8>)
    ensures
        r@ == sha256_of(s@),
        r@.len() == 32,
{
    <sha2::Sha256 as sha2::Digest>::digest(s.as_bytes()).to_vec()
}

/// The first four bytes of `d`, read as a big-endian 32-bit number.
pub open spec fn be_word(d: Seq<u8>) -> nat {
    d[0] as nat * 16777216 + d[1] as nat * 65536 + d[2] as nat * 256 + d[3] as nat
}

/// The lowercase hex digit of `n`, for `n < 16`.
pub open spec fn hex_char(n: nat) -> char {
    seq!['0', '1', '2', '3', '4', '5', '6', '7', '8', '9', 'a', 'b', 'c', 'd', 'e', 'f'][n as int]
}

/// The last `n` hex digits of `w`, leading zeros included.
pub open spec fn hex_fixed(w: nat, n: nat) -> Seq<char>
    decreases n,
{
    if n == 0 {
        Seq::empty()
    } else {
        hex_fixed(w / 16, (n - 1) as nat).push(hex_char(w % 16))
    }
}

/// The class identifier of `content`.
pub open spec fn class_name_of(content: Seq<char>) -> Seq<char> {
    seq!['c', 's', 's', '-'] + hex_fixed(be_word(sha256_of(content)), 8)
}

fn hex_char_of(n: u32) -> (c: char)
    requires
        n < 16,
    ensures
        c == hex_char(n as nat),
{
    let table: [char; 16] = ['0', '1', '2', '3', '4', '5', '6', '7', '8', '9', 'a', 'b', 'c', 'd', 'e', 'f'];
    assert(table@ =~= seq!['0', '1', '2', '3', '4', '5', '6', '7', '8', '9', 'a', 'b', 'c', 'd', 'e', 'f']);
    table[n as usize]
}

fn hex_into(out: &mut String, w: u32, n: usize)
    ensures
        final(out)@ == old(out)@ + hex_fixed(w as nat, n as nat),
    decreases n,
{
    if n == 0 {
        assert(old(out)@ + hex_fixed(w as nat, 0) =~= old(out)@);
    } else {
        hex_into(out, w / 16, n - 1);
        append_char(out, hex_char_of(w % 16));
        assert(out@ =~= old(out)@ + hex_fixed(w as nat, n as nat));
    }
}

/// The class identifier of `css_content`: `css-` followed by the first four
/// bytes of its SHA-256 digest as eight lowercase hex digits.
pub fn generate_class_name(css_content: &str) -> (r: String)
    ensures
        r@ == class_name_of(css_content@),
{
    let d = sha256_digest(css_content);
    let w: u32 = (d[0] as u32) * 16777216 + (d[1] as u32) * 65536 + (d[2] as u32) * 256 + (d[3] as u32);
    let mut out = String::new();
    append_char(&mut out, 'c');
    append_char(&mut out, 's');
    append_char(&mut out, 's');
    append_char(&mut out, '-');
    hex_into(&mut out, w, 8);
    assert(out@ =~= class_name_of(css_content@));
    out
}

/// The identifier depends on the content alone: equal contents give equal
/// identifiers.
pub proof fn lemma_class_name_deterministic(c1: Seq<char>, c2: Seq<char>)
    requires
        c1 == c2,
    ensures
        class_name_of(c1) == class_name_of(c2),
{
}

/// `16` to the power `n`.
pub open spec fn pow16(n: nat) -> nat
    decreases n,
{
    if n == 0 {
        1
    } else {
        16 * pow16((n - 1) as nat)
    }
}

proof fn lemma_hex_char_injective(a: nat, b: nat)
    requires
        a < 16,
        b < 16,
        hex_char(a) == hex_char(b),
    ensures
        a == b,
{
    let digits = seq!['0', '1', '2', '3', '4', '5', '6', '7', '8', '9', 'a', 'b', 'c', 'd', 'e', 'f'];
    assert(forall|i: int, j: int| 0 <= i < 16 && 0 <= j < 16 && i != j ==> #[trigger] digits[i] != #[trigger] digits[j]);
}

proof fn lemma_hex_fixed_injective(w1: nat, w2: nat, n: nat)
    requires
        w1 < pow16(n),
        w2 < pow16(n),
        hex_fixed(w1, n) == hex_fixed(w2, n),
    ensures
        w1 == w2,
    decreases n,
{
    if n > 0 {
        let m = (n - 1) as nat;
        let h1 = hex_fixed(w1 / 16, m);
        let h2 = hex_fixed(w2 / 16, m);
        assert(hex_fixed(w1, n).drop_last() =~= h1);
        assert(hex_fixed(w2, n).drop_last() =~= h2);
        assert(hex_fixed(w1, n).last() == hex_char(w1 % 16));
        assert(hex_fixed(w2, n).last() == hex_char(w2 % 16));
        lemma_hex_char_injective(w1 % 16, w2 % 16);
        assert(w1 / 16 < pow16(m)) by (nonlinear_arith)
            requires
                w1 < 16 * pow16(m),
        {}
        assert(w2 / 16 < pow16(m)) by (nonlinear_arith)
            requires
                w2 < 16 * pow16(m),
        {}
        lemma_hex_fixed_injective(w1 / 16, w2 / 16, m);
        assert(w1 == 16 * (w1 / 16) + w1 % 16);
        assert(w2 == 16 * (w2 / 16) + w2 % 16);
    }
}

/// Two contents get the same identifier exactly when the first four bytes
/// of their digests, read as a 32-bit number, agree: identifiers differ
/// unless the digests collide on that prefix.
pub proof fn lemma_class_name_sensitivity(c1: Seq<char>, c2: Seq<char>)
    ensures
        class_name_of(c1) == class_name_of(c2) <==> be_word(sha256_of(c1)) == be_word(sha256_of(c2)),
{
    let w1 = be_word(sha256_of(c1));
    let w2 = be_word(sha256_of(c2));
    if class_name_of(c1) == class_name_of(c2) {
        assert(class_name_of(c1).skip(4) =~= hex_fixed(w1, 8));
        assert(class_name_of(c2).skip(4) =~= hex_fixed(w2, 8));
        reveal_with_fuel(pow16, 9);
        assert(pow16(8) == 4294967296);
        lemma_hex_fixed_injective(w1, w2, 8);
    }
}

/// Every identifier is `css-` followed by eight lowercase hex digits.
pub proof fn lemma_class_name_shape(content: Seq<char>)
    ensures
        class_name_of(content).len() == 12,
        class_name_of(content).take(4) == seq!['c', 's', 's', '-'],
        forall|i: int|
            4 <= i < 12 ==> {
                let c = #[trigger] class_name_of(content)[i];
                ('0' <= c <= '9') || ('a' <= c <= 'f')
            },
{
    lemma_hex_fixed_shape(be_word(sha256_of(content)), 8);
    assert(class_name_of(content).take(4) =~= seq!['c', 's', 's', '-']);
    assert forall|i: int| 4 <= i < 12 implies {
        let c = #[trigger] class_name_of(content)[i];
        ('0' <= c <= '9') || ('a' <= c <= 'f')
    } by {
        assert(class_name_of(content)[i] == hex_fixed(be_word(sha256_of(content)), 8)[i - 4]);
    }
}

proof fn lemma_hex_fixed_shape(w: nat, n: nat)
    ensures
        hex_fixed(w, n).len() == n,
        forall|i: int|
            0 <= i < n ==> {
                let c = #[trigger] hex_fixed(w, n)[i];
                ('0' <= c <= '9') || ('a' <= c <= 'f')
            },
    decreases n,
{
    if n > 0 {
        lemma_hex_fixed_shape(w / 16, (n - 1) as nat);
        let d = w % 16;
        let digits = seq!['0', '1', '2', '3', '4', '5', '6', '7', '8', '9', 'a', 'b', 'c', 'd', 'e', 'f'];
        assert(forall|k: int| 0 <= k < 16 ==> ('0' <= #[trigger] digits[k] <= '9') || ('a' <= digits[k] <= 'f'));
    }
}

} // verus!
