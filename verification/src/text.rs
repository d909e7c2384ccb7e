//! Orderings and comparisons on text and on integer sequences.
use std::cmp::Ordering;
use vstd::prelude::*;
use vstd::string::StringSliceAdditionalSpecFns;
use vstd::utf8::encode_utf8;

use crate::keys::int_of;

verus! {

/// The opposite ordering.
pub open spec fn flip(o: Ordering) -> Ordering {
    match o {
        Ordering::Less => Ordering::Greater,
        Ordering::Equal => Ordering::Equal,
        Ordering::Greater => Ordering::Less,
    }
}

/// Lexicographic order of two integer sequences: the first differing element
/// decides, and a proper prefix comes first.
pub open spec fn lex_order(a: Seq<int>, b: Seq<int>) -> Ordering
    decreases a.len(),
{
    if a.len() == 0 {
        if b.len() == 0 {
            Ordering::Equal
        } else {
            Ordering::Less
        }
    } else if b.len() == 0 {
        Ordering::Greater
    } else if a[0] < b[0] {
        Ordering::Less
    } else if a[0] > b[0] {
        Ordering::Greater
    } else {
        lex_order(a.drop_first(), b.drop_first())
    }
}

/// Swapping the operands flips the lexicographic order.
pub proof fn lemma_lex_flip(a: Seq<int>, b: Seq<int>)
    ensures
        lex_order(b, a) == flip(lex_order(a, b)),
    decreases a.len(),
{
    if a.len() > 0 && b.len() > 0 && a[0] == b[0] {
        lemma_lex_flip(a.drop_first(), b.drop_first());
    }
}

/// Two sequences are lexicographically equal exactly when they are equal.
pub proof fn lemma_lex_equal(a: Seq<int>, b: Seq<int>)
    ensures
        (lex_order(a, b) == Ordering::Equal) <==> (a == b),
    decreases a.len(),
{
    if a.len() > 0 && b.len() > 0 && a[0] == b[0] {
        lemma_lex_equal(a.drop_first(), b.drop_first());
        if a.drop_first() == b.drop_first() {
            assert(a =~= seq![a[0]] + a.drop_first());
            assert(b =~= seq![b[0]] + b.drop_first());
        }
        if a == b {
            assert(a.drop_first() =~= b.drop_first());
        }
    } else if a.len() == 0 && b.len() == 0 {
        assert(a =~= b);
    }
}

/// Lexicographic order is transitive.
pub proof fn lemma_lex_transitive(a: Seq<int>, b: Seq<int>, c: Seq<int>)
    requires
        lex_order(a, b) != Ordering::Greater,
        lex_order(b, c) != Ordering::Greater,
    ensures
        lex_order(a, c) != Ordering::Greater,
        lex_order(a, b) == Ordering::Less || lex_order(b, c) == Ordering::Less ==> lex_order(a, c)
            == Ordering::Less,
    decreases a.len(),
{
    if a.len() > 0 && b.len() > 0 && c.len() > 0 && a[0] == b[0] && b[0] == c[0] {
        lemma_lex_transitive(a.drop_first(), b.drop_first(), c.drop_first());
    }
}

/// The bytes of a text as integers.
pub open spec fn byte_key(s: Seq<u8>) -> Seq<int> {
    s.map_values(|b: u8| b as int)
}

/// The UTF-8 bytes of a text as integers: their lexicographic order is the
/// order std gives `str` and `String`.
pub open spec fn text_key(s: Seq<char>) -> Seq<int> {
    byte_key(encode_utf8(s))
}

/// Sequences that agree on their first `n` elements compare as their rests do.
proof fn lemma_lex_common_prefix(a: Seq<int>, b: Seq<int>, n: int)
    requires
        0 <= n <= a.len(),
        n <= b.len(),
        forall|j: int| 0 <= j < n ==> a[j] == b[j],
    ensures
        lex_order(a, b) == lex_order(a.skip(n), b.skip(n)),
    decreases n,
{
    if n == 0 {
        assert(a.skip(0) =~= a);
        assert(b.skip(0) =~= b);
    } else {
        lemma_lex_common_prefix(a.drop_first(), b.drop_first(), n - 1);
        assert(a.drop_first().skip(n - 1) =~= a.skip(n));
        assert(b.drop_first().skip(n - 1) =~= b.skip(n));
    }
}

/// The length of the longest common prefix of two byte slices.
fn common_prefix_len(x: &[u8], y: &[u8]) -> (n: usize)
    ensures
        n <= x@.len(),
        n <= y@.len(),
        forall|j: int| 0 <= j < n ==> x@[j] == y@[j],
        n < x@.len() && n < y@.len() ==> x@[n as int] != y@[n as int],
{
    let mut i: usize = 0;
    while i < x.len() && i < y.len() && x[i] == y[i]
        invariant
            i <= x@.len(),
            i <= y@.len(),
            forall|j: int| 0 <= j < i ==> x@[j] == y@[j],
        decreases x.len() - i,
    {
        i = i + 1;
    }
    i
}

/// Compares two texts byte by byte.
pub fn compare_text(a: &str, b: &str) -> (r: Ordering)
    ensures
        r == lex_order(text_key(a@), text_key(b@)),
{
    let x = a.as_bytes();
    let y = b.as_bytes();
    let n = common_prefix_len(x, y);
    let ghost ka = byte_key(x@);
    let ghost kb = byte_key(y@);
    proof {
        lemma_lex_common_prefix(ka, kb, int_of(n));
    }
    if n < x.len() && n < y.len() {
        assert(ka.skip(int_of(n))[0] == ka[int_of(n)]);
        assert(kb.skip(int_of(n))[0] == kb[int_of(n)]);
        if x[n] < y[n] {
            Ordering::Less
        } else {
            Ordering::Greater
        }
    } else if x.len() == y.len() {
        assert(ka.skip(int_of(n)).len() == 0);
        Ordering::Equal
    } else if n == x.len() {
        Ordering::Less
    } else {
        Ordering::Greater
    }
}

/// ASCII lower-casing of one byte; other bytes are unchanged.
pub open spec fn ascii_lower(b: u8) -> u8 {
    if 65 <= b <= 90 {
        (b + 32) as u8
    } else {
        b
    }
}

/// Two texts match ignoring ASCII case: their UTF-8 bytes, with ASCII
/// letters lower-cased, are equal.
pub open spec fn same_ignoring_ascii_case(a: Seq<char>, b: Seq<char>) -> bool {
    encode_utf8(a).map_values(|c: u8| ascii_lower(c)) == encode_utf8(b).map_values(
        |c: u8| ascii_lower(c),
    )
}

fn lower_byte(b: u8) -> (r: u8)
    ensures
        r == ascii_lower(b),
{
    if 65 <= b && b <= 90 {
        b + 32
    } else {
        b
    }
}

/// Whether two texts are equal ignoring ASCII case.
pub fn eq_ignore_ascii_case(a: &str, b: &str) -> (r: bool)
    ensures
        r == same_ignoring_ascii_case(a@, b@),
{
    let x = a.as_bytes();
    let y = b.as_bytes();
    let ghost la = x@.map_values(|c: u8| ascii_lower(c));
    let ghost lb = y@.map_values(|c: u8| ascii_lower(c));
    if x.len() != y.len() {
        assert(la.len() != lb.len());
        return false;
    }
    let mut i: usize = 0;
    while i < x.len()
        invariant
            0 <= i <= x@.len(),
            x@.len() == y@.len(),
            la == x@.map_values(|c: u8| ascii_lower(c)),
            lb == y@.map_values(|c: u8| ascii_lower(c)),
            x@ == a.spec_bytes(),
            y@ == b.spec_bytes(),
            forall|j: int| 0 <= j < i ==> la[j] == lb[j],
        decreases x.len() - i,
    {
        if lower_byte(x[i]) != lower_byte(y[i]) {
            assert(la[i as int] != lb[i as int]);
            return false;
        }
        i = i + 1;
    }
    assert(la =~= lb);
    true
}

} // verus!
