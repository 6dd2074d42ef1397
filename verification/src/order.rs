//! The order of strings: lexicographic by their UTF-8 bytes.

use vstd::prelude::*;

verus! {

/// `a` and `b` agree on their first `n` bytes.
pub open spec fn agree(a: Seq<u8>, b: Seq<u8>, n: int) -> bool {
    &&& 0 <= n <= a.len()
    &&& n <= b.len()
    &&& forall|i: int| 0 <= i < n ==> a[i] == b[i]
}

/// `a` comes before `b` in a dictionary of byte strings: behind a common prefix, either `a`
/// ends and `b` goes on, or the next byte of `a` is the smaller one.
pub open spec fn bytes_lt(a: Seq<u8>, b: Seq<u8>) -> bool {
    exists|n: int| #[trigger] agree(a, b, n) && n < b.len() && (n == a.len() || a[n] < b[n])
}

/// The string `a` is ordered before the string `b`.
#[verifier::opaque]
pub open spec fn str_lt(a: Seq<char>, b: Seq<char>) -> bool {
    bytes_lt(vstd::utf8::encode_utf8(a), vstd::utf8::encode_utf8(b))
}

/// The string `a` is ordered before the string `b`, or is the same.
pub open spec fn str_le(a: Seq<char>, b: Seq<char>) -> bool {
    a == b || str_lt(a, b)
}

/// No string is before itself.
pub proof fn lemma_lt_irreflexive(a: Seq<char>)
    ensures
        !str_lt(a, a),
{
    reveal(str_lt);
}

/// The order is transitive.
pub proof fn lemma_lt_transitive(a: Seq<char>, b: Seq<char>, c: Seq<char>)
    requires
        str_lt(a, b),
        str_lt(b, c),
    ensures
        str_lt(a, c),
{
    reveal(str_lt);
    let (x, y, z) = (vstd::utf8::encode_utf8(a), vstd::utf8::encode_utf8(b), vstd::utf8::encode_utf8(c));
    let n = choose|n: int| #[trigger] agree(x, y, n) && n < y.len() && (n == x.len() || x[n] < y[n]);
    let m = choose|m: int| #[trigger] agree(y, z, m) && m < z.len() && (m == y.len() || y[m] < z[m]);
    let k = if n < m { n } else { m };
    assert(agree(x, z, k));
}

/// Of two strings one is before the other, unless they are the same.
pub proof fn lemma_lt_total(a: Seq<char>, b: Seq<char>)
    ensures
        a == b || str_lt(a, b) || str_lt(b, a),
{
    reveal(str_lt);
    let (x, y) = (vstd::utf8::encode_utf8(a), vstd::utf8::encode_utf8(b));
    let n = first_difference(x, y, 0);
    assert(agree(y, x, n));
    if n == x.len() && n == y.len() {
        assert(x =~= y);
        vstd::utf8::encode_utf8_decode_utf8(a);
        vstd::utf8::encode_utf8_decode_utf8(b);
    }
}

/// Of two strings at most one is before the other, and then they differ.
pub proof fn lemma_lt_asymmetric(a: Seq<char>, b: Seq<char>)
    requires
        str_lt(a, b),
    ensures
        a != b,
        !str_lt(b, a),
{
    lemma_lt_irreflexive(a);
    if str_lt(b, a) {
        lemma_lt_transitive(a, b, a);
    }
}

/// The length of the longest common prefix, searched from a common prefix of length `n` on.
proof fn first_difference(x: Seq<u8>, y: Seq<u8>, n: int) -> (m: int)
    requires
        agree(x, y, n),
    ensures
        agree(x, y, m),
        m == x.len() || m == y.len() || x[m] != y[m],
    decreases x.len() - n,
{
    if n < x.len() && n < y.len() && x[n] == y[n] {
        first_difference(x, y, n + 1)
    } else {
        n
    }
}

/// How one string stands to another in the order.
pub enum Relation {
    Before,
    Same,
    After,
}

/// Finds how `a` stands to `b` in the order of strings.
pub fn relate(a: &str, b: &str) -> (r: Relation)
    ensures
        r is Before <==> str_lt(a@, b@),
        r is Same <==> a@ == b@,
        r is After <==> str_lt(b@, a@),
{
    let x = a.as_bytes();
    let y = b.as_bytes();
    proof {
        reveal(str_lt);
        if str_lt(a@, b@) {
            lemma_lt_asymmetric(a@, b@);
        }
        if str_lt(b@, a@) {
            lemma_lt_asymmetric(b@, a@);
        }
    }
    let mut n: usize = 0;
    while n < x.len() && n < y.len() && x[n] == y[n]
        invariant
            agree(x@, y@, n as int),
            x@ == vstd::utf8::encode_utf8(a@),
            y@ == vstd::utf8::encode_utf8(b@),
        decreases x.len() - n,
    {
        n += 1;
    }
    assert(agree(y@, x@, n as int));
    if n == x.len() && n == y.len() {
        proof {
            assert(x@ =~= y@);
            vstd::utf8::encode_utf8_decode_utf8(a@);
            vstd::utf8::encode_utf8_decode_utf8(b@);
        }
        Relation::Same
    } else if n == x.len() || (n < y.len() && x[n] < y[n]) {
        assert(str_lt(a@, b@));
        Relation::Before
    } else {
        assert(str_lt(b@, a@));
        Relation::After
    }
}

/// Tells whether two strings are the same.
pub fn same(a: &str, b: &str) -> (r: bool)
    ensures
        r == (a@ == b@),
{
    match relate(a, b) {
        Relation::Same => true,
        _ => false,
    }
}

} // verus!
