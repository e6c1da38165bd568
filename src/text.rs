//! Text helpers: byte-wise lexicographic order of strings (the order `String`
//! itself uses) and the `_requirement` name marker.
use vstd::prelude::*;

verus! {

/// Bytes of a string as stored (its UTF-8 encoding).
pub open spec fn bytes_of(s: Seq<char>) -> Seq<u8> {
    vstd::utf8::encode_utf8(s)
}

/// Strict lexicographic order on byte sequences.
pub open spec fn lex_lt(a: Seq<u8>, b: Seq<u8>) -> bool
    decreases a.len(),
{
    if b.len() == 0 {
        false
    } else if a.len() == 0 {
        true
    } else if a[0] != b[0] {
        a[0] < b[0]
    } else {
        lex_lt(a.drop_first(), b.drop_first())
    }
}

/// Strict lexicographic order on strings, by their bytes.
pub open spec fn str_lt(a: Seq<char>, b: Seq<char>) -> bool {
    lex_lt(bytes_of(a), bytes_of(b))
}

pub proof fn lemma_lex_irreflexive(a: Seq<u8>)
    ensures
        !lex_lt(a, a),
    decreases a.len(),
{
    if a.len() > 0 {
        lemma_lex_irreflexive(a.drop_first());
    }
}

pub proof fn lemma_lex_transitive(a: Seq<u8>, b: Seq<u8>, c: Seq<u8>)
    requires
        lex_lt(a, b),
        lex_lt(b, c),
    ensures
        lex_lt(a, c),
    decreases a.len(),
{
    if a.len() > 0 && a[0] == b[0] && b[0] == c[0] {
        lemma_lex_transitive(a.drop_first(), b.drop_first(), c.drop_first());
    }
}

pub proof fn lemma_lex_total(a: Seq<u8>, b: Seq<u8>)
    ensures
        a =~= b || lex_lt(a, b) || lex_lt(b, a),
    decreases a.len(),
{
    if a.len() > 0 && b.len() > 0 && a[0] == b[0] {
        lemma_lex_total(a.drop_first(), b.drop_first());
        if a.drop_first() =~= b.drop_first() {
            assert(a =~= seq![a[0]] + a.drop_first());
            assert(b =~= seq![b[0]] + b.drop_first());
        }
    }
}

/// Two strings with the same bytes are the same string.
pub proof fn lemma_bytes_injective(a: Seq<char>, b: Seq<char>)
    requires
        bytes_of(a) =~= bytes_of(b),
    ensures
        a == b,
{
    vstd::utf8::encode_utf8_decode_utf8(a);
    vstd::utf8::encode_utf8_decode_utf8(b);
}

/// Two distinct strings are ordered one way or the other.
pub proof fn lemma_str_total(a: Seq<char>, b: Seq<char>)
    ensures
        a == b || str_lt(a, b) || str_lt(b, a),
{
    lemma_lex_total(bytes_of(a), bytes_of(b));
    if bytes_of(a) =~= bytes_of(b) {
        lemma_bytes_injective(a, b);
    }
}

proof fn lemma_lex_suffix(a: Seq<u8>, b: Seq<u8>, i: int)
    requires
        0 <= i < a.len(),
        i < b.len(),
        a[i] == b[i],
    ensures
        lex_lt(a.subrange(i, a.len() as int), b.subrange(i, b.len() as int)) == lex_lt(
            a.subrange(i + 1, a.len() as int),
            b.subrange(i + 1, b.len() as int),
        ),
{
    assert(a.subrange(i, a.len() as int).drop_first() =~= a.subrange(i + 1, a.len() as int));
    assert(b.subrange(i, b.len() as int).drop_first() =~= b.subrange(i + 1, b.len() as int));
}

/// Whether `a` comes strictly before `b` in byte-wise lexicographic order.
pub fn str_less(a: &str, b: &str) -> (r: bool)
    ensures
        r == str_lt(a@, b@),
{
    let x = a.as_bytes();
    let y = b.as_bytes();
    let n = x.len();
    let m = y.len();
    let mut i: usize = 0;
    assert(x@.subrange(0, n as int) =~= x@);
    assert(y@.subrange(0, m as int) =~= y@);
    while i < n && i < m
        invariant
            x@ == bytes_of(a@),
            y@ == bytes_of(b@),
            n == x@.len(),
            m == y@.len(),
            i <= n,
            i <= m,
            lex_lt(x@, y@) == lex_lt(x@.subrange(i as int, n as int), y@.subrange(i as int, m as int)),
        decreases n - i,
    {
        if x[i] != y[i] {
            return x[i] < y[i];
        }
        proof {
            lemma_lex_suffix(x@, y@, i as int);
        }
        i = i + 1;
    }
    i < m
}

/// Bytes of the marker that names a level requirement.
pub open spec fn requirement_marker() -> Seq<u8> {
    seq![95u8, 114u8, 101u8, 113u8, 117u8, 105u8, 114u8, 101u8, 109u8, 101u8, 110u8, 116u8]
}

/// Whether `bytes` holds `pat` starting at `at`.
pub open spec fn occurs_at(bytes: Seq<u8>, pat: Seq<u8>, at: int) -> bool {
    0 <= at && at + pat.len() <= bytes.len() && bytes.subrange(at, at + pat.len()) == pat
}

/// Whether an attribute name contains `_requirement`: such an attribute is the
/// minimum level to use an item and always holds the item's level.
pub open spec fn is_requirement(name: Seq<char>) -> bool {
    exists|at: int| occurs_at(bytes_of(name), requirement_marker(), at)
}

fn marker_bytes() -> (r: Vec<u8>)
    ensures
        r@ == requirement_marker(),
{
    let r: Vec<u8> = vec![95u8, 114u8, 101u8, 113u8, 117u8, 105u8, 114u8, 101u8, 109u8, 101u8, 110u8, 116u8];
    assert(r@ =~= requirement_marker());
    r
}

fn matches_at(x: &[u8], p: &Vec<u8>, at: usize) -> (r: bool)
    requires
        at + p@.len() <= x@.len(),
    ensures
        r == (x@.subrange(at as int, at + p@.len()) == p@),
{
    let n = x.len();
    let mut j: usize = 0;
    while j < p.len()
        invariant
            at + p@.len() <= x@.len(),
            n == x@.len(),
            j <= p@.len(),
            forall|k: int| 0 <= k < j ==> x@[at + k] == p@[k],
        decreases p@.len() - j,
    {
        if x[at + j] != p[j] {
            assert(x@.subrange(at as int, at + p@.len())[j as int] != p@[j as int]);
            return false;
        }
        j = j + 1;
    }
    assert(x@.subrange(at as int, at + p@.len()) =~= p@);
    true
}

/// Whether `name` contains the `_requirement` marker.
pub fn contains_requirement(name: &str) -> (r: bool)
    ensures
        r == is_requirement(name@),
{
    let x = name.as_bytes();
    let p = marker_bytes();
    let n = x.len();
    let pl = p.len();
    if n < pl {
        return false;
    }
    let mut at: usize = 0;
    while at <= n - pl
        invariant
            x@ == bytes_of(name@),
            p@ == requirement_marker(),
            n == x@.len(),
            pl == p@.len(),
            pl <= n,
            at <= n - pl + 1,
            forall|k: int| 0 <= k < at ==> !occurs_at(x@, p@, k),
        decreases n + 1 - at,
    {
        if matches_at(x, &p, at) {
            assert(occurs_at(x@, p@, at as int));
            return true;
        }
        at = at + 1;
    }
    assert forall|k: int| !occurs_at(x@, p@, k) by {
        if 0 <= k < at {
        }
    }
    false
}

} // verus!
