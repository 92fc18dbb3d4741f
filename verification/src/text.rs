//! Ordering of addresses.
//!
//! Addresses are strings. They are ordered by their UTF-8 bytes, lexicographically,
//! which is the order in which a byte-keyed store walks them.

use vstd::prelude::*;
use vstd::utf8::*;

verus! {

/// `k` is the first position at which `a` and `b` part, and `a` comes first there:
/// either `a` ends at `k` and `b` goes on, or both go on and `a` holds the smaller byte.
pub open spec fn parts_at(a: Seq<u8>, b: Seq<u8>, k: int) -> bool {
    &&& 0 <= k <= a.len()
    &&& k <= b.len()
    &&& forall|j: int| 0 <= j < k ==> a[j] == b[j]
    &&& (k == a.len() && k < b.len()) || (k < a.len() && k < b.len() && a[k] < b[k])
}

/// Strict lexicographic order on byte strings.
pub open spec fn bytes_before(a: Seq<u8>, b: Seq<u8>) -> bool {
    exists|k: int| parts_at(a, b, k)
}

/// Strict order on addresses: the lexicographic order of their UTF-8 bytes.
pub open spec fn addr_before(a: Seq<char>, b: Seq<char>) -> bool {
    bytes_before(encode_utf8(a), encode_utf8(b))
}

/// How one key stands to another.
#[derive(Clone, Copy, Debug, PartialEq, Eq)]
pub enum Side {
    Before,
    Same,
    After,
}

/// No byte string comes before itself.
pub proof fn lemma_bytes_before_irreflexive(a: Seq<u8>)
    ensures
        !bytes_before(a, a),
{
}

/// The order on byte strings is transitive.
pub proof fn lemma_bytes_before_transitive(a: Seq<u8>, b: Seq<u8>, c: Seq<u8>)
    requires
        bytes_before(a, b),
        bytes_before(b, c),
    ensures
        bytes_before(a, c),
{
    let k1 = choose|k: int| parts_at(a, b, k);
    let k2 = choose|k: int| parts_at(b, c, k);
    let k = if k1 <= k2 { k1 } else { k2 };
    assert(parts_at(a, c, k));
}

/// Of two byte strings at most one comes before the other.
pub proof fn lemma_bytes_before_asymmetric(a: Seq<u8>, b: Seq<u8>)
    requires
        bytes_before(a, b),
    ensures
        !bytes_before(b, a),
{
    if bytes_before(b, a) {
        lemma_bytes_before_transitive(a, b, a);
        lemma_bytes_before_irreflexive(a);
    }
}

/// Two different byte strings are ordered one way or the other.
pub proof fn lemma_bytes_before_total(a: Seq<u8>, b: Seq<u8>)
    ensures
        a == b || bytes_before(a, b) || bytes_before(b, a),
{
    lemma_parts_from(a, b, 0);
}

proof fn lemma_parts_from(a: Seq<u8>, b: Seq<u8>, k: int)
    requires
        0 <= k <= a.len(),
        k <= b.len(),
        forall|j: int| 0 <= j < k ==> a[j] == b[j],
    ensures
        a == b || bytes_before(a, b) || bytes_before(b, a),
    decreases a.len() - k,
{
    if k == a.len() && k == b.len() {
        assert(a =~= b);
    } else if k == a.len() || k == b.len() {
        assert(parts_at(a, b, k) || parts_at(b, a, k));
    } else if a[k] == b[k] {
        lemma_parts_from(a, b, k + 1);
    } else {
        assert(parts_at(a, b, k) || parts_at(b, a, k));
    }
}

/// No address comes before itself.
pub proof fn lemma_addr_before_irreflexive(a: Seq<char>)
    ensures
        !addr_before(a, a),
{
    lemma_bytes_before_irreflexive(encode_utf8(a));
}

/// The order on addresses is transitive.
pub proof fn lemma_addr_before_transitive(a: Seq<char>, b: Seq<char>, c: Seq<char>)
    requires
        addr_before(a, b),
        addr_before(b, c),
    ensures
        addr_before(a, c),
{
    lemma_bytes_before_transitive(encode_utf8(a), encode_utf8(b), encode_utf8(c));
}

/// Of two addresses at most one comes before the other.
pub proof fn lemma_addr_before_asymmetric(a: Seq<char>, b: Seq<char>)
    requires
        addr_before(a, b),
    ensures
        !addr_before(b, a),
{
    lemma_bytes_before_asymmetric(encode_utf8(a), encode_utf8(b));
}

/// Two different addresses are ordered one way or the other.
pub proof fn lemma_addr_before_total(a: Seq<char>, b: Seq<char>)
    ensures
        a == b || addr_before(a, b) || addr_before(b, a),
{
    lemma_bytes_before_total(encode_utf8(a), encode_utf8(b));
    if encode_utf8(a) == encode_utf8(b) {
        encode_utf8_decode_utf8(a);
        encode_utf8_decode_utf8(b);
    }
}

/// Compares two byte strings lexicographically.
pub fn side_of_bytes(a: &[u8], b: &[u8]) -> (r: Side)
    ensures
        r == Side::Before ==> bytes_before(a@, b@),
        r == Side::Same ==> a@ == b@,
        r == Side::After ==> bytes_before(b@, a@),
{
    let mut i: usize = 0;
    while i < a.len() && i < b.len()
        invariant
            i <= a.len(),
            i <= b.len(),
            forall|j: int| 0 <= j < i ==> a@[j] == b@[j],
        decreases a.len() - i,
    {
        if a[i] < b[i] {
            assert(parts_at(a@, b@, i as int));
            return Side::Before;
        }
        if a[i] > b[i] {
            assert(parts_at(b@, a@, i as int));
            return Side::After;
        }
        i = i + 1;
    }
    if i < b.len() {
        assert(parts_at(a@, b@, i as int));
        Side::Before
    } else if i < a.len() {
        assert(parts_at(b@, a@, i as int));
        Side::After
    } else {
        assert(a@ =~= b@);
        Side::Same
    }
}

/// Compares two addresses in address order.
pub fn side_of(a: &String, b: &String) -> (r: Side)
    ensures
        r == Side::Before <==> addr_before(a@, b@),
        r == Side::Same <==> a@ == b@,
        r == Side::After <==> addr_before(b@, a@),
{
    let r = side_of_bytes(a.as_str().as_bytes(), b.as_str().as_bytes());
    proof {
        encode_utf8_decode_utf8(a@);
        encode_utf8_decode_utf8(b@);
        lemma_addr_before_irreflexive(a@);
        if addr_before(a@, b@) {
            lemma_addr_before_asymmetric(a@, b@);
        }
        if addr_before(b@, a@) {
            lemma_addr_before_asymmetric(b@, a@);
        }
    }
    r
}

} // verus!
