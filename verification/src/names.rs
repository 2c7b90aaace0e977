//! Names and how they are ordered.
//!
//! A name is a string; in contracts it is the sequence of its characters.
//! Names are ordered as their UTF-8 encodings are, byte by byte.

use vstd::prelude::*;
use vstd::string::*;
use vstd::utf8::*;

verus! {

/// How one name stands to another in the order of names.
#[derive(Copy, Clone, Debug, PartialEq, Eq, Structural)]
pub enum Order {
    Less,
    Equal,
    Greater,
}

/// Whether what `a` holds from position `i` on comes before what `b` holds
/// from position `i` on, in lexicographic order.
pub open spec fn lt_from(a: Seq<u8>, b: Seq<u8>, i: int) -> bool
    decreases a.len() - i,
{
    if i < 0 || i >= b.len() {
        false
    } else if i >= a.len() {
        true
    } else if a[i] != b[i] {
        a[i] < b[i]
    } else {
        lt_from(a, b, i + 1)
    }
}

/// Lexicographic order on byte strings: `a` comes strictly before `b`.
pub open spec fn bytes_lt(a: Seq<u8>, b: Seq<u8>) -> bool {
    lt_from(a, b, 0)
}

/// The order of names: `a` comes strictly before `b`.
pub open spec fn name_lt(a: Seq<char>, b: Seq<char>) -> bool {
    bytes_lt(encode_utf8(a), encode_utf8(b))
}

/// The order of pairs of names: by the first name, then by the second.
pub open spec fn pair_lt(a: (Seq<char>, Seq<char>), b: (Seq<char>, Seq<char>)) -> bool {
    name_lt(a.0, b.0) || (a.0 == b.0 && name_lt(a.1, b.1))
}

/// The names that a vector of strings holds, in its order.
pub open spec fn names_of(v: Seq<String>) -> Seq<Seq<char>> {
    Seq::new(v.len(), |i: int| v[i]@)
}

/// The pairs of names that a vector of pairs of strings holds, in its order.
pub open spec fn pairs_of(v: Seq<(String, String)>) -> Seq<(Seq<char>, Seq<char>)> {
    Seq::new(v.len(), |i: int| (v[i].0@, v[i].1@))
}

/// Whether the names stand in strictly ascending order.
pub open spec fn ascending(s: Seq<Seq<char>>) -> bool {
    forall|i: int, j: int| 0 <= i < j < s.len() ==> name_lt(#[trigger] s[i], #[trigger] s[j])
}

/// Whether the pairs stand in strictly ascending order.
pub open spec fn ascending_pairs(s: Seq<(Seq<char>, Seq<char>)>) -> bool {
    forall|i: int, j: int| 0 <= i < j < s.len() ==> pair_lt(#[trigger] s[i], #[trigger] s[j])
}

proof fn lemma_lt_from_irreflexive(a: Seq<u8>, i: int)
    ensures
        !lt_from(a, a, i),
    decreases a.len() - i,
{
    if 0 <= i < a.len() {
        lemma_lt_from_irreflexive(a, i + 1);
    }
}

proof fn lemma_lt_from_transitive(a: Seq<u8>, b: Seq<u8>, c: Seq<u8>, i: int)
    requires
        lt_from(a, b, i),
        lt_from(b, c, i),
    ensures
        lt_from(a, c, i),
    decreases a.len() - i,
{
    if i < a.len() && a[i] == b[i] && b[i] == c[i] {
        lemma_lt_from_transitive(a, b, c, i + 1);
    }
}

proof fn lemma_lt_from_prefix(a: Seq<u8>, b: Seq<u8>, i: int)
    requires
        0 <= i <= a.len(),
        i <= b.len(),
        forall|k: int| 0 <= k < i ==> a[k] == b[k],
    ensures
        lt_from(a, b, 0) == lt_from(a, b, i),
    decreases i,
{
    if i > 0 {
        lemma_lt_from_prefix(a, b, i - 1);
    }
}

/// No name comes before itself.
pub proof fn lemma_name_lt_irreflexive(a: Seq<char>)
    ensures
        !name_lt(a, a),
{
    lemma_lt_from_irreflexive(encode_utf8(a), 0);
}

/// The order of names is transitive.
pub proof fn lemma_name_lt_transitive(a: Seq<char>, b: Seq<char>, c: Seq<char>)
    requires
        name_lt(a, b),
        name_lt(b, c),
    ensures
        name_lt(a, c),
{
    lemma_lt_from_transitive(encode_utf8(a), encode_utf8(b), encode_utf8(c), 0);
}

/// No name comes both before and after another.
pub proof fn lemma_name_lt_asymmetric(a: Seq<char>, b: Seq<char>)
    requires
        name_lt(a, b),
    ensures
        !name_lt(b, a),
        a != b,
{
    lemma_name_lt_irreflexive(a);
    if name_lt(b, a) {
        lemma_name_lt_transitive(a, b, a);
    }
}

/// The order of pairs is transitive.
pub proof fn lemma_pair_lt_transitive(
    a: (Seq<char>, Seq<char>),
    b: (Seq<char>, Seq<char>),
    c: (Seq<char>, Seq<char>),
)
    requires
        pair_lt(a, b),
        pair_lt(b, c),
    ensures
        pair_lt(a, c),
{
    if name_lt(a.0, b.0) && name_lt(b.0, c.0) {
        lemma_name_lt_transitive(a.0, b.0, c.0);
    }
    lemma_name_lt_irreflexive(a.0);
    lemma_name_lt_irreflexive(b.0);
    if a.0 == b.0 && b.0 == c.0 {
        lemma_name_lt_transitive(a.1, b.1, c.1);
    }
}

/// No pair comes both before and after another.
pub proof fn lemma_pair_lt_asymmetric(a: (Seq<char>, Seq<char>), b: (Seq<char>, Seq<char>))
    requires
        pair_lt(a, b),
    ensures
        !pair_lt(b, a),
        a != b,
{
    lemma_name_lt_irreflexive(a.0);
    lemma_name_lt_irreflexive(a.1);
    if name_lt(a.0, b.0) {
        lemma_name_lt_asymmetric(a.0, b.0);
    } else {
        lemma_name_lt_asymmetric(a.1, b.1);
    }
}

/// `String::from_utf8` of std: the string that the bytes encode, where they
/// are UTF-8, and nothing where they are not.
#[verifier::external_body]
pub(crate) fn string_from_utf8(bytes: Vec<u8>) -> (r: Option<String>)
    ensures
        r is Some <==> valid_utf8(bytes@),
        r matches Some(s) ==> s@ == decode_utf8(bytes@),
{
    match String::from_utf8(bytes) {
        Ok(s) => Some(s),
        Err(_) => None,
    }
}

/// Compares two names.
pub fn compare(a: &str, b: &str) -> (r: Order)
    ensures
        r == Order::Less <==> name_lt(a@, b@),
        r == Order::Equal <==> a@ == b@,
        r == Order::Greater <==> name_lt(b@, a@),
{
    let x = a.as_bytes();
    let y = b.as_bytes();
    let n = x.len();
    let m = y.len();
    let mut i: usize = 0;
    while i < n && i < m
        invariant
            i <= n,
            i <= m,
            n == x@.len(),
            m == y@.len(),
            x@ == encode_utf8(a@),
            y@ == encode_utf8(b@),
            forall|k: int| 0 <= k < i ==> x@[k] == y@[k],
        decreases n - i,
    {
        if x[i] < y[i] {
            proof {
                lemma_lt_from_prefix(x@, y@, i as int);
                lemma_name_lt_asymmetric(a@, b@);
            }
            return Order::Less;
        }
        if x[i] > y[i] {
            proof {
                lemma_lt_from_prefix(y@, x@, i as int);
                lemma_name_lt_asymmetric(b@, a@);
            }
            return Order::Greater;
        }
        i += 1;
    }
    proof {
        lemma_lt_from_prefix(x@, y@, i as int);
        lemma_lt_from_prefix(y@, x@, i as int);
        lemma_name_lt_irreflexive(a@);
        if name_lt(a@, b@) {
            lemma_name_lt_asymmetric(a@, b@);
        }
        if name_lt(b@, a@) {
            lemma_name_lt_asymmetric(b@, a@);
        }
    }
    if n < m {
        Order::Less
    } else if n > m {
        Order::Greater
    } else {
        proof {
            assert(x@ =~= y@);
            encode_utf8_decode_utf8(a@);
            encode_utf8_decode_utf8(b@);
        }
        Order::Equal
    }
}

/// Whether two names are the same.
pub fn same_name(a: &str, b: &str) -> (r: bool)
    ensures
        r == (a@ == b@),
{
    match compare(a, b) {
        Order::Equal => true,
        _ => false,
    }
}

/// Compares two pairs of names.
pub fn compare_pairs(a0: &str, a1: &str, b0: &str, b1: &str) -> (r: Order)
    ensures
        r == Order::Less <==> pair_lt((a0@, a1@), (b0@, b1@)),
        r == Order::Equal <==> (a0@, a1@) == (b0@, b1@),
        r == Order::Greater <==> pair_lt((b0@, b1@), (a0@, a1@)),
{
    proof {
        lemma_name_lt_irreflexive(a0@);
        if name_lt(a0@, b0@) {
            lemma_name_lt_asymmetric(a0@, b0@);
        }
        if name_lt(b0@, a0@) {
            lemma_name_lt_asymmetric(b0@, a0@);
        }
    }
    match compare(a0, b0) {
        Order::Less => Order::Less,
        Order::Greater => Order::Greater,
        Order::Equal => compare(a1, b1),
    }
}

} // verus!
