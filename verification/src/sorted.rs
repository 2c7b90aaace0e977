//! Sets of names, and of pairs of names, kept as vectors in strictly
//! ascending order.

use crate::names::{
    ascending, ascending_pairs, compare, compare_pairs, lemma_name_lt_asymmetric,
    lemma_name_lt_transitive, lemma_pair_lt_asymmetric, lemma_pair_lt_transitive, name_lt,
    names_of, pair_lt, pairs_of, Order,
};
use vstd::prelude::*;
use vstd::string::*;

verus! {

/// Whether `i` is where `x` stands or would have to stand in the ascending
/// sequence `s`: what is before `i` comes before `x`, and what is after
/// comes after.
pub open spec fn place_of(s: Seq<Seq<char>>, x: Seq<char>, i: int) -> bool {
    &&& 0 <= i <= s.len()
    &&& forall|k: int| 0 <= k < i ==> name_lt(#[trigger] s[k], x)
    &&& forall|k: int| i <= k < s.len() && #[trigger] s[k] != x ==> name_lt(x, s[k])
}

/// Whether `i` is where `x` stands or would have to stand in the ascending
/// sequence of pairs `s`.
pub open spec fn place_of_pair(
    s: Seq<(Seq<char>, Seq<char>)>,
    x: (Seq<char>, Seq<char>),
    i: int,
) -> bool {
    &&& 0 <= i <= s.len()
    &&& forall|k: int| 0 <= k < i ==> pair_lt(#[trigger] s[k], x)
    &&& forall|k: int| i <= k < s.len() && #[trigger] s[k] != x ==> pair_lt(x, s[k])
}

/// In an ascending sequence a name stands at one place at most, and a name
/// that has a place but does not stand there stands nowhere.
pub proof fn lemma_place(s: Seq<Seq<char>>, x: Seq<char>, i: int)
    requires
        ascending(s),
        place_of(s, x, i),
    ensures
        s.contains(x) <==> (i < s.len() && s[i] == x),
        forall|k: int| 0 <= k < s.len() && s[k] == x ==> k == i,
{
    assert forall|k: int| 0 <= k < s.len() && s[k] == x implies k == i by {
        if k < i {
            lemma_name_lt_asymmetric(s[k], x);
        } else if k > i {
            if s[i] == x {
                lemma_name_lt_asymmetric(s[i], s[k]);
            } else {
                lemma_name_lt_transitive(x, s[i], s[k]);
                lemma_name_lt_asymmetric(x, s[k]);
            }
        }
    }
}

/// The same for pairs.
pub proof fn lemma_place_pair(s: Seq<(Seq<char>, Seq<char>)>, x: (Seq<char>, Seq<char>), i: int)
    requires
        ascending_pairs(s),
        place_of_pair(s, x, i),
    ensures
        s.contains(x) <==> (i < s.len() && s[i] == x),
        forall|k: int| 0 <= k < s.len() && s[k] == x ==> k == i,
{
    assert forall|k: int| 0 <= k < s.len() && s[k] == x implies k == i by {
        if k < i {
            lemma_pair_lt_asymmetric(s[k], x);
        } else if k > i {
            if s[i] == x {
                lemma_pair_lt_asymmetric(s[i], s[k]);
            } else {
                lemma_pair_lt_transitive(x, s[i], s[k]);
                lemma_pair_lt_asymmetric(x, s[k]);
            }
        }
    }
}

/// Looks a name up in an ascending vector: whether it stands there, and the
/// place where it stands or would have to stand.
pub fn find_name(v: &Vec<String>, name: &str) -> (r: (bool, usize))
    requires
        ascending(names_of(v@)),
    ensures
        place_of(names_of(v@), name@, r.1 as int),
        r.0 == names_of(v@).contains(name@),
        r.0 ==> r.1 < v@.len() && v@[r.1 as int]@ == name@,
{
    let ghost s = names_of(v@);
    let mut lo: usize = 0;
    let mut hi: usize = v.len();
    while lo < hi
        invariant
            0 <= lo <= hi <= v@.len(),
            s == names_of(v@),
            ascending(s),
            forall|k: int| 0 <= k < lo ==> name_lt(#[trigger] s[k], name@),
            forall|k: int| hi <= k < s.len() ==> name_lt(name@, #[trigger] s[k]),
        decreases hi - lo,
    {
        let mid = lo + (hi - lo) / 2;
        assert(s[mid as int] == v@[mid as int]@);
        match compare(v[mid].as_str(), name) {
            Order::Equal => {
                proof {
                    assert forall|k: int| 0 <= k < mid implies name_lt(#[trigger] s[k], name@) by {}
                    assert forall|k: int| mid <= k < s.len() && #[trigger] s[k] != name@ implies name_lt(
                        name@,
                        s[k],
                    ) by {}
                    lemma_place(s, name@, mid as int);
                }
                return (true, mid);
            },
            Order::Less => {
                proof {
                    assert forall|k: int| 0 <= k < mid + 1 implies name_lt(
                        #[trigger] s[k],
                        name@,
                    ) by {
                        if k < mid {
                            lemma_name_lt_transitive(s[k], s[mid as int], name@);
                        }
                    }
                }
                lo = mid + 1;
            },
            Order::Greater => {
                proof {
                    assert forall|k: int| mid <= k < s.len() implies name_lt(
                        name@,
                        #[trigger] s[k],
                    ) by {
                        if k > mid {
                            lemma_name_lt_transitive(name@, s[mid as int], s[k]);
                        }
                    }
                }
                hi = mid;
            },
        }
    }
    proof {
        lemma_place(s, name@, lo as int);
        if lo < s.len() {
            lemma_name_lt_asymmetric(name@, s[lo as int]);
        }
    }
    (false, lo)
}

/// Looks a pair up in an ascending vector of pairs: whether it stands there,
/// and the place where it stands or would have to stand.
pub fn find_pair(v: &Vec<(String, String)>, first: &str, second: &str) -> (r: (bool, usize))
    requires
        ascending_pairs(pairs_of(v@)),
    ensures
        place_of_pair(pairs_of(v@), (first@, second@), r.1 as int),
        r.0 == pairs_of(v@).contains((first@, second@)),
        r.0 ==> r.1 < v@.len() && pairs_of(v@)[r.1 as int] == (first@, second@),
{
    let ghost s = pairs_of(v@);
    let ghost x = (first@, second@);
    let mut lo: usize = 0;
    let mut hi: usize = v.len();
    while lo < hi
        invariant
            0 <= lo <= hi <= v@.len(),
            s == pairs_of(v@),
            x == (first@, second@),
            ascending_pairs(s),
            forall|k: int| 0 <= k < lo ==> pair_lt(#[trigger] s[k], x),
            forall|k: int| hi <= k < s.len() ==> pair_lt(x, #[trigger] s[k]),
        decreases hi - lo,
    {
        let mid = lo + (hi - lo) / 2;
        assert(s[mid as int] == (v@[mid as int].0@, v@[mid as int].1@));
        match compare_pairs(v[mid].0.as_str(), v[mid].1.as_str(), first, second) {
            Order::Equal => {
                proof {
                    assert forall|k: int| 0 <= k < mid implies pair_lt(#[trigger] s[k], x) by {}
                    assert forall|k: int| mid <= k < s.len() && #[trigger] s[k] != x implies pair_lt(
                        x,
                        s[k],
                    ) by {}
                    lemma_place_pair(s, x, mid as int);
                }
                return (true, mid);
            },
            Order::Less => {
                proof {
                    assert forall|k: int| 0 <= k < mid + 1 implies pair_lt(#[trigger] s[k], x) by {
                        if k < mid {
                            lemma_pair_lt_transitive(s[k], s[mid as int], x);
                        }
                    }
                }
                lo = mid + 1;
            },
            Order::Greater => {
                proof {
                    assert forall|k: int| mid <= k < s.len() implies pair_lt(x, #[trigger] s[k]) by {
                        if k > mid {
                            lemma_pair_lt_transitive(x, s[mid as int], s[k]);
                        }
                    }
                }
                hi = mid;
            },
        }
    }
    proof {
        lemma_place_pair(s, x, lo as int);
        if lo < s.len() {
            lemma_pair_lt_asymmetric(x, s[lo as int]);
        }
    }
    (false, lo)
}

/// An ascending sequence with `x` put in at its place is ascending, and
/// holds `x` besides what it held.
pub proof fn lemma_insert(s: Seq<Seq<char>>, x: Seq<char>, i: int)
    requires
        ascending(s),
        place_of(s, x, i),
        !s.contains(x),
    ensures
        ascending(s.insert(i, x)),
        forall|y: Seq<char>| s.insert(i, x).contains(y) <==> (s.contains(y) || y == x),
{
    let t = s.insert(i, x);
    assert forall|a: int, b: int| 0 <= a < b < t.len() implies name_lt(
        #[trigger] t[a],
        #[trigger] t[b],
    ) by {
        if a < i && b > i {
            assert(t[a] == s[a] && t[b] == s[b - 1]);
        } else if a == i {
            assert(t[b] == s[b - 1]);
            assert(s.contains(s[b - 1]));
        } else if b == i {
            assert(t[a] == s[a]);
        } else if b < i {
            assert(t[a] == s[a] && t[b] == s[b]);
        } else {
            assert(t[a] == s[a - 1] && t[b] == s[b - 1]);
        }
    }
    assert forall|y: Seq<char>| t.contains(y) <==> (s.contains(y) || y == x) by {
        if t.contains(y) {
            let k = choose|k: int| 0 <= k < t.len() && t[k] == y;
            if k < i {
                assert(s[k] == y);
            } else if k > i {
                assert(s[k - 1] == y);
            }
        }
        if s.contains(y) {
            let k = choose|k: int| 0 <= k < s.len() && s[k] == y;
            if k < i {
                assert(t[k] == y);
            } else {
                assert(t[k + 1] == y);
            }
        }
        assert(t[i] == x);
    }
}

/// The same for pairs.
pub proof fn lemma_insert_pair(s: Seq<(Seq<char>, Seq<char>)>, x: (Seq<char>, Seq<char>), i: int)
    requires
        ascending_pairs(s),
        place_of_pair(s, x, i),
        !s.contains(x),
    ensures
        ascending_pairs(s.insert(i, x)),
        forall|y: (Seq<char>, Seq<char>)| s.insert(i, x).contains(y) <==> (s.contains(y) || y == x),
{
    let t = s.insert(i, x);
    assert forall|a: int, b: int| 0 <= a < b < t.len() implies pair_lt(
        #[trigger] t[a],
        #[trigger] t[b],
    ) by {
        if a < i && b > i {
            assert(t[a] == s[a] && t[b] == s[b - 1]);
        } else if a == i {
            assert(t[b] == s[b - 1]);
            assert(s.contains(s[b - 1]));
        } else if b == i {
            assert(t[a] == s[a]);
        } else if b < i {
            assert(t[a] == s[a] && t[b] == s[b]);
        } else {
            assert(t[a] == s[a - 1] && t[b] == s[b - 1]);
        }
    }
    assert forall|y: (Seq<char>, Seq<char>)| t.contains(y) <==> (s.contains(y) || y == x) by {
        if t.contains(y) {
            let k = choose|k: int| 0 <= k < t.len() && t[k] == y;
            if k < i {
                assert(s[k] == y);
            } else if k > i {
                assert(s[k - 1] == y);
            }
        }
        if s.contains(y) {
            let k = choose|k: int| 0 <= k < s.len() && s[k] == y;
            if k < i {
                assert(t[k] == y);
            } else {
                assert(t[k + 1] == y);
            }
        }
        assert(t[i] == x);
    }
}

/// An ascending sequence without what stands at `i` is ascending, and holds
/// what it held but that.
pub proof fn lemma_remove(s: Seq<Seq<char>>, i: int)
    requires
        ascending(s),
        0 <= i < s.len(),
    ensures
        ascending(s.remove(i)),
        forall|y: Seq<char>| s.remove(i).contains(y) <==> (s.contains(y) && y != s[i]),
{
    let t = s.remove(i);
    assert forall|a: int, b: int| 0 <= a < b < t.len() implies name_lt(
        #[trigger] t[a],
        #[trigger] t[b],
    ) by {
        let a0 = if a < i {
            a
        } else {
            a + 1
        };
        let b0 = if b < i {
            b
        } else {
            b + 1
        };
        assert(t[a] == s[a0] && t[b] == s[b0]);
    }
    assert forall|y: Seq<char>| t.contains(y) <==> (s.contains(y) && y != s[i]) by {
        if t.contains(y) {
            let k = choose|k: int| 0 <= k < t.len() && t[k] == y;
            let k0 = if k < i {
                k
            } else {
                k + 1
            };
            assert(s[k0] == y);
            if k0 < i {
                lemma_name_lt_asymmetric(s[k0], s[i]);
            } else {
                lemma_name_lt_asymmetric(s[i], s[k0]);
            }
        }
        if s.contains(y) && y != s[i] {
            let k = choose|k: int| 0 <= k < s.len() && s[k] == y;
            if k < i {
                assert(t[k] == y);
            } else {
                assert(t[k - 1] == y);
            }
        }
    }
}

/// Puts a name into an ascending vector, unless it stands there.
pub fn insert_name(v: &mut Vec<String>, name: String)
    requires
        ascending(names_of(old(v)@)),
    ensures
        ascending(names_of(final(v)@)),
        forall|y: Seq<char>|
            names_of(final(v)@).contains(y) <==> (names_of(old(v)@).contains(y) || y == name@),
{
    let (found, at) = find_name(v, name.as_str());
    if !found {
        proof {
            lemma_insert(names_of(v@), name@, at as int);
            assert(names_of(v@.insert(at as int, name)) =~= names_of(v@).insert(at as int, name@));
        }
        v.insert(at, name);
    }
}

/// Puts a pair into an ascending vector of pairs, unless it stands there.
pub fn insert_pair(v: &mut Vec<(String, String)>, first: String, second: String)
    requires
        ascending_pairs(pairs_of(old(v)@)),
    ensures
        ascending_pairs(pairs_of(final(v)@)),
        forall|y: (Seq<char>, Seq<char>)|
            pairs_of(final(v)@).contains(y) <==> (pairs_of(old(v)@).contains(y) || y == (
                first@,
                second@,
            )),
{
    let (found, at) = find_pair(v, first.as_str(), second.as_str());
    if !found {
        proof {
            lemma_insert_pair(pairs_of(v@), (first@, second@), at as int);
            assert(pairs_of(v@.insert(at as int, (first, second))) =~= pairs_of(v@).insert(
                at as int,
                (first@, second@),
            ));
        }
        v.insert(at, (first, second));
    }
}

/// Two ascending sequences that hold the same names are the same.
pub proof fn lemma_ascending_unique(s: Seq<Seq<char>>, t: Seq<Seq<char>>)
    requires
        ascending(s),
        ascending(t),
        forall|y: Seq<char>| s.contains(y) <==> t.contains(y),
    ensures
        s == t,
    decreases s.len(),
{
    if s.len() == 0 {
        if t.len() > 0 {
            assert(t.contains(t[0]));
        }
        assert(s =~= t);
    } else {
        assert(s.contains(s[0]));
        let j = choose|j: int| 0 <= j < t.len() && t[j] == s[0];
        assert(t.contains(t[0]));
        let i = choose|i: int| 0 <= i < s.len() && s[i] == t[0];
        if j != 0 {
            if i != 0 {
                lemma_name_lt_transitive(t[0], t[j], s[i]);
            }
            lemma_name_lt_asymmetric(t[0], t[j]);
        }
        let s1 = s.remove(0);
        let t1 = t.remove(0);
        assert forall|a: int, b: int| 0 <= a < b < s1.len() implies name_lt(
            #[trigger] s1[a],
            #[trigger] s1[b],
        ) by {
            assert(s1[a] == s[a + 1] && s1[b] == s[b + 1]);
        }
        assert forall|a: int, b: int| 0 <= a < b < t1.len() implies name_lt(
            #[trigger] t1[a],
            #[trigger] t1[b],
        ) by {
            assert(t1[a] == t[a + 1] && t1[b] == t[b + 1]);
        }
        assert forall|y: Seq<char>| s1.contains(y) <==> t1.contains(y) by {
            if s1.contains(y) {
                let k = choose|k: int| 0 <= k < s1.len() && s1[k] == y;
                assert(s[k + 1] == y);
                lemma_name_lt_asymmetric(s[0], s[k + 1]);
                assert(s.contains(y));
                let m = choose|m: int| 0 <= m < t.len() && t[m] == y;
                assert(t1[m - 1] == y);
            }
            if t1.contains(y) {
                let k = choose|k: int| 0 <= k < t1.len() && t1[k] == y;
                assert(t[k + 1] == y);
                lemma_name_lt_asymmetric(t[0], t[k + 1]);
                assert(t.contains(y));
                let m = choose|m: int| 0 <= m < s.len() && s[m] == y;
                assert(s1[m - 1] == y);
            }
        }
        lemma_ascending_unique(s1, t1);
        assert(s =~= seq![s[0]] + s1);
        assert(t =~= seq![t[0]] + t1);
    }
}

/// Two ascending sequences that hold the same pairs are the same.
pub proof fn lemma_ascending_pairs_unique(
    s: Seq<(Seq<char>, Seq<char>)>,
    t: Seq<(Seq<char>, Seq<char>)>,
)
    requires
        ascending_pairs(s),
        ascending_pairs(t),
        forall|y: (Seq<char>, Seq<char>)| s.contains(y) <==> t.contains(y),
    ensures
        s == t,
    decreases s.len(),
{
    if s.len() == 0 {
        if t.len() > 0 {
            assert(t.contains(t[0]));
        }
        assert(s =~= t);
    } else {
        assert(s.contains(s[0]));
        let j = choose|j: int| 0 <= j < t.len() && t[j] == s[0];
        assert(t.contains(t[0]));
        let i = choose|i: int| 0 <= i < s.len() && s[i] == t[0];
        if j != 0 {
            if i != 0 {
                lemma_pair_lt_transitive(t[0], t[j], s[i]);
            }
            lemma_pair_lt_asymmetric(t[0], t[j]);
        }
        let s1 = s.remove(0);
        let t1 = t.remove(0);
        assert forall|a: int, b: int| 0 <= a < b < s1.len() implies pair_lt(
            #[trigger] s1[a],
            #[trigger] s1[b],
        ) by {
            assert(s1[a] == s[a + 1] && s1[b] == s[b + 1]);
        }
        assert forall|a: int, b: int| 0 <= a < b < t1.len() implies pair_lt(
            #[trigger] t1[a],
            #[trigger] t1[b],
        ) by {
            assert(t1[a] == t[a + 1] && t1[b] == t[b + 1]);
        }
        assert forall|y: (Seq<char>, Seq<char>)| s1.contains(y) <==> t1.contains(y) by {
            if s1.contains(y) {
                let k = choose|k: int| 0 <= k < s1.len() && s1[k] == y;
                assert(s[k + 1] == y);
                lemma_pair_lt_asymmetric(s[0], s[k + 1]);
                assert(s.contains(y));
                let m = choose|m: int| 0 <= m < t.len() && t[m] == y;
                assert(t1[m - 1] == y);
            }
            if t1.contains(y) {
                let k = choose|k: int| 0 <= k < t1.len() && t1[k] == y;
                assert(t[k + 1] == y);
                lemma_pair_lt_asymmetric(t[0], t[k + 1]);
                assert(t.contains(y));
                let m = choose|m: int| 0 <= m < s.len() && s[m] == y;
                assert(s1[m - 1] == y);
            }
        }
        lemma_ascending_pairs_unique(s1, t1);
        assert(s =~= seq![s[0]] + s1);
        assert(t =~= seq![t[0]] + t1);
    }
}

} // verus!
