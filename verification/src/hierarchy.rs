//! The hierarchy of types that a class path and a platform make, and which
//! methods a type has by it.
//!
//! A name stands for the class of the class path that bears it, else for the
//! class of the platform that bears it. A type has the methods that it
//! declares and those of its super class and of its interfaces, and so on
//! upward: the methods of every type that can be reached from it.

use crate::classinfo::{ClassInfoView, MethodView};
use crate::classpath::{ClassPath, UserClassView};
use crate::names::{ascending, names_of, same_name};
use crate::platform::Platform;
use crate::sorted::insert_name;
use vstd::prelude::*;
use vstd::string::*;

verus! {

/// What the hierarchy tells of a type: its super class, its interfaces and
/// the signatures of the methods that it declares.
pub struct TypeNode {
    pub super_class: Option<Seq<char>>,
    pub interfaces: Seq<Seq<char>>,
    pub methods: Set<Seq<char>>,
}

/// The signatures of the methods of a platform class.
pub open spec fn signatures(methods: Seq<MethodView>) -> Set<Seq<char>> {
    Set::new(
        |s: Seq<char>| exists|k: int| 0 <= k < methods.len() && #[trigger] methods[k].signature == s,
    )
}

/// What a class of the class path is in the hierarchy.
pub open spec fn user_node(class: UserClassView) -> TypeNode {
    TypeNode {
        super_class: class.super_class,
        interfaces: class.interfaces,
        methods: Set::new(|s: Seq<char>| class.methods.contains(s)),
    }
}

/// What a class of the platform is in the hierarchy.
pub open spec fn platform_node(class: ClassInfoView) -> TypeNode {
    TypeNode {
        super_class: class.super_class,
        interfaces: class.interfaces,
        methods: signatures(class.methods),
    }
}

/// The hierarchy that a class path and a platform make. Where both have a
/// class of one name, the class of the class path stands.
pub open spec fn hierarchy(
    users: Map<Seq<char>, UserClassView>,
    platform: Map<Seq<char>, ClassInfoView>,
) -> Map<Seq<char>, TypeNode> {
    Map::new(
        |name: Seq<char>| users.contains_key(name) || platform.contains_key(name),
        |name: Seq<char>|
            if users.contains_key(name) {
                user_node(users[name])
            } else {
                platform_node(platform[name])
            },
    )
}

/// The hierarchy of a platform alone.
pub open spec fn platform_hierarchy(platform: Map<Seq<char>, ClassInfoView>) -> Map<
    Seq<char>,
    TypeNode,
> {
    hierarchy(Map::empty(), platform)
}

/// Whether `a` is a type of the hierarchy and names `b` as its super class
/// or as one of its interfaces.
pub open spec fn extends(h: Map<Seq<char>, TypeNode>, a: Seq<char>, b: Seq<char>) -> bool {
    h.contains_key(a) && (h[a].super_class == Some(b) || h[a].interfaces.contains(b))
}

/// Whether `n` steps upward lead from `a` to `b`.
pub open spec fn reaches(h: Map<Seq<char>, TypeNode>, a: Seq<char>, b: Seq<char>, n: nat) -> bool
    decreases n,
{
    if n == 0 {
        a == b
    } else {
        exists|m: Seq<char>| #[trigger] extends(h, a, m) && reaches(h, m, b, (n - 1) as nat)
    }
}

/// Whether `b` is `a` or can be reached from `a` upward.
pub open spec fn ancestor(h: Map<Seq<char>, TypeNode>, a: Seq<char>, b: Seq<char>) -> bool {
    exists|n: nat| reaches(h, a, b, n)
}

/// Whether the type `owner` has the method `signature`: it, or a type that
/// can be reached from it upward, declares the method.
pub open spec fn provides(h: Map<Seq<char>, TypeNode>, owner: Seq<char>, signature: Seq<char>) -> bool {
    exists|c: Seq<char>| #[trigger]
        ancestor(h, owner, c) && h.contains_key(c) && h[c].methods.contains(signature)
}

/// One step more upward from where `n` steps lead is `n + 1` steps.
pub proof fn lemma_reaches_step(
    h: Map<Seq<char>, TypeNode>,
    a: Seq<char>,
    b: Seq<char>,
    c: Seq<char>,
    n: nat,
)
    requires
        reaches(h, a, b, n),
        extends(h, b, c),
    ensures
        reaches(h, a, c, n + 1),
    decreases n,
{
    if n == 0 {
        assert(reaches(h, c, c, 0));
        assert(extends(h, a, c) && reaches(h, c, c, 0));
    } else {
        let m = choose|m: Seq<char>| #[trigger] extends(h, a, m) && reaches(h, m, b, (n - 1) as nat);
        lemma_reaches_step(h, m, b, c, (n - 1) as nat);
        assert(extends(h, a, m) && reaches(h, m, c, n));
    }
}

/// What is named by an ancestor is an ancestor.
pub proof fn lemma_ancestor_step(h: Map<Seq<char>, TypeNode>, a: Seq<char>, b: Seq<char>, c: Seq<char>)
    requires
        ancestor(h, a, b),
        extends(h, b, c),
    ensures
        ancestor(h, a, c),
{
    let n = choose|n: nat| reaches(h, a, b, n);
    lemma_reaches_step(h, a, b, c, n);
}

/// Every type is its own ancestor.
pub proof fn lemma_ancestor_self(h: Map<Seq<char>, TypeNode>, a: Seq<char>)
    ensures
        ancestor(h, a, a),
{
    assert(reaches(h, a, a, 0));
}

/// In a hierarchy that holds all the types of another, each as it is there,
/// what was reached is reached.
pub proof fn lemma_reaches_grows(
    h: Map<Seq<char>, TypeNode>,
    larger: Map<Seq<char>, TypeNode>,
    a: Seq<char>,
    b: Seq<char>,
    n: nat,
)
    requires
        forall|name: Seq<char>| #[trigger]
            h.contains_key(name) ==> larger.contains_key(name) && larger[name] == h[name],
        reaches(h, a, b, n),
    ensures
        reaches(larger, a, b, n),
    decreases n,
{
    if n > 0 {
        let m = choose|m: Seq<char>| #[trigger] extends(h, a, m) && reaches(h, m, b, (n - 1) as nat);
        lemma_reaches_grows(h, larger, m, b, (n - 1) as nat);
        assert(extends(larger, a, m) && reaches(larger, m, b, (n - 1) as nat));
    }
}

/// In a hierarchy that holds all the types of another, each as it is there,
/// a type has the methods that it had.
pub proof fn lemma_provides_grows(
    h: Map<Seq<char>, TypeNode>,
    larger: Map<Seq<char>, TypeNode>,
    owner: Seq<char>,
    signature: Seq<char>,
)
    requires
        forall|name: Seq<char>| #[trigger]
            h.contains_key(name) ==> larger.contains_key(name) && larger[name] == h[name],
        provides(h, owner, signature),
    ensures
        provides(larger, owner, signature),
{
    let c = choose|c: Seq<char>| #[trigger]
        ancestor(h, owner, c) && h.contains_key(c) && h[c].methods.contains(signature);
    let n = choose|n: nat| reaches(h, owner, c, n);
    lemma_reaches_grows(h, larger, owner, c, n);
    assert(ancestor(larger, owner, c));
}

/// A type of a class path or of a platform, by its place there.
#[derive(Copy, Clone, Debug, PartialEq, Eq, Structural)]
pub enum Node {
    User(usize),
    Platform(usize),
}

/// Whether the node is a type of the hierarchy: it has a place, and a class
/// of the platform has no class of the class path standing under its name.
pub open spec fn node_ok(users: &ClassPath, platform: &Platform, node: Node) -> bool {
    match node {
        Node::User(i) => i < users.classes.keys@.len(),
        Node::Platform(j) => j < platform.classes.keys@.len() && !users@.contains_key(
            platform.classes.key_seq()[j as int],
        ),
    }
}

/// The name of a node.
pub open spec fn node_name(users: &ClassPath, platform: &Platform, node: Node) -> Seq<char> {
    match node {
        Node::User(i) => users.classes.key_seq()[i as int],
        Node::Platform(j) => platform.classes.key_seq()[j as int],
    }
}

/// What a node is in the hierarchy.
pub open spec fn node_view(users: &ClassPath, platform: &Platform, node: Node) -> TypeNode {
    match node {
        Node::User(i) => user_node(users.classes.values@[i as int]@),
        Node::Platform(j) => platform_node(platform.classes.values@[j as int]@),
    }
}

/// A node stands in the hierarchy under its name, and no other node bears
/// that name.
pub proof fn lemma_node(users: &ClassPath, platform: &Platform, node: Node)
    requires
        users.wf(),
        platform.wf(),
        node_ok(users, platform, node),
    ensures
        hierarchy(users@, platform@).contains_key(node_name(users, platform, node)),
        hierarchy(users@, platform@)[node_name(users, platform, node)] == node_view(
            users,
            platform,
            node,
        ),
        forall|other: Node|
            node_ok(users, platform, other) && node_name(users, platform, other) == node_name(
                users,
                platform,
                node,
            ) ==> other == node,
{
    match node {
        Node::User(i) => {
            users.classes.lemma_index(i as int);
        },
        Node::Platform(j) => {
            platform.classes.lemma_index(j as int);
        },
    }
    assert forall|other: Node|
        node_ok(users, platform, other) && node_name(users, platform, other) == node_name(
            users,
            platform,
            node,
        ) implies other == node by {
        match other {
            Node::User(i) => {
                users.classes.lemma_index(i as int);
            },
            Node::Platform(j) => {
                platform.classes.lemma_index(j as int);
            },
        }
    }
}

/// How many of the marks are set.
pub open spec fn count_true(s: Seq<bool>) -> nat
    decreases s.len(),
{
    if s.len() == 0 {
        0
    } else {
        count_true(s.drop_last()) + if s.last() {
            1nat
        } else {
            0nat
        }
    }
}

proof fn lemma_count_bound(s: Seq<bool>)
    ensures
        count_true(s) <= s.len(),
    decreases s.len(),
{
    if s.len() > 0 {
        lemma_count_bound(s.drop_last());
    }
}

proof fn lemma_count_set(s: Seq<bool>, i: int)
    requires
        0 <= i < s.len(),
        !s[i],
    ensures
        count_true(s.update(i, true)) == count_true(s) + 1,
    decreases s.len(),
{
    let t = s.update(i, true);
    if i == s.len() - 1 {
        assert(t.drop_last() =~= s.drop_last());
    } else {
        assert(t.drop_last() =~= s.drop_last().update(i, true));
        lemma_count_set(s.drop_last(), i);
    }
}

proof fn lemma_count_none(s: Seq<bool>)
    requires
        forall|i: int| 0 <= i < s.len() ==> !s[i],
    ensures
        count_true(s) == 0,
    decreases s.len(),
{
    if s.len() > 0 {
        lemma_count_none(s.drop_last());
    }
}

/// The state of a search upward through the hierarchy: which types were
/// found, in the order in which they were found, and a mark for each type
/// of the class path and of the platform. One state serves many searches,
/// one after the other.
pub struct Search {
    seen_users: Vec<bool>,
    seen_platform: Vec<bool>,
    found: Vec<Node>,
}

impl Search {
    /// Whether the state is ready for a search through the hierarchy of
    /// this class path and this platform: nothing is found and nothing is
    /// marked.
    pub closed spec fn fresh(&self, users: &ClassPath, platform: &Platform) -> bool {
        &&& self.seen_users@.len() == users.classes.keys@.len()
        &&& self.seen_platform@.len() == platform.classes.keys@.len()
        &&& self.found@.len() == 0
        &&& forall|i: int| 0 <= i < self.seen_users@.len() ==> !self.seen_users@[i]
        &&& forall|j: int| 0 <= j < self.seen_platform@.len() ==> !self.seen_platform@[j]
    }

    spec fn in_range(&self, node: Node) -> bool {
        match node {
            Node::User(i) => i < self.seen_users@.len(),
            Node::Platform(j) => j < self.seen_platform@.len(),
        }
    }

    spec fn marked(&self, node: Node) -> bool {
        match node {
            Node::User(i) => self.seen_users@[i as int],
            Node::Platform(j) => self.seen_platform@[j as int],
        }
    }

    /// Whether a type of the name was found.
    spec fn holds(&self, users: &ClassPath, platform: &Platform, name: Seq<char>) -> bool {
        exists|k: int|
            0 <= k < self.found@.len() && node_name(users, platform, #[trigger] self.found@[k])
                == name
    }

    /// What holds of a search from `start`: every type found is marked and
    /// is an ancestor of `start`, and every marked type was found.
    spec fn inv(&self, users: &ClassPath, platform: &Platform, start: Seq<char>) -> bool {
        &&& self.seen_users@.len() == users.classes.keys@.len()
        &&& self.seen_platform@.len() == platform.classes.keys@.len()
        &&& forall|k: int|
            0 <= k < self.found@.len() ==> {
                &&& node_ok(users, platform, #[trigger] self.found@[k])
                &&& self.marked(self.found@[k])
                &&& ancestor(
                    hierarchy(users@, platform@),
                    start,
                    node_name(users, platform, self.found@[k]),
                )
            }
        &&& forall|node: Node|
            self.in_range(node) && #[trigger] self.marked(node) ==> self.found@.contains(node)
        &&& count_true(self.seen_users@) + count_true(self.seen_platform@) == self.found@.len()
        &&& forall|a: int, b: int|
            0 <= a < b < self.found@.len() ==> #[trigger] self.found@[a] != #[trigger] self.found@[b]
    }

    /// Whether, for each of the first `done` types found, the types that it
    /// names were found.
    spec fn closed(&self, users: &ClassPath, platform: &Platform, done: int) -> bool {
        forall|k: int, p: Seq<char>|
            0 <= k < done && #[trigger] extends(
                hierarchy(users@, platform@),
                node_name(users, platform, self.found@[k]),
                p,
            ) && hierarchy(users@, platform@).contains_key(p) ==> self.holds(users, platform, p)
    }

    /// Whether the search goes on from another: what that had found, this
    /// has found at the same places.
    spec fn extends_search(&self, before: &Search) -> bool {
        &&& before.found@.len() <= self.found@.len()
        &&& forall|k: int| 0 <= k < before.found@.len() ==> self.found@[k] == before.found@[k]
    }

    proof fn lemma_goes_on(&self, before: &Search, users: &ClassPath, platform: &Platform, done: int)
        requires
            self.extends_search(before),
            done <= before.found@.len(),
            before.closed(users, platform, done),
        ensures
            self.closed(users, platform, done),
            forall|name: Seq<char>|
                before.holds(users, platform, name) ==> self.holds(users, platform, name),
    {
        assert forall|name: Seq<char>| before.holds(users, platform, name) implies self.holds(
            users,
            platform,
            name,
        ) by {
            let k = choose|k: int|
                0 <= k < before.found@.len() && node_name(users, platform, #[trigger] before.found@[k])
                    == name;
            assert(node_name(users, platform, self.found@[k]) == name);
        }
        assert forall|k: int, p: Seq<char>|
            0 <= k < done && #[trigger] extends(
                hierarchy(users@, platform@),
                node_name(users, platform, self.found@[k]),
                p,
            ) && hierarchy(users@, platform@).contains_key(p) implies self.holds(
            users,
            platform,
            p,
        ) by {
            assert(self.found@[k] == before.found@[k]);
            assert(before.holds(users, platform, p));
        }
    }

    /// What is reached from a type that was found was found, once the types
    /// that each type found names were found.
    proof fn lemma_complete(
        &self,
        users: &ClassPath,
        platform: &Platform,
        a: Seq<char>,
        c: Seq<char>,
        n: nat,
    )
        requires
            self.closed(users, platform, self.found@.len() as int),
            self.holds(users, platform, a),
            reaches(hierarchy(users@, platform@), a, c, n),
            hierarchy(users@, platform@).contains_key(c),
        ensures
            self.holds(users, platform, c),
        decreases n,
    {
        let h = hierarchy(users@, platform@);
        if n > 0 {
            let m = choose|m: Seq<char>| #[trigger] extends(h, a, m) && reaches(h, m, c, (n - 1) as nat);
            if n - 1 > 0 {
                let m2 = choose|m2: Seq<char>| #[trigger]
                    extends(h, m, m2) && reaches(h, m2, c, (n - 2) as nat);
            }
            assert(h.contains_key(m));
            let k = choose|k: int|
                0 <= k < self.found@.len() && node_name(users, platform, #[trigger] self.found@[k])
                    == a;
            assert(extends(h, node_name(users, platform, self.found@[k]), m));
            self.lemma_complete(users, platform, m, c, (n - 1) as nat);
        }
    }

    /// A state that is ready for a search.
    pub fn new(users: &ClassPath, platform: &Platform) -> (r: Search)
        requires
            users.wf(),
            platform.wf(),
        ensures
            r.fresh(users, platform),
    {
        let mut seen_users: Vec<bool> = Vec::new();
        let mut i: usize = 0;
        while i < users.len()
            invariant
                users.wf(),
                i <= users.classes.keys@.len(),
                seen_users@.len() == i,
                forall|k: int| 0 <= k < i ==> !seen_users@[k],
            decreases users.classes.keys@.len() - i,
        {
            seen_users.push(false);
            i += 1;
        }
        let mut seen_platform: Vec<bool> = Vec::new();
        let mut j: usize = 0;
        while j < platform.len()
            invariant
                platform.wf(),
                j <= platform.classes.keys@.len(),
                seen_platform@.len() == j,
                forall|k: int| 0 <= k < j ==> !seen_platform@[k],
            decreases platform.classes.keys@.len() - j,
        {
            seen_platform.push(false);
            j += 1;
        }
        Search { seen_users, seen_platform, found: Vec::new() }
    }

    /// Makes the state ready for the next search: takes the marks off the
    /// types that were found, and forgets them.
    fn reset(&mut self, users: &ClassPath, platform: &Platform, Ghost(start): Ghost<Seq<char>>)
        requires
            old(self).inv(users, platform, start),
        ensures
            final(self).fresh(users, platform),
    {
        let ghost found = self.found@;
        let mut k: usize = 0;
        while k < self.found.len()
            invariant
                k <= found.len(),
                self.found@ == found,
                self.seen_users@.len() == users.classes.keys@.len(),
                self.seen_platform@.len() == platform.classes.keys@.len(),
                forall|q: int| 0 <= q < found.len() ==> node_ok(users, platform, #[trigger] found[q]),
                forall|node: Node|
                    self.in_range(node) && #[trigger] self.marked(node) ==> exists|q: int|
                        k <= q < found.len() && found[q] == node,
            decreases found.len() - k,
        {
            let ghost before = *self;
            let node = self.found[k];
            match node {
                Node::User(i) => {
                    self.seen_users.set(i, false);
                },
                Node::Platform(j) => {
                    self.seen_platform.set(j, false);
                },
            }
            proof {
                assert forall|other: Node|
                    self.in_range(other) && #[trigger] self.marked(other) implies exists|q: int|
                    k + 1 <= q < found.len() && found[q] == other by {
                    assert(before.in_range(other) && before.marked(other));
                    let q = choose|q: int| k <= q < found.len() && found[q] == other;
                    assert(found[q] == other);
                }
            }
            k += 1;
        }
        let ghost swept = *self;
        self.found.clear();
        proof {
            assert(self.seen_users@.len() == self.seen_users.len());
            assert(self.seen_platform@.len() == self.seen_platform.len());
            assert forall|i: int| 0 <= i < self.seen_users@.len() implies !self.seen_users@[i] by {
                if self.seen_users@[i] {
                    assert(swept.in_range(Node::User(i as usize)) && swept.marked(
                        Node::User(i as usize),
                    ));
                }
            }
            assert forall|j: int| 0 <= j < self.seen_platform@.len() implies !self.seen_platform@[j] by {
                if self.seen_platform@[j] {
                    assert(swept.in_range(Node::Platform(j as usize)) && swept.marked(
                        Node::Platform(j as usize),
                    ));
                }
            }
        }
    }

    /// Looks the name up and, if it is that of a type that was not found
    /// yet, marks the type and takes it among those found.
    fn visit(
        &mut self,
        name: &str,
        users: &ClassPath,
        platform: &Platform,
        Ghost(start): Ghost<Seq<char>>,
    )
        requires
            users.wf(),
            platform.wf(),
            old(self).inv(users, platform, start),
            ancestor(hierarchy(users@, platform@), start, name@),
        ensures
            final(self).inv(users, platform, start),
            final(self).extends_search(old(self)),
            hierarchy(users@, platform@).contains_key(name@) ==> final(self).holds(
                users,
                platform,
                name@,
            ),
    {
        let ghost before = *self;
        let node = match users.classes.find(name) {
            Some(i) => Node::User(i),
            None => match platform.classes.find(name) {
                Some(j) => Node::Platform(j),
                None => {
                    return ;
                },
            },
        };
        assert(node_ok(users, platform, node));
        assert(node_name(users, platform, node) == name@);
        let seen = match node {
            Node::User(i) => self.seen_users[i],
            Node::Platform(j) => self.seen_platform[j],
        };
        if seen {
            proof {
                assert(self.marked(node));
                assert(self.found@.contains(node));
                let k = choose|k: int| 0 <= k < self.found@.len() && self.found@[k] == node;
                assert(node_name(users, platform, self.found@[k]) == name@);
            }
            return ;
        }
        proof {
            match node {
                Node::User(i) => {
                    lemma_count_set(self.seen_users@, i as int);
                },
                Node::Platform(j) => {
                    lemma_count_set(self.seen_platform@, j as int);
                },
            }
        }
        match node {
            Node::User(i) => {
                self.seen_users.set(i, true);
            },
            Node::Platform(j) => {
                self.seen_platform.set(j, true);
            },
        }
        self.found.push(node);
        proof {
            let last = self.found@.len() - 1;
            assert(self.found@[last] == node);
            assert forall|k: int| 0 <= k < self.found@.len() implies {
                &&& node_ok(users, platform, #[trigger] self.found@[k])
                &&& self.marked(self.found@[k])
                &&& ancestor(
                    hierarchy(users@, platform@),
                    start,
                    node_name(users, platform, self.found@[k]),
                )
            } by {
                if k < last {
                    assert(self.found@[k] == before.found@[k]);
                    assert(before.marked(before.found@[k]));
                }
            }
            assert forall|a: int, b: int| 0 <= a < b < self.found@.len() implies #[trigger]
                self.found@[a] != #[trigger] self.found@[b] by {
                assert(self.found@[a] == before.found@[a]);
                assert(before.marked(before.found@[a]));
                if b < last {
                    assert(self.found@[b] == before.found@[b]);
                }
            }
            assert forall|other: Node|
                self.in_range(other) && #[trigger] self.marked(other) implies self.found@.contains(
                other,
            ) by {
                if other == node {
                    assert(self.found@[last] == other);
                } else {
                    assert(before.in_range(other) && before.marked(other));
                    assert(before.found@.contains(other));
                    let k = choose|k: int| 0 <= k < before.found@.len() && before.found@[k] == other;
                    assert(self.found@[k] == other);
                }
            }
            assert(node_name(users, platform, self.found@[last]) == name@);
        }
    }
}

/// The super class that a node names, if it names one.
fn node_super<'a>(users: &'a ClassPath, platform: &'a Platform, node: Node) -> (r: Option<
    &'a String,
>)
    requires
        users.wf(),
        platform.wf(),
        node_ok(users, platform, node),
    ensures
        match r {
            Some(s) => node_view(users, platform, node).super_class == Some(s@),
            None => node_view(users, platform, node).super_class is None,
        },
{
    match node {
        Node::User(i) => users.classes.values[i].super_class.as_ref(),
        Node::Platform(j) => platform.classes.values[j].super_class.as_ref(),
    }
}

/// The interfaces that a node names.
fn node_interfaces<'a>(users: &'a ClassPath, platform: &'a Platform, node: Node) -> (r: &'a Vec<
    String,
>)
    requires
        users.wf(),
        platform.wf(),
        node_ok(users, platform, node),
    ensures
        node_view(users, platform, node).interfaces == names_of(r@),
{
    match node {
        Node::User(i) => &users.classes.values[i].interfaces,
        Node::Platform(j) => {
            let r = &platform.classes.values[j].interfaces;
            assert(names_of(r@) =~= crate::java_class::view_each(r@));
            r
        },
    }
}

/// Whether the nodes are the types of the hierarchy that are `name` or can
/// be reached from it upward, each once.
pub open spec fn are_ancestors(
    nodes: Seq<Node>,
    name: Seq<char>,
    users: &ClassPath,
    platform: &Platform,
) -> bool {
    &&& forall|k: int|
        0 <= k < nodes.len() ==> node_ok(users, platform, #[trigger] nodes[k]) && ancestor(
            hierarchy(users@, platform@),
            name,
            node_name(users, platform, nodes[k]),
        )
    &&& forall|c: Seq<char>|
        ancestor(hierarchy(users@, platform@), name, c) && hierarchy(
            users@,
            platform@,
        ).contains_key(c) ==> exists|k: int|
            0 <= k < nodes.len() && node_name(users, platform, #[trigger] nodes[k]) == c
    &&& forall|a: int, b: int| 0 <= a < b < nodes.len() ==> #[trigger] nodes[a] != #[trigger] nodes[b]
}

/// Searches upward from `name`: finds the types of the hierarchy that are
/// `name` or can be reached from it.
fn run(search: &mut Search, name: &str, users: &ClassPath, platform: &Platform)
    requires
        users.wf(),
        platform.wf(),
        old(search).fresh(users, platform),
    ensures
        final(search).inv(users, platform, name@),
        are_ancestors(final(search).found@, name@, users, platform),
{
    let ghost h = hierarchy(users@, platform@);
    let ghost start = name@;
    proof {
        lemma_count_none(search.seen_users@);
        lemma_count_none(search.seen_platform@);
        lemma_ancestor_self(h, start);
        assert(search.inv(users, platform, start));
        assert(search.closed(users, platform, 0));
    }
    search.visit(name, users, platform, Ghost(start));
    let total_users = users.len();
    let total_platform = platform.len();
    let mut done: usize = 0;
    while done < search.found.len()
        invariant
            users.wf(),
            platform.wf(),
            h == hierarchy(users@, platform@),
            start == name@,
            total_users == users.classes.keys@.len(),
            total_platform == platform.classes.keys@.len(),
            search.inv(users, platform, start),
            done <= search.found@.len(),
            search.closed(users, platform, done as int),
            h.contains_key(start) ==> search.holds(users, platform, start),
        decreases total_users + total_platform - done,
    {
        proof {
            lemma_count_bound(search.seen_users@);
            lemma_count_bound(search.seen_platform@);
        }
        let node = search.found[done];
        let ghost current = node_name(users, platform, node);
        proof {
            lemma_node(users, platform, node);
        }
        let ghost entered = *search;
        match node_super(users, platform, node) {
            Some(s) => {
                proof {
                    assert(extends(h, current, s@));
                    lemma_ancestor_step(h, start, current, s@);
                }
                search.visit(s.as_str(), users, platform, Ghost(start));
            },
            None => {},
        }
        proof {
            search.lemma_goes_on(&entered, users, platform, done as int);
        }
        let interfaces = node_interfaces(users, platform, node);
        let mut i: usize = 0;
        while i < interfaces.len()
            invariant
                users.wf(),
                platform.wf(),
                h == hierarchy(users@, platform@),
                start == name@,
                search.inv(users, platform, start),
                done < search.found@.len(),
                search.found@[done as int] == node,
                node_ok(users, platform, node),
                current == node_name(users, platform, node),
                h.contains_key(current),
                h[current] == node_view(users, platform, node),
                h[current].interfaces == names_of(interfaces@),
                ancestor(h, start, current),
                i <= interfaces@.len(),
                search.closed(users, platform, done as int),
                h.contains_key(start) ==> search.holds(users, platform, start),
                forall|p: Seq<char>|
                    h[current].super_class == Some(p) && h.contains_key(p) ==> search.holds(
                        users,
                        platform,
                        p,
                    ),
                forall|q: int|
                    0 <= q < i && h.contains_key(#[trigger] names_of(interfaces@)[q])
                        ==> search.holds(users, platform, names_of(interfaces@)[q]),
            decreases interfaces@.len() - i,
        {
            let ghost before = *search;
            proof {
                assert(names_of(interfaces@)[i as int] == interfaces@[i as int]@);
                assert(h[current].interfaces.contains(names_of(interfaces@)[i as int]));
                assert(extends(h, current, interfaces@[i as int]@));
                lemma_ancestor_step(h, start, current, interfaces@[i as int]@);
            }
            search.visit(interfaces[i].as_str(), users, platform, Ghost(start));
            proof {
                search.lemma_goes_on(&before, users, platform, done as int);
            }
            i += 1;
        }
        proof {
            assert forall|k: int, p: Seq<char>|
                0 <= k < done + 1 && #[trigger] extends(
                    h,
                    node_name(users, platform, search.found@[k]),
                    p,
                ) && h.contains_key(p) implies search.holds(users, platform, p) by {
                if k == done {
                    if h[current].super_class != Some(p) {
                        let q = choose|q: int|
                            0 <= q < h[current].interfaces.len() && h[current].interfaces[q] == p;
                        assert(names_of(interfaces@)[q] == p);
                    }
                }
            }
        }
        done += 1;
    }
    proof {
        assert forall|c: Seq<char>| ancestor(h, start, c) && h.contains_key(c) implies exists|
            k: int,
        |
            0 <= k < search.found@.len() && node_name(users, platform, #[trigger] search.found@[k])
                == c by {
            let n = choose|n: nat| reaches(h, start, c, n);
            if n > 0 {
                let m = choose|m: Seq<char>| #[trigger]
                    extends(h, start, m) && reaches(h, m, c, (n - 1) as nat);
            }
            assert(h.contains_key(start));
            search.lemma_complete(users, platform, start, c, n);
        }
    }
}

/// The types of the hierarchy that are `name` or can be reached from it
/// upward, each once.
pub fn ancestors(name: &str, users: &ClassPath, platform: &Platform) -> (r: Vec<Node>)
    requires
        users.wf(),
        platform.wf(),
    ensures
        are_ancestors(r@, name@, users, platform),
{
    let mut search = Search::new(users, platform);
    run(&mut search, name, users, platform);
    search.found
}

/// Whether a node declares a method of the signature.
fn node_declares(users: &ClassPath, platform: &Platform, node: Node, signature: &str) -> (r: bool)
    requires
        users.wf(),
        platform.wf(),
        node_ok(users, platform, node),
    ensures
        r == node_view(users, platform, node).methods.contains(signature@),
{
    match node {
        Node::User(i) => {
            let methods = &users.classes.values[i].methods;
            let ghost declared = node_view(users, platform, node).methods;
            let mut k: usize = 0;
            while k < methods.len()
                invariant
                    k <= methods@.len(),
                    declared == node_view(users, platform, node).methods,
                    declared == Set::new(|s: Seq<char>| names_of(methods@).contains(s)),
                    forall|q: int| 0 <= q < k ==> names_of(methods@)[q] != signature@,
                decreases methods@.len() - k,
            {
                if same_name(methods[k].as_str(), signature) {
                    assert(names_of(methods@)[k as int] == signature@);
                    assert(names_of(methods@).contains(signature@));
                    return true;
                }
                k += 1;
            }
            false
        },
        Node::Platform(j) => {
            let methods = &platform.classes.values[j].methods;
            let ghost views = platform.classes.values@[j as int]@.methods;
            assert(views == crate::java_class::view_each(methods@));
            let mut k: usize = 0;
            while k < methods.len()
                invariant
                    k <= methods@.len(),
                    views == crate::java_class::view_each(methods@),
                    node_view(users, platform, node).methods == signatures(views),
                    forall|q: int| 0 <= q < k ==> (#[trigger] views[q]).signature != signature@,
                decreases methods@.len() - k,
            {
                if same_name(methods[k].signature.as_str(), signature) {
                    assert(views[k as int].signature == signature@);
                    return true;
                }
                k += 1;
            }
            false
        },
    }
}

/// Whether the type `owner` has the method `signature` by the hierarchy of
/// the class path and the platform. The search uses the state `search` and
/// leaves it ready for the next.
pub fn has_method_with(
    owner: &str,
    signature: &str,
    users: &ClassPath,
    platform: &Platform,
    search: &mut Search,
) -> (r: bool)
    requires
        users.wf(),
        platform.wf(),
        old(search).fresh(users, platform),
    ensures
        final(search).fresh(users, platform),
        r == provides(hierarchy(users@, platform@), owner@, signature@),
{
    let ghost h = hierarchy(users@, platform@);
    run(search, owner, users, platform);
    let ghost found = search.found@;
    let mut declared = false;
    let mut k: usize = 0;
    while k < search.found.len() && !declared
        invariant
            users.wf(),
            platform.wf(),
            h == hierarchy(users@, platform@),
            search.inv(users, platform, owner@),
            search.found@ == found,
            k <= found.len(),
            are_ancestors(found, owner@, users, platform),
            declared ==> provides(h, owner@, signature@),
            !declared ==> forall|q: int|
                0 <= q < k ==> !node_view(users, platform, #[trigger] found[q]).methods.contains(
                    signature@,
                ),
        decreases (found.len() - k) + (if declared {
                0int
            } else {
                1int
            }),
    {
        proof {
            lemma_node(users, platform, found[k as int]);
        }
        if node_declares(users, platform, search.found[k], signature) {
            declared = true;
        } else {
            k += 1;
        }
    }
    proof {
        if !declared && provides(h, owner@, signature@) {
            let c = choose|c: Seq<char>| #[trigger]
                ancestor(h, owner@, c) && h.contains_key(c) && h[c].methods.contains(signature@);
            let q = choose|q: int|
                0 <= q < found.len() && node_name(users, platform, #[trigger] found[q]) == c;
            lemma_node(users, platform, found[q]);
        }
    }
    search.reset(users, platform, Ghost(owner@));
    declared
}

/// Whether the type `owner` has the method `signature` by the hierarchy of
/// the class path and the platform.
pub fn has_method(owner: &str, signature: &str, users: &ClassPath, platform: &Platform) -> (r: bool)
    requires
        users.wf(),
        platform.wf(),
    ensures
        r == provides(hierarchy(users@, platform@), owner@, signature@),
{
    let mut search = Search::new(users, platform);
    has_method_with(owner, signature, users, platform, &mut search)
}

/// The signatures that a platform class declares, in the order of its
/// methods.
pub open spec fn signature_seq(methods: Seq<MethodView>) -> Seq<Seq<char>> {
    Seq::new(methods.len(), |k: int| methods[k].signature)
}

proof fn lemma_take_push(list: Seq<Seq<char>>, m: int, s: Seq<char>)
    requires
        0 <= m < list.len(),
    ensures
        list.take(m + 1).contains(s) <==> (list.take(m).contains(s) || s == list[m]),
        list.take(list.len() as int) == list,
{
    let longer = list.take(m + 1);
    let shorter = list.take(m);
    if longer.contains(s) {
        let q = choose|q: int| 0 <= q < longer.len() && longer[q] == s;
        if q < m {
            assert(shorter[q] == s);
        }
    }
    if shorter.contains(s) {
        let q = choose|q: int| 0 <= q < shorter.len() && shorter[q] == s;
        assert(longer[q] == s);
    }
    assert(longer[m] == list[m]);
    assert(list.take(list.len() as int) =~= list);
}

/// Puts the names of a list into an ascending vector.
fn insert_names(result: &mut Vec<String>, list: &Vec<String>)
    requires
        ascending(names_of(old(result)@)),
    ensures
        ascending(names_of(final(result)@)),
        forall|s: Seq<char>| #[trigger]
            names_of(final(result)@).contains(s) <==> (names_of(old(result)@).contains(s)
                || names_of(list@).contains(s)),
{
    let ghost entered = names_of(result@);
    let ghost names = names_of(list@);
    let mut m: usize = 0;
    while m < list.len()
        invariant
            m <= list@.len(),
            names == names_of(list@),
            ascending(names_of(result@)),
            forall|s: Seq<char>| #[trigger]
                names_of(result@).contains(s) <==> (entered.contains(s) || names.take(
                    m as int,
                ).contains(s)),
        decreases list@.len() - m,
    {
        let ghost before = names_of(result@);
        insert_name(result, list[m].clone());
        proof {
            assert(names[m as int] == list@[m as int]@);
            assert forall|s: Seq<char>| #[trigger]
                names_of(result@).contains(s) <==> (entered.contains(s) || names.take(
                    m as int + 1,
                ).contains(s)) by {
                lemma_take_push(names, m as int, s);
                assert(before.contains(s) <==> (entered.contains(s) || names.take(
                    m as int,
                ).contains(s)));
            }
        }
        m += 1;
    }
    proof {
        assert(names.take(names.len() as int) =~= names);
    }
}

/// Puts the signatures of a list of methods into an ascending vector.
fn insert_signatures(result: &mut Vec<String>, list: &Vec<crate::classinfo::PlatformMethod>)
    requires
        ascending(names_of(old(result)@)),
    ensures
        ascending(names_of(final(result)@)),
        forall|s: Seq<char>| #[trigger]
            names_of(final(result)@).contains(s) <==> (names_of(old(result)@).contains(s)
                || signatures(crate::java_class::view_each(list@)).contains(s)),
{
    let ghost entered = names_of(result@);
    let ghost views = crate::java_class::view_each(list@);
    let ghost names = signature_seq(views);
    let mut m: usize = 0;
    while m < list.len()
        invariant
            m <= list@.len(),
            views == crate::java_class::view_each(list@),
            names == signature_seq(views),
            ascending(names_of(result@)),
            forall|s: Seq<char>| #[trigger]
                names_of(result@).contains(s) <==> (entered.contains(s) || names.take(
                    m as int,
                ).contains(s)),
        decreases list@.len() - m,
    {
        let ghost before = names_of(result@);
        insert_name(result, list[m].signature.clone());
        proof {
            assert(names[m as int] == list@[m as int].signature@);
            assert forall|s: Seq<char>| #[trigger]
                names_of(result@).contains(s) <==> (entered.contains(s) || names.take(
                    m as int + 1,
                ).contains(s)) by {
                lemma_take_push(names, m as int, s);
                assert(before.contains(s) <==> (entered.contains(s) || names.take(
                    m as int,
                ).contains(s)));
            }
        }
        m += 1;
    }
    proof {
        assert(names.take(names.len() as int) =~= names);
        assert forall|s: Seq<char>| names.contains(s) <==> signatures(views).contains(s) by {
            if names.contains(s) {
                let q = choose|q: int| 0 <= q < names.len() && names[q] == s;
                assert(views[q].signature == s);
            }
            if signatures(views).contains(s) {
                let q = choose|q: int| 0 <= q < views.len() && (#[trigger] views[q]).signature == s;
                assert(names[q] == s);
            }
        }
    }
}

/// The signatures of the methods that the type `class_name` has by the
/// hierarchy of the class path and the platform, in ascending order.
pub fn collect_methods(class_name: &str, users: &ClassPath, platform: &Platform) -> (r: Vec<String>)
    requires
        users.wf(),
        platform.wf(),
    ensures
        ascending(names_of(r@)),
        forall|s: Seq<char>|
            names_of(r@).contains(s) <==> provides(hierarchy(users@, platform@), class_name@, s),
{
    let ghost h = hierarchy(users@, platform@);
    let found = ancestors(class_name, users, platform);
    let mut result: Vec<String> = Vec::new();
    let mut k: usize = 0;
    while k < found.len()
        invariant
            users.wf(),
            platform.wf(),
            h == hierarchy(users@, platform@),
            k <= found@.len(),
            ascending(names_of(result@)),
            forall|q: int|
                0 <= q < found@.len() ==> node_ok(users, platform, #[trigger] found@[q]) && ancestor(
                    h,
                    class_name@,
                    node_name(users, platform, found@[q]),
                ),
            forall|s: Seq<char>| #[trigger]
                names_of(result@).contains(s) <==> exists|q: int|
                    0 <= q < k && node_view(users, platform, #[trigger] found@[q]).methods.contains(
                        s,
                    ),
        decreases found@.len() - k,
    {
        let node = found[k];
        let ghost entered = names_of(result@);
        match node {
            Node::User(i) => {
                insert_names(&mut result, &users.classes.values[i].methods);
            },
            Node::Platform(j) => {
                insert_signatures(&mut result, &platform.classes.values[j].methods);
            },
        }
        proof {
            let declared = node_view(users, platform, node).methods;
            assert forall|s: Seq<char>| #[trigger]
                names_of(result@).contains(s) <==> exists|q: int|
                    0 <= q < k + 1 && node_view(users, platform, #[trigger] found@[q]).methods.contains(
                        s,
                    ) by {
                assert(names_of(result@).contains(s) <==> (entered.contains(s) || declared.contains(
                    s,
                )));
                if entered.contains(s) {
                    let q = choose|q: int|
                        0 <= q < k && node_view(
                            users,
                            platform,
                            #[trigger] found@[q],
                        ).methods.contains(s);
                    assert(node_view(users, platform, found@[q]).methods.contains(s));
                }
                if declared.contains(s) {
                    assert(node_view(users, platform, found@[k as int]).methods.contains(s));
                }
                if exists|q: int|
                    0 <= q < k + 1 && node_view(users, platform, #[trigger] found@[q]).methods.contains(
                        s,
                    ) {
                    let q = choose|q: int|
                        0 <= q < k + 1 && node_view(
                            users,
                            platform,
                            #[trigger] found@[q],
                        ).methods.contains(s);
                    if q < k {
                        assert(entered.contains(s));
                    }
                }
            }
        }
        k += 1;
    }
    proof {
        assert forall|s: Seq<char>| names_of(result@).contains(s) <==> provides(
            h,
            class_name@,
            s,
        ) by {
            if names_of(result@).contains(s) {
                let q = choose|q: int|
                    0 <= q < k && node_view(users, platform, #[trigger] found@[q]).methods.contains(
                        s,
                    );
                lemma_node(users, platform, found@[q]);
                assert(ancestor(h, class_name@, node_name(users, platform, found@[q])));
            }
            if provides(h, class_name@, s) {
                let c = choose|c: Seq<char>| #[trigger]
                    ancestor(h, class_name@, c) && h.contains_key(c) && h[c].methods.contains(s);
                let q = choose|q: int|
                    0 <= q < found@.len() && node_name(users, platform, #[trigger] found@[q]) == c;
                lemma_node(users, platform, found@[q]);
                assert(node_view(users, platform, found@[q]).methods.contains(s));
            }
        }
    }
    result
}

} // verus!
