//! What a class still depends on: the classes and the methods that it
//! refers to and that nothing was found to provide.

use crate::classpath::ClassPath;
use crate::hierarchy::{has_method, has_method_with, platform_hierarchy, provides, Search};
use crate::names::{
    ascending, ascending_pairs, name_lt, names_of, pair_lt, pairs_of, same_name,
};
use crate::platform::Platform;
use crate::requirements::{ClassRequirements, RequirementsView};
use crate::sorted::{find_name, insert_name, insert_pair, lemma_remove};
use vstd::prelude::*;
use vstd::string::*;

verus! {

/// The classes and the methods that a class depends on, each kind as a set
/// kept in ascending order: the names of classes, and the methods of classes
/// and of interfaces, each with its owner and its signature.
#[derive(Debug)]
pub struct ClassDependencies {
    pub name: String,
    pub classes: Vec<String>,
    pub class_methods: Vec<(String, String)>,
    pub iface_methods: Vec<(String, String)>,
}

/// What the dependencies of a class hold.
pub struct DependenciesView {
    pub name: Seq<char>,
    pub classes: Set<Seq<char>>,
    pub class_methods: Set<(Seq<char>, Seq<char>)>,
    pub iface_methods: Set<(Seq<char>, Seq<char>)>,
}

impl DependenciesView {
    /// Whether nothing is depended on.
    pub open spec fn is_empty(self) -> bool {
        &&& forall|c: Seq<char>| !self.classes.contains(c)
        &&& forall|m: (Seq<char>, Seq<char>)| !self.class_methods.contains(m)
        &&& forall|m: (Seq<char>, Seq<char>)| !self.iface_methods.contains(m)
    }
}

/// The names that a sequence holds, as a set.
pub open spec fn name_set(s: Seq<Seq<char>>) -> Set<Seq<char>> {
    Set::new(|x: Seq<char>| s.contains(x))
}

/// The pairs that a sequence holds, as a set.
pub open spec fn pair_set(s: Seq<(Seq<char>, Seq<char>)>) -> Set<(Seq<char>, Seq<char>)> {
    Set::new(|x: (Seq<char>, Seq<char>)| s.contains(x))
}

/// What a class depends on before anything is looked up: all that it
/// requires.
pub open spec fn all_required(requirements: RequirementsView) -> DependenciesView {
    DependenciesView {
        name: requirements.name,
        classes: name_set(requirements.classes),
        class_methods: pair_set(requirements.class_methods),
        iface_methods: pair_set(requirements.iface_methods),
    }
}

impl View for ClassDependencies {
    type V = DependenciesView;

    open spec fn view(&self) -> DependenciesView {
        DependenciesView {
            name: self.name@,
            classes: name_set(names_of(self.classes@)),
            class_methods: pair_set(pairs_of(self.class_methods@)),
            iface_methods: pair_set(pairs_of(self.iface_methods@)),
        }
    }
}

/// The line of the report for a class that is depended on.
pub open spec fn class_line(name: Seq<char>) -> Seq<char> {
    "\tClass "@ + name + "\n"@
}

/// The lines of the report for the classes, in their order.
pub open spec fn class_lines(classes: Seq<Seq<char>>) -> Seq<char>
    decreases classes.len(),
{
    if classes.len() == 0 {
        Seq::empty()
    } else {
        class_lines(classes.drop_last()) + class_line(classes.last())
    }
}

/// The line of the report for a method that is depended on; `prefix` tells
/// its kind.
pub open spec fn method_line(prefix: Seq<char>, method: (Seq<char>, Seq<char>)) -> Seq<char> {
    "\t"@ + prefix + " "@ + method.0 + "#"@ + method.1 + "\n"@
}

/// The lines of the report for the methods, in their order.
pub open spec fn method_lines(prefix: Seq<char>, methods: Seq<(Seq<char>, Seq<char>)>) -> Seq<char>
    decreases methods.len(),
{
    if methods.len() == 0 {
        Seq::empty()
    } else {
        method_lines(prefix, methods.drop_last()) + method_line(prefix, methods.last())
    }
}

/// The names of `src` whose mark is set, in their order.
fn select_names(src: &Vec<String>, keep: &Vec<bool>) -> (r: Vec<String>)
    requires
        ascending(names_of(src@)),
        keep@.len() == src@.len(),
    ensures
        ascending(names_of(r@)),
        forall|x: Seq<char>| #[trigger]
            names_of(r@).contains(x) <==> exists|q: int|
                0 <= q < src@.len() && keep@[q] && #[trigger] names_of(src@)[q] == x,
{
    let ghost s = names_of(src@);
    let mut r: Vec<String> = Vec::new();
    let mut k: usize = 0;
    while k < src.len()
        invariant
            k <= src@.len(),
            keep@.len() == src@.len(),
            s == names_of(src@),
            ascending(s),
            ascending(names_of(r@)),
            forall|a: int, q: int|
                0 <= a < r@.len() && k <= q < s.len() ==> name_lt(
                    #[trigger] names_of(r@)[a],
                    #[trigger] s[q],
                ),
            forall|x: Seq<char>| #[trigger]
                names_of(r@).contains(x) <==> exists|q: int|
                    0 <= q < k && keep@[q] && #[trigger] s[q] == x,
        decreases src@.len() - k,
    {
        if keep[k] {
            let ghost before = names_of(r@);
            r.push(src[k].clone());
            proof {
                let after = names_of(r@);
                assert(after =~= before.push(s[k as int]));
                assert forall|a: int, b: int| 0 <= a < b < after.len() implies name_lt(
                    #[trigger] after[a],
                    #[trigger] after[b],
                ) by {
                    if b < before.len() {
                        assert(after[a] == before[a] && after[b] == before[b]);
                    } else {
                        assert(after[a] == before[a]);
                    }
                }
                assert forall|a: int, q: int|
                    0 <= a < after.len() && k + 1 <= q < s.len() implies name_lt(
                    #[trigger] after[a],
                    #[trigger] s[q],
                ) by {
                    if a < before.len() {
                        assert(after[a] == before[a]);
                    }
                }
                assert forall|x: Seq<char>| #[trigger]
                    after.contains(x) <==> exists|q: int|
                        0 <= q < k + 1 && keep@[q] && #[trigger] s[q] == x by {
                    if after.contains(x) {
                        let a = choose|a: int| 0 <= a < after.len() && after[a] == x;
                        if a < before.len() {
                            assert(before[a] == x);
                            assert(before.contains(x));
                            let q = choose|q: int| 0 <= q < k && keep@[q] && #[trigger] s[q] == x;
                            assert(0 <= q < k + 1 && keep@[q] && s[q] == x);
                        } else {
                            assert(s[k as int] == x);
                        }
                    }
                    if exists|q: int| 0 <= q < k + 1 && keep@[q] && #[trigger] s[q] == x {
                        let q = choose|q: int| 0 <= q < k + 1 && keep@[q] && #[trigger] s[q] == x;
                        if q < k {
                            assert(before.contains(x));
                            let a = choose|a: int| 0 <= a < before.len() && before[a] == x;
                            assert(after[a] == x);
                        } else {
                            assert(after[before.len() as int] == x);
                        }
                    }
                }
            }
        } else {
            proof {
                let now = names_of(r@);
                assert forall|x: Seq<char>| #[trigger]
                    now.contains(x) <==> exists|q: int|
                        0 <= q < k + 1 && keep@[q] && #[trigger] s[q] == x by {
                    if now.contains(x) {
                        let q = choose|q: int| 0 <= q < k && keep@[q] && #[trigger] s[q] == x;
                        assert(0 <= q < k + 1 && keep@[q] && s[q] == x);
                    }
                }
            }
        }
        k += 1;
    }
    r
}

/// The pairs of `src` whose mark is set, in their order.
fn select_pairs(src: &Vec<(String, String)>, keep: &Vec<bool>) -> (r: Vec<(String, String)>)
    requires
        ascending_pairs(pairs_of(src@)),
        keep@.len() == src@.len(),
    ensures
        ascending_pairs(pairs_of(r@)),
        forall|x: (Seq<char>, Seq<char>)| #[trigger]
            pairs_of(r@).contains(x) <==> exists|q: int|
                0 <= q < src@.len() && keep@[q] && #[trigger] pairs_of(src@)[q] == x,
{
    let ghost s = pairs_of(src@);
    let mut r: Vec<(String, String)> = Vec::new();
    let mut k: usize = 0;
    while k < src.len()
        invariant
            k <= src@.len(),
            keep@.len() == src@.len(),
            s == pairs_of(src@),
            ascending_pairs(s),
            ascending_pairs(pairs_of(r@)),
            forall|a: int, q: int|
                0 <= a < r@.len() && k <= q < s.len() ==> pair_lt(
                    #[trigger] pairs_of(r@)[a],
                    #[trigger] s[q],
                ),
            forall|x: (Seq<char>, Seq<char>)| #[trigger]
                pairs_of(r@).contains(x) <==> exists|q: int|
                    0 <= q < k && keep@[q] && #[trigger] s[q] == x,
        decreases src@.len() - k,
    {
        if keep[k] {
            let ghost before = pairs_of(r@);
            r.push((src[k].0.clone(), src[k].1.clone()));
            proof {
                let after = pairs_of(r@);
                assert(after =~= before.push(s[k as int]));
                assert forall|a: int, b: int| 0 <= a < b < after.len() implies pair_lt(
                    #[trigger] after[a],
                    #[trigger] after[b],
                ) by {
                    if b < before.len() {
                        assert(after[a] == before[a] && after[b] == before[b]);
                    } else {
                        assert(after[a] == before[a]);
                    }
                }
                assert forall|a: int, q: int|
                    0 <= a < after.len() && k + 1 <= q < s.len() implies pair_lt(
                    #[trigger] after[a],
                    #[trigger] s[q],
                ) by {
                    if a < before.len() {
                        assert(after[a] == before[a]);
                    }
                }
                assert forall|x: (Seq<char>, Seq<char>)| #[trigger]
                    after.contains(x) <==> exists|q: int|
                        0 <= q < k + 1 && keep@[q] && #[trigger] s[q] == x by {
                    if after.contains(x) {
                        let a = choose|a: int| 0 <= a < after.len() && after[a] == x;
                        if a < before.len() {
                            assert(before[a] == x);
                            assert(before.contains(x));
                            let q = choose|q: int| 0 <= q < k && keep@[q] && #[trigger] s[q] == x;
                            assert(0 <= q < k + 1 && keep@[q] && s[q] == x);
                        } else {
                            assert(s[k as int] == x);
                        }
                    }
                    if exists|q: int| 0 <= q < k + 1 && keep@[q] && #[trigger] s[q] == x {
                        let q = choose|q: int| 0 <= q < k + 1 && keep@[q] && #[trigger] s[q] == x;
                        if q < k {
                            assert(before.contains(x));
                            let a = choose|a: int| 0 <= a < before.len() && before[a] == x;
                            assert(after[a] == x);
                        } else {
                            assert(after[before.len() as int] == x);
                        }
                    }
                }
            }
        } else {
            proof {
                let now = pairs_of(r@);
                assert forall|x: (Seq<char>, Seq<char>)| #[trigger]
                    now.contains(x) <==> exists|q: int|
                        0 <= q < k + 1 && keep@[q] && #[trigger] s[q] == x by {
                    if now.contains(x) {
                        let q = choose|q: int| 0 <= q < k && keep@[q] && #[trigger] s[q] == x;
                        assert(0 <= q < k + 1 && keep@[q] && s[q] == x);
                    }
                }
            }
        }
        k += 1;
    }
    r
}

/// The pairs of `src` but those of the owner `class` whose signature is
/// among `methods`.
fn without_methods(src: &Vec<(String, String)>, class: &str, methods: &Vec<String>) -> (r: Vec<
    (String, String),
>)
    requires
        ascending_pairs(pairs_of(src@)),
        ascending(names_of(methods@)),
    ensures
        ascending_pairs(pairs_of(r@)),
        pair_set(pairs_of(r@)) == pair_set(pairs_of(src@)).filter(
            |m: (Seq<char>, Seq<char>)| !(m.0 == class@ && names_of(methods@).contains(m.1)),
        ),
{
    let mut keep: Vec<bool> = Vec::new();
    let mut k: usize = 0;
    while k < src.len()
        invariant
            k <= src@.len(),
            keep@.len() == k,
            ascending(names_of(methods@)),
            forall|q: int|
                0 <= q < k ==> keep@[q] == !((#[trigger] pairs_of(src@)[q]).0 == class@ && names_of(
                    methods@,
                ).contains(pairs_of(src@)[q].1)),
        decreases src@.len() - k,
    {
        let met = same_name(src[k].0.as_str(), class) && find_name(methods, src[k].1.as_str()).0;
        keep.push(!met);
        k += 1;
    }
    let r = select_pairs(src, &keep);
    proof {
        let s = pairs_of(src@);
        let wanted = pair_set(s).filter(
            |m: (Seq<char>, Seq<char>)| !(m.0 == class@ && names_of(methods@).contains(m.1)),
        );
        assert forall|x: (Seq<char>, Seq<char>)| pair_set(pairs_of(r@)).contains(x)
            <==> wanted.contains(x) by {
            if pairs_of(r@).contains(x) {
                let q = choose|q: int| 0 <= q < src@.len() && keep@[q] && #[trigger] s[q] == x;
                assert(s.contains(x));
            }
            if wanted.contains(x) {
                let q = choose|q: int| 0 <= q < s.len() && s[q] == x;
                assert(keep@[q] && s[q] == x);
            }
        }
        assert(pair_set(pairs_of(r@)) =~= wanted);
    }
    r
}

/// The pairs of `src` but the methods that their owner has by the platform.
fn without_platform_methods(src: &Vec<(String, String)>, platform: &Platform) -> (r: Vec<
    (String, String),
>)
    requires
        ascending_pairs(pairs_of(src@)),
        platform.wf(),
    ensures
        ascending_pairs(pairs_of(r@)),
        pair_set(pairs_of(r@)) == pair_set(pairs_of(src@)).filter(
            |m: (Seq<char>, Seq<char>)| !provides(platform_hierarchy(platform@), m.0, m.1),
        ),
{
    let nothing = ClassPath::new();
    let mut search = Search::new(&nothing, platform);
    let mut keep: Vec<bool> = Vec::new();
    let mut k: usize = 0;
    while k < src.len()
        invariant
            k <= src@.len(),
            keep@.len() == k,
            platform.wf(),
            nothing.wf(),
            nothing@ == Map::<Seq<char>, crate::classpath::UserClassView>::empty(),
            search.fresh(&nothing, platform),
            forall|q: int|
                0 <= q < k ==> keep@[q] == !provides(
                    platform_hierarchy(platform@),
                    (#[trigger] pairs_of(src@)[q]).0,
                    pairs_of(src@)[q].1,
                ),
        decreases src@.len() - k,
    {
        let met = has_method_with(
            src[k].0.as_str(),
            src[k].1.as_str(),
            &nothing,
            platform,
            &mut search,
        );
        keep.push(!met);
        k += 1;
    }
    let r = select_pairs(src, &keep);
    proof {
        let s = pairs_of(src@);
        let wanted = pair_set(s).filter(
            |m: (Seq<char>, Seq<char>)| !provides(platform_hierarchy(platform@), m.0, m.1),
        );
        assert forall|x: (Seq<char>, Seq<char>)| pair_set(pairs_of(r@)).contains(x)
            <==> wanted.contains(x) by {
            if pairs_of(r@).contains(x) {
                let q = choose|q: int| 0 <= q < src@.len() && keep@[q] && #[trigger] s[q] == x;
                assert(s.contains(x));
            }
            if wanted.contains(x) {
                let q = choose|q: int| 0 <= q < s.len() && s[q] == x;
                assert(keep@[q] && s[q] == x);
            }
        }
        assert(pair_set(pairs_of(r@)) =~= wanted);
    }
    r
}

/// The pairs of a list as a set in ascending order.
fn sorted_pairs(list: &Vec<(String, String)>) -> (r: Vec<(String, String)>)
    ensures
        ascending_pairs(pairs_of(r@)),
        pair_set(pairs_of(r@)) == pair_set(pairs_of(list@)),
{
    let ghost s = pairs_of(list@);
    let mut r: Vec<(String, String)> = Vec::new();
    let mut k: usize = 0;
    while k < list.len()
        invariant
            k <= list@.len(),
            s == pairs_of(list@),
            ascending_pairs(pairs_of(r@)),
            forall|x: (Seq<char>, Seq<char>)| #[trigger]
                pairs_of(r@).contains(x) <==> s.take(k as int).contains(x),
        decreases list@.len() - k,
    {
        let ghost before = pairs_of(r@);
        insert_pair(&mut r, list[k].0.clone(), list[k].1.clone());
        proof {
            assert(s[k as int] == (list@[k as int].0@, list@[k as int].1@));
            assert forall|x: (Seq<char>, Seq<char>)| #[trigger]
                pairs_of(r@).contains(x) <==> s.take(k as int + 1).contains(x) by {
                let longer = s.take(k as int + 1);
                let shorter = s.take(k as int);
                assert(before.contains(x) <==> shorter.contains(x));
                if longer.contains(x) {
                    let q = choose|q: int| 0 <= q < longer.len() && longer[q] == x;
                    if q < k {
                        assert(shorter[q] == x);
                    }
                }
                if shorter.contains(x) {
                    let q = choose|q: int| 0 <= q < shorter.len() && shorter[q] == x;
                    assert(longer[q] == x);
                }
                assert(longer[k as int] == s[k as int]);
            }
        }
        k += 1;
    }
    proof {
        assert(s.take(s.len() as int) =~= s);
        assert(pair_set(pairs_of(r@)) =~= pair_set(s));
    }
    r
}

/// The names of a list as a set in ascending order.
fn sorted_names(list: &Vec<String>) -> (r: Vec<String>)
    ensures
        ascending(names_of(r@)),
        name_set(names_of(r@)) == name_set(names_of(list@)),
{
    let ghost s = names_of(list@);
    let mut r: Vec<String> = Vec::new();
    let mut k: usize = 0;
    while k < list.len()
        invariant
            k <= list@.len(),
            s == names_of(list@),
            ascending(names_of(r@)),
            forall|x: Seq<char>| #[trigger]
                names_of(r@).contains(x) <==> s.take(k as int).contains(x),
        decreases list@.len() - k,
    {
        let ghost before = names_of(r@);
        insert_name(&mut r, list[k].clone());
        proof {
            assert(s[k as int] == list@[k as int]@);
            assert forall|x: Seq<char>| #[trigger]
                names_of(r@).contains(x) <==> s.take(k as int + 1).contains(x) by {
                let longer = s.take(k as int + 1);
                let shorter = s.take(k as int);
                assert(before.contains(x) <==> shorter.contains(x));
                if longer.contains(x) {
                    let q = choose|q: int| 0 <= q < longer.len() && longer[q] == x;
                    if q < k {
                        assert(shorter[q] == x);
                    }
                }
                if shorter.contains(x) {
                    let q = choose|q: int| 0 <= q < shorter.len() && shorter[q] == x;
                    assert(longer[q] == x);
                }
                assert(longer[k as int] == s[k as int]);
            }
        }
        k += 1;
    }
    proof {
        assert(s.take(s.len() as int) =~= s);
        assert(name_set(names_of(r@)) =~= name_set(s));
    }
    r
}

/// The dependencies without what the platform provides: without the classes
/// that it has, and without the methods that their owner has by it.
pub open spec fn without_platform(
    dependencies: DependenciesView,
    platform: Map<Seq<char>, crate::classinfo::ClassInfoView>,
) -> DependenciesView {
    DependenciesView {
        name: dependencies.name,
        classes: dependencies.classes.filter(|c: Seq<char>| !platform.contains_key(c)),
        class_methods: dependencies.class_methods.filter(
            |m: (Seq<char>, Seq<char>)| !provides(platform_hierarchy(platform), m.0, m.1),
        ),
        iface_methods: dependencies.iface_methods.filter(
            |m: (Seq<char>, Seq<char>)| !provides(platform_hierarchy(platform), m.0, m.1),
        ),
    }
}

/// The dependencies without what the platform provides.
pub fn not_in_platform(dependencies: &ClassDependencies, java_classes: &Platform) -> (r:
    ClassDependencies)
    requires
        dependencies.wf(),
        java_classes.wf(),
    ensures
        r.wf(),
        r@ == without_platform(dependencies@, java_classes@),
{
    let ghost s = names_of(dependencies.classes@);
    let mut keep: Vec<bool> = Vec::new();
    let mut k: usize = 0;
    while k < dependencies.classes.len()
        invariant
            k <= dependencies.classes@.len(),
            keep@.len() == k,
            java_classes.wf(),
            s == names_of(dependencies.classes@),
            forall|q: int| 0 <= q < k ==> keep@[q] == !java_classes@.contains_key(#[trigger] s[q]),
        decreases dependencies.classes@.len() - k,
    {
        let met = java_classes.contains(dependencies.classes[k].as_str());
        keep.push(!met);
        k += 1;
    }
    let classes = select_names(&dependencies.classes, &keep);
    proof {
        let wanted = name_set(s).filter(|c: Seq<char>| !java_classes@.contains_key(c));
        assert forall|x: Seq<char>| name_set(names_of(classes@)).contains(x) <==> wanted.contains(
            x,
        ) by {
            if names_of(classes@).contains(x) {
                let q = choose|q: int|
                    0 <= q < dependencies.classes@.len() && keep@[q] && #[trigger] s[q] == x;
                assert(s.contains(x));
            }
            if wanted.contains(x) {
                let q = choose|q: int| 0 <= q < s.len() && s[q] == x;
                assert(keep@[q] && s[q] == x);
            }
        }
        assert(name_set(names_of(classes@)) =~= wanted);
    }
    ClassDependencies {
        name: dependencies.name.clone(),
        classes,
        class_methods: without_platform_methods(&dependencies.class_methods, java_classes),
        iface_methods: without_platform_methods(&dependencies.iface_methods, java_classes),
    }
}

impl ClassDependencies {
    /// Whether each of the three sets is kept in strictly ascending order.
    pub open spec fn wf(&self) -> bool {
        &&& ascending(names_of(self.classes@))
        &&& ascending_pairs(pairs_of(self.class_methods@))
        &&& ascending_pairs(pairs_of(self.iface_methods@))
    }

    /// The block of the report for the class: its name, then a line for each
    /// class, for each method of a class and for each method of an interface
    /// that it depends on.
    pub open spec fn spec_format(&self) -> Seq<char> {
        self.name@ + "\n"@ + class_lines(names_of(self.classes@)) + method_lines(
            "ClassMethod"@,
            pairs_of(self.class_methods@),
        ) + method_lines("IfaceMethod"@, pairs_of(self.iface_methods@))
    }

    /// The dependencies of a class before anything is looked up: all that
    /// it requires, each thing once.
    pub fn from(val: &ClassRequirements) -> (r: ClassDependencies)
        ensures
            r.wf(),
            r@ == all_required(val@),
    {
        ClassDependencies {
            name: val.name.clone(),
            classes: sorted_names(&val.classes),
            class_methods: sorted_pairs(&val.class_methods),
            iface_methods: sorted_pairs(&val.iface_methods),
        }
    }

    /// Takes a class out of the classes depended on.
    pub fn remove_class(&mut self, class: &str)
        requires
            old(self).wf(),
        ensures
            final(self).wf(),
            final(self)@.name == old(self)@.name,
            final(self)@.classes == old(self)@.classes.remove(class@),
            final(self)@.class_methods == old(self)@.class_methods,
            final(self)@.iface_methods == old(self)@.iface_methods,
    {
        let ghost before = names_of(self.classes@);
        let (found, at) = find_name(&self.classes, class);
        if found {
            proof {
                lemma_remove(before, at as int);
                assert(names_of(self.classes@.remove(at as int)) =~= before.remove(at as int));
            }
            let _ = self.classes.remove(at);
        }
        assert(name_set(names_of(self.classes@)) =~= name_set(before).remove(class@));
    }

    /// Takes the methods `methods` of the owner `class` out of the methods
    /// depended on: out of those of interfaces if `iface` is set, else out
    /// of those of classes.
    pub fn remove_methods(&mut self, class: &str, methods: &Vec<String>, iface: bool)
        requires
            old(self).wf(),
            ascending(names_of(methods@)),
        ensures
            final(self).wf(),
            final(self)@.name == old(self)@.name,
            final(self)@.classes == old(self)@.classes,
            final(self)@.class_methods == if iface {
                old(self)@.class_methods
            } else {
                old(self)@.class_methods.filter(
                    |m: (Seq<char>, Seq<char>)|
                        !(m.0 == class@ && names_of(methods@).contains(m.1)),
                )
            },
            final(self)@.iface_methods == if iface {
                old(self)@.iface_methods.filter(
                    |m: (Seq<char>, Seq<char>)|
                        !(m.0 == class@ && names_of(methods@).contains(m.1)),
                )
            } else {
                old(self)@.iface_methods
            },
    {
        if iface {
            self.iface_methods = without_methods(&self.iface_methods, class, methods);
        } else {
            self.class_methods = without_methods(&self.class_methods, class, methods);
        }
    }

    /// Takes out what the platform provides: the classes that it has, and
    /// the methods that their owner has by it.
    pub fn remove_java_classes_and_methods(&mut self, java_classes: &Platform)
        requires
            old(self).wf(),
            java_classes.wf(),
        ensures
            final(self).wf(),
            final(self)@ == without_platform(old(self)@, java_classes@),
    {
        let remaining = not_in_platform(self, java_classes);
        *self = remaining;
    }

    /// Whether the class `class` has the method `method` by the platform.
    pub fn provides_method(class: &str, method: &str, java_classes: &Platform) -> (r: bool)
        requires
            java_classes.wf(),
        ensures
            r == provides(platform_hierarchy(java_classes@), class@, method@),
    {
        let nothing = ClassPath::new();
        has_method(class, method, &nothing, java_classes)
    }

    /// Whether nothing is depended on.
    pub fn is_empty(&self) -> (r: bool)
        ensures
            r == self@.is_empty(),
    {
        let r = self.classes.len() == 0 && self.class_methods.len() == 0
            && self.iface_methods.len() == 0;
        proof {
            let c = names_of(self.classes@);
            let m = pairs_of(self.class_methods@);
            let i = pairs_of(self.iface_methods@);
            if c.len() > 0 {
                assert(c.contains(c[0]));
                assert(self@.classes.contains(c[0]));
            }
            if m.len() > 0 {
                assert(m.contains(m[0]));
                assert(self@.class_methods.contains(m[0]));
            }
            if i.len() > 0 {
                assert(i.contains(i[0]));
                assert(self@.iface_methods.contains(i[0]));
            }
        }
        r
    }

    /// The lines of the report for the methods, in their order.
    pub fn methods_to_str(sorted_methods: &Vec<(String, String)>, prefix: &str) -> (r: String)
        ensures
            r@ == method_lines(prefix@, pairs_of(sorted_methods@)),
    {
        let ghost s = pairs_of(sorted_methods@);
        let mut result = String::new();
        let mut k: usize = 0;
        while k < sorted_methods.len()
            invariant
                k <= sorted_methods@.len(),
                s == pairs_of(sorted_methods@),
                result@ == method_lines(prefix@, s.take(k as int)),
            decreases sorted_methods@.len() - k,
        {
            let ghost before = result@;
            result.append("\t");
            result.append(prefix);
            result.append(" ");
            result.append(sorted_methods[k].0.as_str());
            result.append("#");
            result.append(sorted_methods[k].1.as_str());
            result.append("\n");
            proof {
                let longer = s.take(k as int + 1);
                assert(longer.drop_last() =~= s.take(k as int));
                assert(longer.last() == s[k as int]);
                assert(result@ =~= before + method_line(prefix@, s[k as int]));
            }
            k += 1;
        }
        proof {
            assert(s.take(s.len() as int) =~= s);
        }
        result
    }

    /// The block of the report for the class.
    pub fn format(&self) -> (r: String)
        ensures
            r@ == self.spec_format(),
    {
        let ghost s = names_of(self.classes@);
        let mut result = self.name.clone();
        result.append("\n");
        let ghost head = result@;
        let mut k: usize = 0;
        while k < self.classes.len()
            invariant
                k <= self.classes@.len(),
                s == names_of(self.classes@),
                result@ == head + class_lines(s.take(k as int)),
            decreases self.classes@.len() - k,
        {
            let ghost before = result@;
            result.append("\tClass ");
            result.append(self.classes[k].as_str());
            result.append("\n");
            proof {
                let longer = s.take(k as int + 1);
                assert(longer.drop_last() =~= s.take(k as int));
                assert(longer.last() == s[k as int]);
                assert(result@ =~= before + class_line(s[k as int]));
                assert(result@ =~= head + class_lines(longer));
            }
            k += 1;
        }
        proof {
            assert(s.take(s.len() as int) =~= s);
        }
        let class_part = ClassDependencies::methods_to_str(&self.class_methods, "ClassMethod");
        result.append(class_part.as_str());
        let iface_part = ClassDependencies::methods_to_str(&self.iface_methods, "IfaceMethod");
        result.append(iface_part.as_str());
        result
    }
}

/// The blocks of a report, one after the other.
pub open spec fn spec_report(blocks: Seq<ClassDependencies>) -> Seq<char>
    decreases blocks.len(),
{
    if blocks.len() == 0 {
        Seq::empty()
    } else {
        spec_report(blocks.drop_last()) + blocks.last().spec_format()
    }
}

/// The report: the block of each class, in their order.
pub fn format(dep: &Vec<ClassDependencies>) -> (r: String)
    ensures
        r@ == spec_report(dep@),
{
    let mut result = String::new();
    let mut k: usize = 0;
    while k < dep.len()
        invariant
            k <= dep@.len(),
            result@ == spec_report(dep@.take(k as int)),
        decreases dep@.len() - k,
    {
        let block = dep[k].format();
        result.append(block.as_str());
        proof {
            let longer = dep@.take(k as int + 1);
            assert(longer.drop_last() =~= dep@.take(k as int));
            assert(longer.last() == dep@[k as int]);
        }
        k += 1;
    }
    proof {
        assert(dep@.take(dep@.len() as int) =~= dep@);
    }
    result
}

} // verus!
