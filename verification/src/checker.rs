//! The check: what each class of a class path refers to that neither the
//! class path nor the platform provides.

use crate::classinfo::ClassInfoView;
use crate::classpath::{ClassPath, UserClassView};
use crate::dependencies::{
    all_required, not_in_platform, without_platform, ClassDependencies, DependenciesView,
};
use crate::error::ParseError;
use crate::hierarchy::{collect_methods, hierarchy, platform_hierarchy, provides};
use crate::java_class::{Class, ClassView};
use crate::names::{ascending, name_lt, names_of, pairs_of};
use crate::platform::Platform;
use crate::requirements::RequirementsView;
use crate::sorted::insert_name;
use crate::table::NameMap;
use vstd::prelude::*;
use vstd::string::*;

verus! {

/// What a class of the class path provides: its name, the signatures of
/// the methods that it has by the hierarchy, in ascending order, and
/// whether it is an interface.
#[derive(Debug)]
pub struct MethodProvider {
    pub name: String,
    pub methods: Vec<String>,
    pub interface: bool,
}

/// Whether the name is that of a class of the class path that provides:
/// of one that is no module descriptor.
pub open spec fn is_provider(users: Map<Seq<char>, UserClassView>, name: Seq<char>) -> bool {
    users.contains_key(name) && !users[name].module
}

/// Whether a class that is referred to is unmet: the platform has no class
/// of the name, and no class of the class path provides under it.
pub open spec fn unmet_class(
    users: Map<Seq<char>, UserClassView>,
    platform: Map<Seq<char>, ClassInfoView>,
    class: Seq<char>,
) -> bool {
    !platform.contains_key(class) && !is_provider(users, class)
}

/// Whether a method that is referred to is unmet. `iface` tells whether
/// the reference is to a method of an interface. The method is met where
/// its owner has it by the platform, and where its owner is a class of the
/// class path that provides, that is an interface exactly if `iface` is
/// set, and that has the method by the hierarchy of class path and platform.
pub open spec fn unmet_method(
    users: Map<Seq<char>, UserClassView>,
    platform: Map<Seq<char>, ClassInfoView>,
    iface: bool,
    owner: Seq<char>,
    signature: Seq<char>,
) -> bool {
    &&& !provides(platform_hierarchy(platform), owner, signature)
    &&& !(is_provider(users, owner) && users[owner].interface == iface && provides(
        hierarchy(users, platform),
        owner,
        signature,
    ))
}

/// What of the requirements of a class is unmet.
pub open spec fn unmet(
    users: Map<Seq<char>, UserClassView>,
    platform: Map<Seq<char>, ClassInfoView>,
    requirements: RequirementsView,
) -> DependenciesView {
    DependenciesView {
        name: requirements.name,
        classes: Set::new(
            |c: Seq<char>| requirements.classes.contains(c) && unmet_class(users, platform, c),
        ),
        class_methods: Set::new(
            |m: (Seq<char>, Seq<char>)|
                requirements.class_methods.contains(m) && unmet_method(
                    users,
                    platform,
                    false,
                    m.0,
                    m.1,
                ),
        ),
        iface_methods: Set::new(
            |m: (Seq<char>, Seq<char>)|
                requirements.iface_methods.contains(m) && unmet_method(
                    users,
                    platform,
                    true,
                    m.0,
                    m.1,
                ),
        ),
    }
}

/// Whether the class of the name is one of the class path of whose
/// requirements something is unmet.
pub open spec fn reported(
    users: Map<Seq<char>, UserClassView>,
    platform: Map<Seq<char>, ClassInfoView>,
    name: Seq<char>,
) -> bool {
    users.contains_key(name) && !unmet(users, platform, users[name].requirements).is_empty()
}

/// Whether `report` is the result of the check: it holds, in the strictly
/// ascending order of their names, the classes of the class path of whose
/// requirements something is unmet, each with what is unmet.
pub open spec fn is_report(
    report: Seq<DependenciesView>,
    users: Map<Seq<char>, UserClassView>,
    platform: Map<Seq<char>, ClassInfoView>,
) -> bool {
    &&& forall|i: int, j: int|
        0 <= i < j < report.len() ==> name_lt((#[trigger] report[i]).name, (#[trigger] report[j]).name)
    &&& forall|i: int|
        0 <= i < report.len() ==> reported(users, platform, (#[trigger] report[i]).name)
            && report[i] == unmet(users, platform, users[report[i].name].requirements)
    &&& forall|name: Seq<char>| #[trigger]
        reported(users, platform, name) ==> exists|i: int|
            0 <= i < report.len() && (#[trigger] report[i]).name == name
}

/// The views of the blocks of a report.
pub open spec fn report_views(blocks: Seq<ClassDependencies>) -> Seq<DependenciesView> {
    Seq::new(blocks.len(), |i: int| blocks[i]@)
}

/// Whether a provider is what the class of the name provides.
pub open spec fn provider_ok(
    provider: MethodProvider,
    users: Map<Seq<char>, UserClassView>,
    platform: Map<Seq<char>, ClassInfoView>,
    name: Seq<char>,
) -> bool {
    &&& provider.name@ == name
    &&& provider.interface == users[name].interface
    &&& ascending(names_of(provider.methods@))
    &&& forall|s: Seq<char>| #[trigger]
        names_of(provider.methods@).contains(s) <==> provides(hierarchy(users, platform), name, s)
}

/// Whether the providers are those of the class path: one for each class
/// that is no module descriptor, under the name of the class.
pub open spec fn providers_ok(
    providers: &NameMap<MethodProvider>,
    users: Map<Seq<char>, UserClassView>,
    platform: Map<Seq<char>, ClassInfoView>,
) -> bool {
    &&& providers.wf()
    &&& forall|name: Seq<char>| #[trigger]
        providers.entries().contains_key(name) <==> is_provider(users, name)
    &&& forall|name: Seq<char>| #[trigger]
        providers.entries().contains_key(name) ==> provider_ok(
            providers.entries()[name],
            users,
            platform,
            name,
        )
}

impl ClassView {
    /// What the class provides, the class path and the platform being as
    /// they are: nothing if it is a module descriptor, else its name, the
    /// methods that the type of its name has by the hierarchy, and whether
    /// it is an interface.
    pub open spec fn provided_ok(
        self,
        provided: Option<MethodProvider>,
        users: Map<Seq<char>, UserClassView>,
        platform: Map<Seq<char>, ClassInfoView>,
    ) -> bool {
        match provided {
            None => self.is_module(),
            Some(provider) => {
                &&& !self.is_module()
                &&& self.name() == Ok::<Seq<char>, ParseError>(provider.name@)
                &&& provider.interface == self.is_interface()
                &&& ascending(names_of(provider.methods@))
                &&& forall|s: Seq<char>| #[trigger]
                    names_of(provider.methods@).contains(s) <==> provides(
                        hierarchy(users, platform),
                        provider.name@,
                        s,
                    )
            },
        }
    }
}

impl Class {
    /// What the class provides: nothing if it is a module descriptor; the
    /// error of its name where that cannot be read.
    pub fn get_provided(&self, classes: &ClassPath, java_classes: &Platform) -> (r: Result<
        Option<MethodProvider>,
        ParseError,
    >)
        requires
            classes.wf(),
            java_classes.wf(),
        ensures
            match r {
                Ok(provided) => self@.name() is Ok && self@.provided_ok(
                    provided,
                    classes@,
                    java_classes@,
                ),
                Err(e) => self@.name() == Err::<Seq<char>, ParseError>(e),
            },
    {
        let class_name = match self.get_name() {
            Ok(s) => s,
            Err(e) => {
                return Err(e);
            },
        };
        if self.is_module() {
            return Ok(None);
        }
        let methods = collect_methods(class_name, classes, java_classes);
        Ok(
            Some(
                MethodProvider {
                    name: String::from_str(class_name),
                    methods,
                    interface: self.is_interface(),
                },
            ),
        )
    }
}

/// What the classes of the class path provide, by their names. The result
/// is the same whether `parallel` is set or not.
pub fn get_provided(classes: &ClassPath, parallel: bool, java_classes: &Platform) -> (r: NameMap<
    MethodProvider,
>)
    requires
        classes.wf(),
        java_classes.wf(),
    ensures
        providers_ok(&r, classes@, java_classes@),
{
    let ghost users = classes@;
    let ghost platform = java_classes@;
    let mut providers: NameMap<MethodProvider> = NameMap::new();
    let n = classes.len();
    let mut i: usize = 0;
    while i < n
        invariant
            classes.wf(),
            java_classes.wf(),
            users == classes@,
            platform == java_classes@,
            n == classes.classes.keys@.len(),
            i <= n,
            providers.wf(),
            forall|name: Seq<char>| #[trigger]
                providers.entries().contains_key(name) ==> is_provider(users, name) && provider_ok(
                    providers.entries()[name],
                    users,
                    platform,
                    name,
                ),
            forall|q: int|
                0 <= q < i && !classes.classes.values@[q].module
                    ==> providers.entries().contains_key(#[trigger] classes.classes.key_seq()[q]),
        decreases n - i,
    {
        proof {
            classes.classes.lemma_index(i as int);
            assert(classes@.contains_key(classes.classes.key_seq()[i as int]));
            assert(classes@[classes.classes.key_seq()[i as int]] == classes.classes.values@[i as int]@);
        }
        let entry = &classes.classes.values[i];
        if !entry.module {
            let methods = collect_methods(entry.name.as_str(), classes, java_classes);
            let provider = MethodProvider {
                name: entry.name.clone(),
                methods,
                interface: entry.interface,
            };
            providers.insert(entry.name.clone(), provider);
        }
        i += 1;
    }
    proof {
        assert forall|name: Seq<char>| is_provider(users, name) implies #[trigger]
            providers.entries().contains_key(name) by {
            let q = classes.classes.index_of(name);
            classes.classes.lemma_index(q);
        }
    }
    providers
}

/// What the classes of the class path require, each thing once: for each
/// class, in the order of the names, its dependencies before anything is
/// looked up. The result is the same whether `parallel` is set or not.
pub fn get_consumed(classes: &ClassPath, parallel: bool) -> (r: Vec<ClassDependencies>)
    requires
        classes.wf(),
    ensures
        r@.len() == classes.classes.keys@.len(),
        forall|i: int|
            0 <= i < r@.len() ==> (#[trigger] r@[i]).wf() && r@[i]@ == all_required(
                classes.classes.values@[i]@.requirements,
            ),
{
    let mut result: Vec<ClassDependencies> = Vec::new();
    let n = classes.len();
    let mut i: usize = 0;
    while i < n
        invariant
            classes.wf(),
            n == classes.classes.keys@.len(),
            i <= n,
            result@.len() == i,
            forall|q: int|
                0 <= q < i ==> (#[trigger] result@[q]).wf() && result@[q]@ == all_required(
                    classes.classes.values@[q]@.requirements,
                ),
        decreases n - i,
    {
        result.push(ClassDependencies::from(&classes.classes.values[i].requirements));
        i += 1;
    }
    result
}

/// The dependencies without what the providers provide: without the
/// classes that have a provider, and without the methods that the provider
/// of their owner has, where the owner is an interface and the method is
/// one of an interface, or the owner is none and the method is none.
pub open spec fn without_provided(
    dependencies: DependenciesView,
    providers: Map<Seq<char>, MethodProvider>,
) -> DependenciesView {
    DependenciesView {
        name: dependencies.name,
        classes: dependencies.classes.filter(|c: Seq<char>| !providers.contains_key(c)),
        class_methods: dependencies.class_methods.filter(
            |m: (Seq<char>, Seq<char>)| !met_by(providers, false, m),
        ),
        iface_methods: dependencies.iface_methods.filter(
            |m: (Seq<char>, Seq<char>)| !met_by(providers, true, m),
        ),
    }
}

/// Whether the provider of the owner of a method has the method and is an
/// interface exactly if `iface` is set.
pub open spec fn met_by(
    providers: Map<Seq<char>, MethodProvider>,
    iface: bool,
    method: (Seq<char>, Seq<char>),
) -> bool {
    providers.contains_key(method.0) && providers[method.0].interface == iface && names_of(
        providers[method.0].methods@,
    ).contains(method.1)
}

/// The names that the dependencies mention: the classes and the owners of
/// the methods, in ascending order.
fn mentioned(dependencies: &ClassDependencies) -> (r: Vec<String>)
    ensures
        ascending(names_of(r@)),
        forall|c: Seq<char>| dependencies@.classes.contains(c) ==> names_of(r@).contains(c),
        forall|m: (Seq<char>, Seq<char>)|
            dependencies@.class_methods.contains(m) ==> names_of(r@).contains(m.0),
        forall|m: (Seq<char>, Seq<char>)|
            dependencies@.iface_methods.contains(m) ==> names_of(r@).contains(m.0),
{
    let mut result: Vec<String> = Vec::new();
    let ghost classes = names_of(dependencies.classes@);
    let mut k: usize = 0;
    while k < dependencies.classes.len()
        invariant
            k <= dependencies.classes@.len(),
            classes == names_of(dependencies.classes@),
            ascending(names_of(result@)),
            forall|q: int| 0 <= q < k ==> names_of(result@).contains(#[trigger] classes[q]),
        decreases dependencies.classes@.len() - k,
    {
        let ghost before = names_of(result@);
        insert_name(&mut result, dependencies.classes[k].clone());
        proof {
            assert(classes[k as int] == dependencies.classes@[k as int]@);
            assert forall|q: int| 0 <= q < k + 1 implies names_of(result@).contains(
                #[trigger] classes[q],
            ) by {
                if q < k {
                    assert(before.contains(classes[q]));
                }
            }
        }
        k += 1;
    }
    let ghost class_methods = pairs_of(dependencies.class_methods@);
    let mut k: usize = 0;
    while k < dependencies.class_methods.len()
        invariant
            k <= dependencies.class_methods@.len(),
            classes == names_of(dependencies.classes@),
            class_methods == pairs_of(dependencies.class_methods@),
            ascending(names_of(result@)),
            forall|q: int| 0 <= q < classes.len() ==> names_of(result@).contains(#[trigger] classes[q]),
            forall|q: int|
                0 <= q < k ==> names_of(result@).contains((#[trigger] class_methods[q]).0),
        decreases dependencies.class_methods@.len() - k,
    {
        let ghost before = names_of(result@);
        insert_name(&mut result, dependencies.class_methods[k].0.clone());
        proof {
            assert(class_methods[k as int].0 == dependencies.class_methods@[k as int].0@);
            assert forall|q: int| 0 <= q < classes.len() implies names_of(result@).contains(
                #[trigger] classes[q],
            ) by {
                assert(before.contains(classes[q]));
            }
            assert forall|q: int| 0 <= q < k + 1 implies names_of(result@).contains(
                (#[trigger] class_methods[q]).0,
            ) by {
                if q < k {
                    assert(before.contains(class_methods[q].0));
                }
            }
        }
        k += 1;
    }
    let ghost iface_methods = pairs_of(dependencies.iface_methods@);
    let mut k: usize = 0;
    while k < dependencies.iface_methods.len()
        invariant
            k <= dependencies.iface_methods@.len(),
            classes == names_of(dependencies.classes@),
            class_methods == pairs_of(dependencies.class_methods@),
            iface_methods == pairs_of(dependencies.iface_methods@),
            ascending(names_of(result@)),
            forall|q: int| 0 <= q < classes.len() ==> names_of(result@).contains(#[trigger] classes[q]),
            forall|q: int|
                0 <= q < class_methods.len() ==> names_of(result@).contains(
                    (#[trigger] class_methods[q]).0,
                ),
            forall|q: int|
                0 <= q < k ==> names_of(result@).contains((#[trigger] iface_methods[q]).0),
        decreases dependencies.iface_methods@.len() - k,
    {
        let ghost before = names_of(result@);
        insert_name(&mut result, dependencies.iface_methods[k].0.clone());
        proof {
            assert(iface_methods[k as int].0 == dependencies.iface_methods@[k as int].0@);
            assert forall|q: int| 0 <= q < classes.len() implies names_of(result@).contains(
                #[trigger] classes[q],
            ) by {
                assert(before.contains(classes[q]));
            }
            assert forall|q: int| 0 <= q < class_methods.len() implies names_of(result@).contains(
                (#[trigger] class_methods[q]).0,
            ) by {
                assert(before.contains(class_methods[q].0));
            }
            assert forall|q: int| 0 <= q < k + 1 implies names_of(result@).contains(
                (#[trigger] iface_methods[q]).0,
            ) by {
                if q < k {
                    assert(before.contains(iface_methods[q].0));
                }
            }
        }
        k += 1;
    }
    proof {
        assert forall|c: Seq<char>| dependencies@.classes.contains(c) implies names_of(
            result@,
        ).contains(c) by {
            let q = choose|q: int| 0 <= q < classes.len() && classes[q] == c;
            assert(names_of(result@).contains(classes[q]));
        }
        assert forall|m: (Seq<char>, Seq<char>)|
            dependencies@.class_methods.contains(m) implies names_of(result@).contains(m.0) by {
            let q = choose|q: int| 0 <= q < class_methods.len() && class_methods[q] == m;
            assert(names_of(result@).contains(class_methods[q].0));
        }
        assert forall|m: (Seq<char>, Seq<char>)|
            dependencies@.iface_methods.contains(m) implies names_of(result@).contains(m.0) by {
            let q = choose|q: int| 0 <= q < iface_methods.len() && iface_methods[q] == m;
            assert(names_of(result@).contains(iface_methods[q].0));
        }
    }
    result
}

/// The dependencies without what the providers among the first `k` of
/// `names` provide.
pub open spec fn without_some(
    dependencies: DependenciesView,
    providers: Map<Seq<char>, MethodProvider>,
    names: Seq<Seq<char>>,
    k: int,
) -> DependenciesView {
    DependenciesView {
        name: dependencies.name,
        classes: dependencies.classes.filter(
            |c: Seq<char>| !(providers.contains_key(c) && names.take(k).contains(c)),
        ),
        class_methods: dependencies.class_methods.filter(
            |m: (Seq<char>, Seq<char>)|
                !(met_by(providers, false, m) && names.take(k).contains(m.0)),
        ),
        iface_methods: dependencies.iface_methods.filter(
            |m: (Seq<char>, Seq<char>)|
                !(met_by(providers, true, m) && names.take(k).contains(m.0)),
        ),
    }
}

proof fn lemma_take_one_more(names: Seq<Seq<char>>, k: int, x: Seq<char>)
    requires
        0 <= k < names.len(),
    ensures
        names.take(k + 1).contains(x) <==> (names.take(k).contains(x) || x == names[k]),
{
    let longer = names.take(k + 1);
    let shorter = names.take(k);
    if longer.contains(x) {
        let q = choose|q: int| 0 <= q < longer.len() && longer[q] == x;
        if q < k {
            assert(shorter[q] == x);
        }
    }
    if shorter.contains(x) {
        let q = choose|q: int| 0 <= q < shorter.len() && shorter[q] == x;
        assert(longer[q] == x);
    }
    assert(longer[k] == names[k]);
}

/// Takes out of the dependencies what the providers provide.
pub fn remove_provided(dependencies: &mut ClassDependencies, providers: &NameMap<MethodProvider>)
    requires
        old(dependencies).wf(),
        providers.wf(),
        forall|name: Seq<char>| #[trigger]
            providers.entries().contains_key(name) ==> ascending(
                names_of(providers.entries()[name].methods@),
            ),
    ensures
        final(dependencies).wf(),
        final(dependencies)@ == without_provided(old(dependencies)@, providers.entries()),
{
    let ghost start = dependencies@;
    let ghost table = providers.entries();
    let names = mentioned(dependencies);
    let ghost all = names_of(names@);
    proof {
        assert(all.take(0) =~= Seq::<Seq<char>>::empty());
        assert(dependencies@.classes =~= without_some(start, table, all, 0).classes);
        assert(dependencies@.class_methods =~= without_some(start, table, all, 0).class_methods);
        assert(dependencies@.iface_methods =~= without_some(start, table, all, 0).iface_methods);
    }
    let mut k: usize = 0;
    while k < names.len()
        invariant
            k <= names@.len(),
            all == names_of(names@),
            table == providers.entries(),
            providers.wf(),
            forall|name: Seq<char>| #[trigger]
                table.contains_key(name) ==> ascending(names_of(table[name].methods@)),
            dependencies.wf(),
            dependencies@ == without_some(start, table, all, k as int),
        decreases names@.len() - k,
    {
        let ghost current = all[k as int];
        let ghost before = dependencies@;
        assert(current == names@[k as int]@);
        match providers.find(names[k].as_str()) {
            Some(i) => {
                let provider = &providers.values[i];
                dependencies.remove_class(names[k].as_str());
                dependencies.remove_methods(names[k].as_str(), &provider.methods, provider.interface);
                proof {
                    let next = without_some(start, table, all, k as int + 1);
                    assert(table[current] == *provider);
                    assert forall|c: Seq<char>| dependencies@.classes.contains(c)
                        <==> next.classes.contains(c) by {
                        lemma_take_one_more(all, k as int, c);
                    }
                    assert(dependencies@.classes =~= next.classes);
                    assert forall|m: (Seq<char>, Seq<char>)|
                        dependencies@.class_methods.contains(m) <==> next.class_methods.contains(
                            m,
                        ) by {
                        lemma_take_one_more(all, k as int, m.0);
                    }
                    assert(dependencies@.class_methods =~= next.class_methods);
                    assert forall|m: (Seq<char>, Seq<char>)|
                        dependencies@.iface_methods.contains(m) <==> next.iface_methods.contains(
                            m,
                        ) by {
                        lemma_take_one_more(all, k as int, m.0);
                    }
                    assert(dependencies@.iface_methods =~= next.iface_methods);
                }
            },
            None => {
                proof {
                    let next = without_some(start, table, all, k as int + 1);
                    assert forall|c: Seq<char>| dependencies@.classes.contains(c)
                        <==> next.classes.contains(c) by {
                        lemma_take_one_more(all, k as int, c);
                    }
                    assert(dependencies@.classes =~= next.classes);
                    assert forall|m: (Seq<char>, Seq<char>)|
                        dependencies@.class_methods.contains(m) <==> next.class_methods.contains(
                            m,
                        ) by {
                        lemma_take_one_more(all, k as int, m.0);
                    }
                    assert(dependencies@.class_methods =~= next.class_methods);
                    assert forall|m: (Seq<char>, Seq<char>)|
                        dependencies@.iface_methods.contains(m) <==> next.iface_methods.contains(
                            m,
                        ) by {
                        lemma_take_one_more(all, k as int, m.0);
                    }
                    assert(dependencies@.iface_methods =~= next.iface_methods);
                }
            },
        }
        k += 1;
    }
    proof {
        assert(all.take(all.len() as int) =~= all);
        let wanted = without_provided(start, table);
        assert(dependencies@.classes =~= wanted.classes);
        assert(dependencies@.class_methods =~= wanted.class_methods);
        assert(dependencies@.iface_methods =~= wanted.iface_methods);
    }
}

/// What is left of all that a class requires, once what the platform
/// provides and what the providers of the class path provide is taken out,
/// is what is unmet of its requirements.
pub proof fn lemma_resolution(
    requirements: RequirementsView,
    providers: &NameMap<MethodProvider>,
    users: Map<Seq<char>, UserClassView>,
    platform: Map<Seq<char>, ClassInfoView>,
)
    requires
        providers_ok(providers, users, platform),
    ensures
        without_provided(without_platform(all_required(requirements), platform), providers.entries())
            == unmet(users, platform, requirements),
{
    let table = providers.entries();
    let left = without_provided(without_platform(all_required(requirements), platform), table);
    let wanted = unmet(users, platform, requirements);
    assert forall|m: (Seq<char>, Seq<char>)|
        met_by(table, false, m) <==> (is_provider(users, m.0) && users[m.0].interface == false
            && provides(hierarchy(users, platform), m.0, m.1)) by {
        if table.contains_key(m.0) {
            assert(provider_ok(table[m.0], users, platform, m.0));
        }
    }
    assert forall|m: (Seq<char>, Seq<char>)|
        met_by(table, true, m) <==> (is_provider(users, m.0) && users[m.0].interface == true
            && provides(hierarchy(users, platform), m.0, m.1)) by {
        if table.contains_key(m.0) {
            assert(provider_ok(table[m.0], users, platform, m.0));
        }
    }
    assert(left.classes =~= wanted.classes);
    assert(left.class_methods =~= wanted.class_methods);
    assert(left.iface_methods =~= wanted.iface_methods);
}

/// Checks the classes of a class path against each other and against the
/// platform: the result holds, in the ascending order of their names, the
/// classes to which something that they refer to is unmet, each with what
/// is unmet. The result is the same whether `parallel` is set or not.
pub fn check_classes(classes: &ClassPath, parallel: bool, java_classes: &Platform) -> (r: Vec<
    ClassDependencies,
>)
    requires
        classes.wf(),
        java_classes.wf(),
    ensures
        forall|i: int| 0 <= i < r@.len() ==> (#[trigger] r@[i]).wf(),
        is_report(report_views(r@), classes@, java_classes@),
{
    let ghost users = classes@;
    let ghost platform = java_classes@;
    let ghost keys = classes.classes.key_seq();
    let providers = get_provided(classes, parallel, java_classes);
    let dependencies = get_consumed(classes, parallel);
    let mut result: Vec<ClassDependencies> = Vec::new();
    let n = classes.len();
    let mut i: usize = 0;
    while i < n
        invariant
            classes.wf(),
            java_classes.wf(),
            users == classes@,
            platform == java_classes@,
            keys == classes.classes.key_seq(),
            n == classes.classes.keys@.len(),
            i <= n,
            providers_ok(&providers, users, platform),
            dependencies@.len() == n,
            forall|q: int|
                0 <= q < n ==> (#[trigger] dependencies@[q]).wf() && dependencies@[q]@
                    == all_required(classes.classes.values@[q]@.requirements),
            forall|a: int| 0 <= a < result@.len() ==> (#[trigger] result@[a]).wf(),
            forall|a: int, b: int|
                0 <= a < b < result@.len() ==> name_lt(
                    (#[trigger] result@[a])@.name,
                    (#[trigger] result@[b])@.name,
                ),
            forall|a: int, q: int|
                0 <= a < result@.len() && i <= q < n ==> name_lt(
                    (#[trigger] result@[a])@.name,
                    #[trigger] keys[q],
                ),
            forall|a: int|
                0 <= a < result@.len() ==> reported(users, platform, (#[trigger] result@[a])@.name)
                    && result@[a]@ == unmet(
                    users,
                    platform,
                    users[result@[a]@.name].requirements,
                ),
            forall|q: int|
                0 <= q < i && reported(users, platform, #[trigger] keys[q]) ==> exists|a: int|
                    0 <= a < result@.len() && (#[trigger] result@[a])@.name == keys[q],
        decreases n - i,
    {
        proof {
            classes.classes.lemma_index(i as int);
            assert(users.contains_key(keys[i as int]));
            assert(users[keys[i as int]] == classes.classes.values@[i as int]@);
        }
        let ghost requirements = classes.classes.values@[i as int]@.requirements;
        let mut remaining = not_in_platform(&dependencies[i], java_classes);
        remove_provided(&mut remaining, &providers);
        proof {
            lemma_resolution(requirements, &providers, users, platform);
            assert(users[keys[i as int]] == classes.classes.values@[i as int]@);
            assert(remaining@.name == keys[i as int]);
        }
        let ghost before = result@;
        if !remaining.is_empty() {
            result.push(remaining);
            proof {
                let last = before.len() as int;
                assert forall|a: int, b: int| 0 <= a < b < result@.len() implies name_lt(
                    (#[trigger] result@[a])@.name,
                    (#[trigger] result@[b])@.name,
                ) by {
                    if b < last {
                        assert(result@[a] == before[a] && result@[b] == before[b]);
                    } else {
                        assert(result@[a] == before[a]);
                    }
                }
                assert forall|a: int, q: int|
                    0 <= a < result@.len() && i + 1 <= q < n implies name_lt(
                    (#[trigger] result@[a])@.name,
                    #[trigger] keys[q],
                ) by {
                    if a < last {
                        assert(result@[a] == before[a]);
                    }
                }
                assert forall|q: int|
                    0 <= q < i + 1 && reported(users, platform, #[trigger] keys[q]) implies exists|
                    a: int,
                |
                    0 <= a < result@.len() && (#[trigger] result@[a])@.name == keys[q] by {
                    if q < i {
                        let a = choose|a: int|
                            0 <= a < before.len() && (#[trigger] before[a])@.name == keys[q];
                        assert(result@[a]@.name == keys[q]);
                    } else {
                        assert(result@[last]@.name == keys[q]);
                    }
                }
            }
        }
        i += 1;
    }
    proof {
        let report = report_views(result@);
        assert forall|name: Seq<char>| #[trigger] reported(users, platform, name) implies exists|
            a: int,
        | 0 <= a < report.len() && (#[trigger] report[a]).name == name by {
            let q = classes.classes.index_of(name);
            classes.classes.lemma_index(q);
            assert(keys[q] == name);
            let a = choose|a: int| 0 <= a < result@.len() && (#[trigger] result@[a])@.name == keys[q];
            assert(report[a].name == name);
        }
        assert forall|a: int| 0 <= a < report.len() implies reported(
            users,
            platform,
            (#[trigger] report[a]).name,
        ) && report[a] == unmet(users, platform, users[report[a].name].requirements) by {
            assert(report[a] == result@[a]@);
        }
        assert forall|a: int, b: int| 0 <= a < b < report.len() implies name_lt(
            (#[trigger] report[a]).name,
            (#[trigger] report[b]).name,
        ) by {
            assert(report[a] == result@[a]@ && report[b] == result@[b]@);
        }
    }
    result
}

} // verus!
