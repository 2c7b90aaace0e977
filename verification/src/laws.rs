//! What holds of every result of the check.

use crate::checker::{
    is_provider, is_report, report_views, reported, unmet, unmet_class, unmet_method,
};
use crate::classinfo::ClassInfoView;
use crate::classpath::{consistent, UserClassView};
use crate::dependencies::{name_set, pair_set, spec_report, ClassDependencies, DependenciesView};
use crate::error::ParseError;
use crate::hierarchy::{hierarchy, lemma_provides_grows, platform_hierarchy, provides};
use crate::java_class::{ClassView, EntryView};
use crate::names::{name_lt, names_of, pairs_of};
use crate::requirements::{element_type, is_primitive, RequirementsView};
use crate::sorted::{lemma_ascending_pairs_unique, lemma_ascending_unique};
use vstd::prelude::*;

verus! {

/// A method that is reported of a class is one that its owner does not
/// have by the platform, and one that its owner, if it is a class of the
/// class path that provides and is of the kind that the reference asks
/// for, does not have by the hierarchy.
pub proof fn law_reported_methods_are_unmet(
    report: Seq<DependenciesView>,
    users: Map<Seq<char>, UserClassView>,
    platform: Map<Seq<char>, ClassInfoView>,
    i: int,
    owner: Seq<char>,
    signature: Seq<char>,
)
    requires
        is_report(report, users, platform),
        0 <= i < report.len(),
        report[i].class_methods.contains((owner, signature)) || report[i].iface_methods.contains(
            (owner, signature),
        ),
    ensures
        !provides(platform_hierarchy(platform), owner, signature),
        report[i].class_methods.contains((owner, signature)) ==> unmet_method(
            users,
            platform,
            false,
            owner,
            signature,
        ),
        report[i].iface_methods.contains((owner, signature)) ==> unmet_method(
            users,
            platform,
            true,
            owner,
            signature,
        ),
{
}

/// A method that is reported of a class is one that neither the platform
/// nor the class path provides, where the owner, if it is a class of the
/// class path, is no module descriptor and is of the kind that the
/// reference asks for: an interface for a method of an interface, and none
/// for a method of a class.
pub proof fn law_reported_methods_have_no_provider(
    report: Seq<DependenciesView>,
    users: Map<Seq<char>, UserClassView>,
    platform: Map<Seq<char>, ClassInfoView>,
    i: int,
    owner: Seq<char>,
    signature: Seq<char>,
)
    requires
        is_report(report, users, platform),
        0 <= i < report.len(),
        report[i].class_methods.contains((owner, signature)) || report[i].iface_methods.contains(
            (owner, signature),
        ),
        users.contains_key(owner) ==> !users[owner].module,
        users.contains_key(owner) && report[i].class_methods.contains((owner, signature))
            ==> !users[owner].interface,
        users.contains_key(owner) && report[i].iface_methods.contains((owner, signature))
            ==> users[owner].interface,
    ensures
        !provides(platform_hierarchy(platform), owner, signature),
        !(users.contains_key(owner) && provides(hierarchy(users, platform), owner, signature)),
{
}

/// A class that is reported of a class is one that the platform does not
/// have and under whose name no class of the class path provides: the class
/// path has no class of that name but, at most, a module descriptor.
pub proof fn law_reported_classes_are_unmet(
    report: Seq<DependenciesView>,
    users: Map<Seq<char>, UserClassView>,
    platform: Map<Seq<char>, ClassInfoView>,
    i: int,
    class: Seq<char>,
)
    requires
        is_report(report, users, platform),
        0 <= i < report.len(),
        report[i].classes.contains(class),
    ensures
        !platform.contains_key(class),
        !is_provider(users, class),
        users.contains_key(class) ==> users[class].module,
{
}

/// No class is reported of which nothing is unmet.
pub proof fn law_no_block_is_empty(
    report: Seq<DependenciesView>,
    users: Map<Seq<char>, UserClassView>,
    platform: Map<Seq<char>, ClassInfoView>,
    i: int,
)
    requires
        is_report(report, users, platform),
        0 <= i < report.len(),
    ensures
        !report[i].is_empty(),
{
}

/// The result of the check is a function of the class path and the
/// platform: two results for the same class path and platform are the
/// same, however each was come by.
pub proof fn law_report_is_unique(
    first: Seq<DependenciesView>,
    second: Seq<DependenciesView>,
    users: Map<Seq<char>, UserClassView>,
    platform: Map<Seq<char>, ClassInfoView>,
)
    requires
        is_report(first, users, platform),
        is_report(second, users, platform),
    ensures
        first == second,
{
    let a = Seq::new(first.len(), |i: int| first[i].name);
    let b = Seq::new(second.len(), |i: int| second[i].name);
    assert forall|i: int, j: int| 0 <= i < j < a.len() implies name_lt(
        #[trigger] a[i],
        #[trigger] a[j],
    ) by {
        assert(name_lt(first[i].name, first[j].name));
    }
    assert forall|i: int, j: int| 0 <= i < j < b.len() implies name_lt(
        #[trigger] b[i],
        #[trigger] b[j],
    ) by {
        assert(name_lt(second[i].name, second[j].name));
    }
    assert forall|x: Seq<char>| a.contains(x) <==> b.contains(x) by {
        if a.contains(x) {
            let i = choose|i: int| 0 <= i < a.len() && a[i] == x;
            assert(reported(users, platform, first[i].name));
            let j = choose|j: int| 0 <= j < second.len() && (#[trigger] second[j]).name == x;
            assert(b[j] == x);
        }
        if b.contains(x) {
            let i = choose|i: int| 0 <= i < b.len() && b[i] == x;
            assert(reported(users, platform, second[i].name));
            let j = choose|j: int| 0 <= j < first.len() && (#[trigger] first[j]).name == x;
            assert(a[j] == x);
        }
    }
    lemma_ascending_unique(a, b);
    assert forall|i: int| 0 <= i < first.len() implies first[i] == second[i] by {
        assert(a[i] == b[i]);
        assert(first[i].name == second[i].name);
    }
    assert(first =~= second);
}

/// Two sets of dependencies that are in order and hold the same hold it at
/// the same places, and their blocks of the report are the same.
pub proof fn law_dependencies_have_one_form(first: ClassDependencies, second: ClassDependencies)
    requires
        first.wf(),
        second.wf(),
        first@ == second@,
    ensures
        names_of(first.classes@) == names_of(second.classes@),
        pairs_of(first.class_methods@) == pairs_of(second.class_methods@),
        pairs_of(first.iface_methods@) == pairs_of(second.iface_methods@),
        first.spec_format() == second.spec_format(),
{
    assert forall|x: Seq<char>|
        names_of(first.classes@).contains(x) <==> names_of(second.classes@).contains(x) by {
        assert(name_set(names_of(first.classes@)).contains(x) == name_set(
            names_of(second.classes@),
        ).contains(x));
    }
    lemma_ascending_unique(names_of(first.classes@), names_of(second.classes@));
    assert forall|x: (Seq<char>, Seq<char>)|
        pairs_of(first.class_methods@).contains(x) <==> pairs_of(second.class_methods@).contains(
            x,
        ) by {
        assert(pair_set(pairs_of(first.class_methods@)).contains(x) == pair_set(
            pairs_of(second.class_methods@),
        ).contains(x));
    }
    lemma_ascending_pairs_unique(pairs_of(first.class_methods@), pairs_of(second.class_methods@));
    assert forall|x: (Seq<char>, Seq<char>)|
        pairs_of(first.iface_methods@).contains(x) <==> pairs_of(second.iface_methods@).contains(
            x,
        ) by {
        assert(pair_set(pairs_of(first.iface_methods@)).contains(x) == pair_set(
            pairs_of(second.iface_methods@),
        ).contains(x));
    }
    lemma_ascending_pairs_unique(pairs_of(first.iface_methods@), pairs_of(second.iface_methods@));
}

proof fn lemma_same_blocks_same_text(first: Seq<ClassDependencies>, second: Seq<ClassDependencies>)
    requires
        first.len() == second.len(),
        forall|i: int| 0 <= i < first.len() ==> first[i].spec_format() == second[i].spec_format(),
    ensures
        spec_report(first) == spec_report(second),
    decreases first.len(),
{
    if first.len() > 0 {
        lemma_same_blocks_same_text(first.drop_last(), second.drop_last());
    }
}

/// The text of the report is a function of the class path and the
/// platform: two results of the check for the same class path and platform
/// give the same text, byte for byte, however each was come by.
pub proof fn law_report_text_is_unique(
    first: Seq<ClassDependencies>,
    second: Seq<ClassDependencies>,
    users: Map<Seq<char>, UserClassView>,
    platform: Map<Seq<char>, ClassInfoView>,
)
    requires
        forall|i: int| 0 <= i < first.len() ==> (#[trigger] first[i]).wf(),
        forall|i: int| 0 <= i < second.len() ==> (#[trigger] second[i]).wf(),
        is_report(report_views(first), users, platform),
        is_report(report_views(second), users, platform),
    ensures
        spec_report(first) == spec_report(second),
{
    law_report_is_unique(report_views(first), report_views(second), users, platform);
    assert(first.len() == report_views(first).len());
    assert(second.len() == report_views(second).len());
    assert forall|i: int| 0 <= i < first.len() implies first[i].spec_format()
        == second[i].spec_format() by {
        assert(report_views(first)[i] == first[i]@);
        assert(report_views(second)[i] == second[i]@);
        law_dependencies_have_one_form(first[i], second[i]);
    }
    lemma_same_blocks_same_text(first, second);
}

/// Whether one map holds all that another holds, each thing as it is there.
pub open spec fn holds_all<V>(larger: Map<Seq<char>, V>, smaller: Map<Seq<char>, V>) -> bool {
    forall|name: Seq<char>| #[trigger]
        smaller.contains_key(name) ==> larger.contains_key(name) && larger[name] == smaller[name]
}

/// With more classes on the class path, or more classes in the platform,
/// nothing becomes unmet that was met, as long as no class that is new on
/// the class path bears the name of a class of the platform.
pub proof fn law_more_is_met(
    users: Map<Seq<char>, UserClassView>,
    platform: Map<Seq<char>, ClassInfoView>,
    more_users: Map<Seq<char>, UserClassView>,
    more_platform: Map<Seq<char>, ClassInfoView>,
    requirements: RequirementsView,
)
    requires
        holds_all(more_users, users),
        holds_all(more_platform, platform),
        forall|name: Seq<char>| #[trigger]
            more_users.contains_key(name) && !users.contains_key(name) ==> !platform.contains_key(
                name,
            ),
    ensures
        forall|c: Seq<char>| #[trigger]
            unmet_class(more_users, more_platform, c) ==> unmet_class(users, platform, c),
        forall|iface: bool, owner: Seq<char>, signature: Seq<char>| #[trigger]
            unmet_method(more_users, more_platform, iface, owner, signature) ==> unmet_method(
                users,
                platform,
                iface,
                owner,
                signature,
            ),
        unmet(more_users, more_platform, requirements).classes.subset_of(
            unmet(users, platform, requirements).classes,
        ),
        unmet(more_users, more_platform, requirements).class_methods.subset_of(
            unmet(users, platform, requirements).class_methods,
        ),
        unmet(more_users, more_platform, requirements).iface_methods.subset_of(
            unmet(users, platform, requirements).iface_methods,
        ),
{
    let h = hierarchy(users, platform);
    let more_h = hierarchy(more_users, more_platform);
    let p = platform_hierarchy(platform);
    let more_p = platform_hierarchy(more_platform);
    assert forall|name: Seq<char>| #[trigger] h.contains_key(name) implies more_h.contains_key(
        name,
    ) && more_h[name] == h[name] by {
        if users.contains_key(name) {
            assert(more_users.contains_key(name));
        } else {
            assert(platform.contains_key(name));
            assert(more_platform.contains_key(name));
        }
    }
    assert forall|name: Seq<char>| #[trigger] p.contains_key(name) implies more_p.contains_key(
        name,
    ) && more_p[name] == p[name] by {
        assert(platform.contains_key(name));
        assert(more_platform.contains_key(name));
    }
    assert forall|iface: bool, owner: Seq<char>, signature: Seq<char>| #[trigger]
        unmet_method(more_users, more_platform, iface, owner, signature) implies unmet_method(
        users,
        platform,
        iface,
        owner,
        signature,
    ) by {
        if provides(p, owner, signature) {
            lemma_provides_grows(p, more_p, owner, signature);
        }
        if is_provider(users, owner) && provides(h, owner, signature) {
            assert(users.contains_key(owner));
            lemma_provides_grows(h, more_h, owner, signature);
        }
    }
    assert forall|c: Seq<char>| #[trigger]
        unmet_class(more_users, more_platform, c) implies unmet_class(users, platform, c) by {
        if platform.contains_key(c) {
            assert(more_platform.contains_key(c));
        }
        if users.contains_key(c) {
            assert(more_users.contains_key(c));
        }
    }
}

/// On a class path that is in order, no module descriptor is reported and
/// none provides.
pub proof fn law_module_is_not_reported(
    report: Seq<DependenciesView>,
    users: Map<Seq<char>, UserClassView>,
    platform: Map<Seq<char>, ClassInfoView>,
    i: int,
)
    requires
        consistent(users),
        is_report(report, users, platform),
        0 <= i < report.len(),
    ensures
        users.contains_key(report[i].name),
        !users[report[i].name].module,
        forall|name: Seq<char>| #[trigger]
            users.contains_key(name) && users[name].module ==> !is_provider(users, name)
                && !reported(users, platform, name),
{
    assert forall|name: Seq<char>| #[trigger]
        users.contains_key(name) && users[name].module implies !is_provider(users, name)
        && !reported(users, platform, name) by {
        assert(unmet(users, platform, users[name].requirements).is_empty());
    }
    assert(reported(users, platform, report[i].name));
}

/// A module descriptor provides nothing, and nothing is required or
/// reported of it.
pub proof fn law_module_contributes_nothing(
    class: ClassView,
    users: Map<Seq<char>, UserClassView>,
    platform: Map<Seq<char>, ClassInfoView>,
)
    requires
        class.is_module(),
        class.user_class() is Ok,
    ensures
        class.user_class()->Ok_0.module,
        users.contains_key(class.user_class()->Ok_0.name) && users[class.user_class()->Ok_0.name]
            == class.user_class()->Ok_0 ==> !is_provider(users, class.user_class()->Ok_0.name)
            && !reported(users, platform, class.user_class()->Ok_0.name),
        unmet(users, platform, class.user_class()->Ok_0.requirements).is_empty(),
{
}

/// A class entry whose name stands for a primitive type, or for arrays of
/// one, makes the class require no class.
pub proof fn law_primitive_is_no_class(class: ClassView, j: int, name_index: u16)
    requires
        0 <= j < class.const_pool.len(),
        class.const_pool[j] == Some(EntryView::Class { name_index }),
        class.utf8(name_index) is Ok,
        is_primitive(element_type(class.utf8(name_index)->Ok_0)),
    ensures
        class.consumed_class(j) == Ok::<Option<Seq<char>>, ParseError>(None),
{
}

/// A reference to the method `clone()Ljava/lang/Object;` makes the class
/// require no method, whatever its owner.
pub proof fn law_clone_is_not_required(
    class: ClassView,
    class_index: u16,
    name_type_index: u16,
    name_index: u16,
    descriptor_index: u16,
)
    requires
        class.entry(name_type_index) == Some(EntryView::NameAndType { name_index, descriptor_index }),
        class.utf8(name_index) == Ok::<Seq<char>, ParseError>("clone"@),
        class.utf8(descriptor_index) == Ok::<Seq<char>, ParseError>("()Ljava/lang/Object;"@),
    ensures
        !(class.method_ref(class_index, name_type_index) matches Ok(Some(_))),
{
}

} // verus!
