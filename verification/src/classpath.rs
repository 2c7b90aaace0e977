//! The classes of a class path, each as what the checker reads of it.

use crate::error::ParseError;
use crate::java_class::{Class, ClassView};
use crate::names::names_of;
use crate::requirements::{ClassRequirements, RequirementsView};
use crate::table::NameMap;
use vstd::prelude::*;
use vstd::string::*;

verus! {

/// What the checker reads of a class of the class path: its name, the names
/// of its super class and of its interfaces, the signatures of the methods
/// that it declares, whether it is an interface or a module descriptor, and
/// what it requires. A module descriptor requires nothing.
#[derive(Debug)]
pub struct UserClass {
    pub name: String,
    pub super_class: Option<String>,
    pub interfaces: Vec<String>,
    pub methods: Vec<String>,
    pub interface: bool,
    pub module: bool,
    pub requirements: ClassRequirements,
}

/// What a class of the class path holds.
pub struct UserClassView {
    pub name: Seq<char>,
    pub super_class: Option<Seq<char>>,
    pub interfaces: Seq<Seq<char>>,
    pub methods: Seq<Seq<char>>,
    pub interface: bool,
    pub module: bool,
    pub requirements: RequirementsView,
}

impl View for UserClass {
    type V = UserClassView;

    open spec fn view(&self) -> UserClassView {
        UserClassView {
            name: self.name@,
            super_class: match self.super_class {
                Some(s) => Some(s@),
                None => None,
            },
            interfaces: names_of(self.interfaces@),
            methods: names_of(self.methods@),
            interface: self.interface,
            module: self.module,
            requirements: self.requirements@,
        }
    }
}

/// The error of the first of the results before `n` that is one.
pub open spec fn first_error(results: Seq<Result<Seq<char>, ParseError>>, n: int) -> Option<
    ParseError,
>
    decreases n,
{
    if n <= 0 {
        None
    } else {
        match first_error(results, n - 1) {
            Some(e) => Some(e),
            None => match results[n - 1] {
                Err(e) => Some(e),
                Ok(_) => None,
            },
        }
    }
}

/// What the results hold, where none is an error.
pub open spec fn values_of(results: Seq<Result<Seq<char>, ParseError>>) -> Seq<Seq<char>> {
    Seq::new(results.len(), |k: int| results[k]->Ok_0)
}

impl ClassView {
    /// The name of the super class: none where the index of the super class
    /// is 0.
    pub open spec fn super_name(self) -> Result<Option<Seq<char>>, ParseError> {
        if self.super_class_idx == 0 {
            Ok(None)
        } else {
            match self.class_name(self.super_class_idx) {
                Ok(name) => Ok(Some(name)),
                Err(e) => Err(e),
            }
        }
    }

    /// The names of the interfaces, each or why it cannot be read.
    pub open spec fn interface_results(self) -> Seq<Result<Seq<char>, ParseError>> {
        Seq::new(self.iface_indexes.len(), |k: int| self.class_name(self.iface_indexes[k]))
    }

    /// The signatures of the methods, each or why it cannot be read.
    pub open spec fn method_results(self) -> Seq<Result<Seq<char>, ParseError>> {
        Seq::new(self.methods.len(), |k: int| self.method_signature(k))
    }

    /// What the checker reads of the class; the first error met in reading
    /// its name, its super class, its interfaces, its methods and, unless it
    /// is a module descriptor, what it requires.
    pub open spec fn user_class(self) -> Result<UserClassView, ParseError> {
        match self.name() {
            Err(e) => Err(e),
            Ok(name) => match self.super_name() {
                Err(e) => Err(e),
                Ok(super_class) => match first_error(
                    self.interface_results(),
                    self.iface_indexes.len() as int,
                ) {
                    Some(e) => Err(e),
                    None => match first_error(self.method_results(), self.methods.len() as int) {
                        Some(e) => Err(e),
                        None => {
                            let requirements = if self.is_module() {
                                Ok(
                                    RequirementsView {
                                        name,
                                        classes: Seq::empty(),
                                        class_methods: Seq::empty(),
                                        iface_methods: Seq::empty(),
                                    },
                                )
                            } else {
                                self.requirements()
                            };
                            match requirements {
                                Err(e) => Err(e),
                                Ok(requirements) => Ok(
                                    UserClassView {
                                        name,
                                        super_class,
                                        interfaces: values_of(self.interface_results()),
                                        methods: values_of(self.method_results()),
                                        interface: self.is_interface(),
                                        module: self.is_module(),
                                        requirements,
                                    },
                                ),
                            }
                        },
                    },
                },
            },
        }
    }
}

proof fn lemma_first_error_stays(results: Seq<Result<Seq<char>, ParseError>>, k: int, n: int)
    requires
        k <= n,
        first_error(results, k) is Some,
    ensures
        first_error(results, n) == first_error(results, k),
    decreases n - k,
{
    if k < n {
        lemma_first_error_stays(results, k, n - 1);
    }
}

proof fn lemma_first_error_none(results: Seq<Result<Seq<char>, ParseError>>, n: int)
    requires
        forall|j: int| 0 <= j < n ==> (#[trigger] results[j]) is Ok,
    ensures
        first_error(results, n) is None,
    decreases n,
{
    if n > 0 {
        lemma_first_error_none(results, n - 1);
    }
}

impl UserClass {
    /// Reads off a class what the checker needs of it.
    pub fn of(class: &Class) -> (r: Result<UserClass, ParseError>)
        ensures
            match r {
                Ok(user) => class@.user_class() == Ok::<UserClassView, ParseError>(user@),
                Err(e) => class@.user_class() == Err::<UserClassView, ParseError>(e),
            },
    {
        let name = match class.get_name() {
            Ok(s) => String::from_str(s),
            Err(e) => {
                return Err(e);
            },
        };
        let super_class = if class.super_class_idx == 0 {
            None
        } else {
            match class.class_name(class.super_class_idx) {
                Ok(s) => Some(String::from_str(s)),
                Err(e) => {
                    return Err(e);
                },
            }
        };
        let ghost iface_results = class@.interface_results();
        let mut interfaces: Vec<String> = Vec::new();
        let n = class.iface_indexes.len();
        let mut k: usize = 0;
        while k < n
            invariant
                k <= n,
                n == class.iface_indexes@.len(),
                class@.name() is Ok,
                class@.super_name() is Ok,
                iface_results == class@.interface_results(),
                interfaces@.len() == k,
                forall|j: int|
                    0 <= j < k ==> (#[trigger] iface_results[j]) == Ok::<Seq<char>, ParseError>(
                        interfaces@[j]@,
                    ),
            decreases n - k,
        {
            match class.class_name(class.iface_indexes[k]) {
                Ok(s) => {
                    interfaces.push(String::from_str(s));
                },
                Err(e) => {
                    proof {
                        lemma_first_error_none(iface_results, k as int);
                        assert(iface_results[k as int] == Err::<Seq<char>, ParseError>(e));
                        lemma_first_error_stays(iface_results, k as int + 1, n as int);
                    }
                    return Err(e);
                },
            }
            k += 1;
        }
        proof {
            lemma_first_error_none(iface_results, n as int);
            assert(names_of(interfaces@) =~= values_of(iface_results));
        }
        let ghost method_results = class@.method_results();
        let methods = match class.get_methods() {
            Ok(v) => v,
            Err(e) => {
                proof {
                    let k = choose|k: int|
                        {
                            &&& 0 <= k < class.methods@.len()
                            &&& #[trigger] class@.method_signature(k) == Err::<
                                Seq<char>,
                                ParseError,
                            >(e)
                            &&& forall|j: int|
                                0 <= j < k ==> (#[trigger] class@.method_signature(j)) is Ok
                        };
                    assert forall|j: int| 0 <= j < k implies (#[trigger] method_results[j]) is Ok by {
                        assert(class@.method_signature(j) is Ok);
                    }
                    lemma_first_error_none(method_results, k);
                    assert(method_results[k] == Err::<Seq<char>, ParseError>(e));
                    lemma_first_error_stays(method_results, k + 1, class.methods@.len() as int);
                }
                return Err(e);
            },
        };
        proof {
            assert forall|j: int| 0 <= j < method_results.len() implies (
            #[trigger] method_results[j]) is Ok by {
                assert(class@.method_signature(j) is Ok);
            }
            lemma_first_error_none(method_results, method_results.len() as int);
            assert(names_of(methods@) =~= values_of(method_results)) by {
                assert forall|j: int| 0 <= j < methods@.len() implies names_of(methods@)[j]
                    == values_of(method_results)[j] by {
                    assert(class@.method_signature(j) == Ok::<Seq<char>, ParseError>(methods@[j]@));
                }
            }
        }
        let module = class.is_module();
        let requirements = if module {
            let r = ClassRequirements {
                name: name.clone(),
                classes: Vec::new(),
                class_methods: Vec::new(),
                iface_methods: Vec::new(),
            };
            assert(r@.classes =~= Seq::empty());
            assert(r@.class_methods =~= Seq::empty());
            assert(r@.iface_methods =~= Seq::empty());
            r
        } else {
            match class.get_consumed() {
                Ok(r) => r,
                Err(e) => {
                    return Err(e);
                },
            }
        };
        Ok(
            UserClass {
                name,
                super_class,
                interfaces,
                methods,
                interface: class.is_interface(),
                module,
                requirements,
            },
        )
    }
}

/// The classes of a class path, by their names.
#[derive(Debug)]
pub struct ClassPath {
    pub classes: NameMap<UserClass>,
}

impl View for ClassPath {
    type V = Map<Seq<char>, UserClassView>;

    open spec fn view(&self) -> Map<Seq<char>, UserClassView> {
        Map::new(
            |name: Seq<char>| self.classes.entries().contains_key(name),
            |name: Seq<char>| self.classes.entries()[name]@,
        )
    }
}

/// Whether each class stands under its own name, which is also the name
/// that its requirements bear, and each module descriptor requires nothing.
pub open spec fn consistent(users: Map<Seq<char>, UserClassView>) -> bool {
    forall|name: Seq<char>| #[trigger]
        users.contains_key(name) ==> {
            &&& users[name].name == name
            &&& users[name].requirements.name == name
            &&& users[name].module ==> {
                &&& users[name].requirements.classes.len() == 0
                &&& users[name].requirements.class_methods.len() == 0
                &&& users[name].requirements.iface_methods.len() == 0
            }
        }
}

impl ClassPath {
    /// Whether the class path is in order: its map is, each class stands
    /// under its own name, and each module descriptor requires nothing.
    pub open spec fn wf(&self) -> bool {
        &&& self.classes.wf()
        &&& consistent(self@)
    }

    /// A class path without classes.
    pub fn new() -> (r: Self)
        ensures
            r.wf(),
            r@ == Map::<Seq<char>, UserClassView>::empty(),
    {
        let r = ClassPath { classes: NameMap::new() };
        assert(r@ =~= Map::<Seq<char>, UserClassView>::empty());
        r
    }

    /// How many classes the class path has.
    pub fn len(&self) -> (n: usize)
        requires
            self.wf(),
        ensures
            n == self@.dom().len(),
            n == self.classes.keys@.len(),
    {
        proof {
            self.classes.lemma_count();
            assert(self@.dom() =~= self.classes.entries().dom());
        }
        self.classes.len()
    }

    /// Whether the class path has a class of the name.
    pub fn contains(&self, name: &str) -> (r: bool)
        requires
            self.wf(),
        ensures
            r == self@.contains_key(name@),
    {
        self.classes.has_key(name)
    }

    /// Puts a class on the class path, in place of the class of the same
    /// name if there is one. A class that cannot be read is refused, and the
    /// class path stays as it is.
    pub fn insert(&mut self, class: &Class) -> (r: Result<(), ParseError>)
        requires
            old(self).wf(),
        ensures
            final(self).wf(),
            match r {
                Ok(_) => class@.user_class() is Ok && final(self)@ == old(self)@.insert(
                    class@.user_class()->Ok_0.name,
                    class@.user_class()->Ok_0,
                ),
                Err(e) => class@.user_class() == Err::<UserClassView, ParseError>(e)
                    && final(self)@ == old(self)@,
            },
    {
        match UserClass::of(class) {
            Err(e) => Err(e),
            Ok(user) => {
                let ghost before = self@;
                let key = user.name.clone();
                self.classes.insert(key, user);
                assert(self@ =~= before.insert(user@.name, user@));
                Ok(())
            },
        }
    }
}

} // verus!
