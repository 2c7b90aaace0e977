//! What a class requires of others: the classes and the methods that its
//! constant pool refers to.

use crate::error::ParseError;
use crate::java_class::{Class, ClassView, ConstPoolEntry, EntryView};
use crate::names::{names_of, pairs_of, same_name};
use vstd::prelude::*;
use vstd::string::*;

verus! {

/// The first position from `i` on at which `s` does not hold `c`.
pub open spec fn run_end(s: Seq<char>, c: char, i: int) -> int
    decreases s.len() - i,
{
    if 0 <= i < s.len() && s[i] == c {
        run_end(s, c, i + 1)
    } else {
        i
    }
}

/// Where the element type begins in the name of a class entry: after the
/// brackets that the name begins with, and after one `L` that follows them.
pub open spec fn element_start(s: Seq<char>) -> int {
    let after = run_end(s, '[', 0);
    if after < s.len() && s[after] == 'L' {
        after + 1
    } else {
        after
    }
}

/// Where the element type ends in the name of a class entry: before one `;`
/// at its end.
pub open spec fn element_end(s: Seq<char>) -> int {
    if s.len() > element_start(s) && s[s.len() - 1] == ';' {
        s.len() - 1
    } else {
        s.len() as int
    }
}

/// The type that the name of a class entry stands for, or for arrays of
/// which it stands: the name without the brackets that it begins with,
/// without one `L` after them and without one `;` at its end.
pub open spec fn element_type(s: Seq<char>) -> Seq<char> {
    s.subrange(element_start(s), element_end(s))
}

/// Whether the name is that of a primitive type: one of the letters
/// `B C D F I J S Z`.
pub open spec fn is_primitive(s: Seq<char>) -> bool {
    s.len() == 1 && (s[0] == 'B' || s[0] == 'C' || s[0] == 'D' || s[0] == 'F' || s[0] == 'I'
        || s[0] == 'J' || s[0] == 'S' || s[0] == 'Z')
}

/// Whether a method is `clone()Ljava/lang/Object;`, which every array has
/// and no reference to which counts.
pub open spec fn is_clone(name: Seq<char>, descriptor: Seq<char>) -> bool {
    name == "clone"@ && descriptor == "()Ljava/lang/Object;"@
}

/// The element type of the name of a class entry.
pub fn element_type_of(name: &str) -> (r: String)
    ensures
        r@ == element_type(name@),
{
    let n = name.unicode_len();
    let mut start: usize = 0;
    while start < n && name.get_char(start) == '['
        invariant
            start <= n,
            n == name@.len(),
            run_end(name@, '[', 0) == run_end(name@, '[', start as int),
        decreases n - start,
    {
        start += 1;
    }
    if start < n && name.get_char(start) == 'L' {
        start += 1;
    }
    let mut end: usize = n;
    if end > start && name.get_char(end - 1) == ';' {
        end -= 1;
    }
    String::from_str(name.substring_char(start, end))
}

/// Whether the name is that of a primitive type.
pub fn is_primitive_name(name: &str) -> (r: bool)
    ensures
        r == is_primitive(name@),
{
    if name.unicode_len() != 1 {
        return false;
    }
    let c = name.get_char(0);
    c == 'B' || c == 'C' || c == 'D' || c == 'F' || c == 'I' || c == 'J' || c == 'S' || c == 'Z'
}

/// What a class refers to, as its constant pool tells it and in the order of
/// the pool: the classes, the methods of classes and the methods of
/// interfaces, each method with its owner and its signature.
#[derive(Debug)]
pub struct ClassRequirements {
    pub name: String,
    pub classes: Vec<String>,
    pub class_methods: Vec<(String, String)>,
    pub iface_methods: Vec<(String, String)>,
}

/// What the requirements of a class hold.
pub struct RequirementsView {
    pub name: Seq<char>,
    pub classes: Seq<Seq<char>>,
    pub class_methods: Seq<(Seq<char>, Seq<char>)>,
    pub iface_methods: Seq<(Seq<char>, Seq<char>)>,
}

impl View for ClassRequirements {
    type V = RequirementsView;

    open spec fn view(&self) -> RequirementsView {
        RequirementsView {
            name: self.name@,
            classes: names_of(self.classes@),
            class_methods: pairs_of(self.class_methods@),
            iface_methods: pairs_of(self.iface_methods@),
        }
    }
}

impl ClassView {
    /// The class that the entry at place `j` makes the class require, if it
    /// makes it require one: the element type of a `Class` entry that a field
    /// or method reference names, unless that is a primitive type.
    pub open spec fn consumed_class(self, j: int) -> Result<Option<Seq<char>>, ParseError> {
        match self.const_pool[j] {
            Some(EntryView::Class { name_index }) => if j <= 0xffff && self.class_entry_used(
                j as u16,
            ) {
                match self.utf8(name_index) {
                    Err(e) => Err(e),
                    Ok(name) => if is_primitive(element_type(name)) {
                        Ok(None)
                    } else {
                        Ok(Some(element_type(name)))
                    },
                }
            } else {
                Ok(None)
            },
            _ => Ok(None),
        }
    }

    /// The owner and the signature of the method that a reference with these
    /// two indices names; nothing for `clone()Ljava/lang/Object;`.
    pub open spec fn method_ref(self, class_index: u16, name_type_index: u16) -> Result<
        Option<(Seq<char>, Seq<char>)>,
        ParseError,
    > {
        match self.entry(class_index) {
            Some(EntryView::Class { name_index }) => match self.utf8(name_index) {
                Err(e) => Err(e),
                Ok(owner) => match self.entry(name_type_index) {
                    Some(EntryView::NameAndType { name_index, descriptor_index }) => match self.utf8(
                        name_index,
                    ) {
                        Err(e) => Err(e),
                        Ok(name) => match self.utf8(descriptor_index) {
                            Err(e) => Err(e),
                            Ok(descriptor) => if is_clone(name, descriptor) {
                                Ok(None)
                            } else {
                                Ok(Some((owner, name + descriptor)))
                            },
                        },
                    },
                    _ => Err(ParseError::BadPoolTag { index: name_type_index }),
                },
            },
            _ => Err(ParseError::BadPoolTag { index: class_index }),
        }
    }

    /// The method of a class that the entry at place `j` makes the class
    /// require, if it is a `MethodRef`.
    pub open spec fn consumed_class_method(self, j: int) -> Result<
        Option<(Seq<char>, Seq<char>)>,
        ParseError,
    > {
        match self.const_pool[j] {
            Some(EntryView::MethodRef { class_index, name_type_index }) => self.method_ref(
                class_index,
                name_type_index,
            ),
            _ => Ok(None),
        }
    }

    /// The method of an interface that the entry at place `j` makes the
    /// class require, if it is an `InterfaceMethodRef`.
    pub open spec fn consumed_iface_method(self, j: int) -> Result<
        Option<(Seq<char>, Seq<char>)>,
        ParseError,
    > {
        match self.const_pool[j] {
            Some(EntryView::IfaceMethodRef { class_index, name_type_index }) => self.method_ref(
                class_index,
                name_type_index,
            ),
            _ => Ok(None),
        }
    }

    /// Why the entry at place `j` cannot be read for what it requires, if it
    /// cannot.
    pub open spec fn consume_error_at(self, j: int) -> Option<ParseError> {
        match self.consumed_class(j) {
            Err(e) => Some(e),
            Ok(_) => match self.consumed_class_method(j) {
                Err(e) => Some(e),
                Ok(_) => match self.consumed_iface_method(j) {
                    Err(e) => Some(e),
                    Ok(_) => None,
                },
            },
        }
    }

    /// The error of the first place before `n` that cannot be read.
    pub open spec fn consume_error(self, n: int) -> Option<ParseError>
        decreases n,
    {
        if n <= 0 {
            None
        } else {
            match self.consume_error(n - 1) {
                Some(e) => Some(e),
                None => self.consume_error_at(n - 1),
            }
        }
    }

    /// The classes that the places before `n` make the class require.
    pub open spec fn consumed_classes(self, n: int) -> Seq<Seq<char>>
        decreases n,
    {
        if n <= 0 {
            Seq::empty()
        } else {
            match self.consumed_class(n - 1) {
                Ok(Some(name)) => self.consumed_classes(n - 1).push(name),
                _ => self.consumed_classes(n - 1),
            }
        }
    }

    /// The methods of classes that the places before `n` make the class
    /// require.
    pub open spec fn consumed_class_methods(self, n: int) -> Seq<(Seq<char>, Seq<char>)>
        decreases n,
    {
        if n <= 0 {
            Seq::empty()
        } else {
            match self.consumed_class_method(n - 1) {
                Ok(Some(method)) => self.consumed_class_methods(n - 1).push(method),
                _ => self.consumed_class_methods(n - 1),
            }
        }
    }

    /// The methods of interfaces that the places before `n` make the class
    /// require.
    pub open spec fn consumed_iface_methods(self, n: int) -> Seq<(Seq<char>, Seq<char>)>
        decreases n,
    {
        if n <= 0 {
            Seq::empty()
        } else {
            match self.consumed_iface_method(n - 1) {
                Ok(Some(method)) => self.consumed_iface_methods(n - 1).push(method),
                _ => self.consumed_iface_methods(n - 1),
            }
        }
    }

    /// What the class requires; the error of its name, or of the first
    /// place of the pool that cannot be read, where there is one.
    pub open spec fn requirements(self) -> Result<RequirementsView, ParseError> {
        let n = self.const_pool.len() as int;
        match self.name() {
            Err(e) => Err(e),
            Ok(name) => match self.consume_error(n) {
                Some(e) => Err(e),
                None => Ok(
                    RequirementsView {
                        name,
                        classes: self.consumed_classes(n),
                        class_methods: self.consumed_class_methods(n),
                        iface_methods: self.consumed_iface_methods(n),
                    },
                ),
            },
        }
    }
}

proof fn lemma_consume_error_stays(class: ClassView, k: int, n: int)
    requires
        k <= n,
        class.consume_error(k) is Some,
    ensures
        class.consume_error(n) == class.consume_error(k),
    decreases n - k,
{
    if k < n {
        lemma_consume_error_stays(class, k, n - 1);
    }
}

/// The owner and the signature of the method that a reference with these
/// two indices names; nothing for `clone()Ljava/lang/Object;`.
pub fn process_method(class_index: &u16, name_type_index: &u16, class: &Class) -> (r: Result<
    Option<(String, String)>,
    ParseError,
>)
    ensures
        match r {
            Ok(Some(method)) => class@.method_ref(*class_index, *name_type_index) == Ok::<
                Option<(Seq<char>, Seq<char>)>,
                ParseError,
            >(Some((method.0@, method.1@))),
            Ok(None) => class@.method_ref(*class_index, *name_type_index) == Ok::<
                Option<(Seq<char>, Seq<char>)>,
                ParseError,
            >(None),
            Err(e) => class@.method_ref(*class_index, *name_type_index) == Err::<
                Option<(Seq<char>, Seq<char>)>,
                ParseError,
            >(e),
        },
{
    let class_name = match class.entry(*class_index) {
        Some(ConstPoolEntry::Class { name_index }) => match class.get_utf8(name_index) {
            Ok(s) => s,
            Err(e) => {
                return Err(e);
            },
        },
        _ => {
            return Err(ParseError::BadPoolTag { index: *class_index });
        },
    };
    let (method_name, method_descriptor) = match class.entry(*name_type_index) {
        Some(ConstPoolEntry::NameAndType { name_index, descriptor_index }) => {
            let method_name = match class.get_utf8(name_index) {
                Ok(s) => s,
                Err(e) => {
                    return Err(e);
                },
            };
            match class.get_utf8(descriptor_index) {
                Ok(s) => (method_name, s),
                Err(e) => {
                    return Err(e);
                },
            }
        },
        _ => {
            return Err(ParseError::BadPoolTag { index: *name_type_index });
        },
    };
    if same_name(method_name, "clone") && same_name(method_descriptor, "()Ljava/lang/Object;") {
        return Ok(None);
    }
    Ok(Some((String::from_str(class_name), String::from_str(method_name).concat(method_descriptor))))
}

impl Class {
    /// What the class requires.
    pub fn get_consumed(&self) -> (r: Result<ClassRequirements, ParseError>)
        ensures
            match r {
                Ok(requirements) => self@.requirements() == Ok::<RequirementsView, ParseError>(
                    requirements@,
                ),
                Err(e) => self@.requirements() == Err::<RequirementsView, ParseError>(e),
            },
    {
        let this_name = match self.get_name() {
            Ok(s) => String::from_str(s),
            Err(e) => {
                return Err(e);
            },
        };
        let mut classes: Vec<String> = Vec::new();
        let mut class_methods: Vec<(String, String)> = Vec::new();
        let mut iface_methods: Vec<(String, String)> = Vec::new();
        assert(names_of(classes@) =~= self@.consumed_classes(0));
        assert(pairs_of(class_methods@) =~= self@.consumed_class_methods(0));
        assert(pairs_of(iface_methods@) =~= self@.consumed_iface_methods(0));
        let n = self.const_pool.len();
        let mut j: usize = 0;
        while j < n
            invariant
                j <= n,
                n == self.const_pool@.len(),
                n == self@.const_pool.len(),
                self@.name() == Ok::<Seq<char>, ParseError>(this_name@),
                self@.consume_error(j as int) is None,
                names_of(classes@) == self@.consumed_classes(j as int),
                pairs_of(class_methods@) == self@.consumed_class_methods(j as int),
                pairs_of(iface_methods@) == self@.consumed_iface_methods(j as int),
            decreases n - j,
        {
            let ghost before_classes = names_of(classes@);
            let ghost before_class_methods = pairs_of(class_methods@);
            let ghost before_iface_methods = pairs_of(iface_methods@);
            assert(self@.const_pool[j as int] == crate::java_class::slot_view(
                self.const_pool@[j as int],
            ));
            match &self.const_pool[j] {
                Some(ConstPoolEntry::Class { name_index }) => {
                    // The pool has at most 65536 places only where a file was
                    // decoded; an index past that names no entry.
                    if j <= 0xffff && self.is_class_entry_used(&(j as u16)) {
                        let name = match self.get_utf8(name_index) {
                            Ok(s) => s,
                            Err(e) => {
                                proof {
                                    assert(self@.consume_error_at(j as int) == Some(e));
                                    lemma_consume_error_stays(self@, j as int + 1, n as int);
                                }
                                return Err(e);
                            },
                        };
                        let element = element_type_of(name);
                        if !is_primitive_name(element.as_str()) {
                            classes.push(element);
                            assert(names_of(classes@) =~= before_classes.push(element@));
                        }
                    }
                },
                Some(ConstPoolEntry::MethodRef { class_index, name_type_index }) => {
                    match process_method(class_index, name_type_index, self) {
                        Err(e) => {
                            proof {
                                assert(self@.consume_error_at(j as int) == Some(e));
                                lemma_consume_error_stays(self@, j as int + 1, n as int);
                            }
                            return Err(e);
                        },
                        Ok(Some(method)) => {
                            class_methods.push(method);
                            assert(pairs_of(class_methods@) =~= before_class_methods.push(
                                (method.0@, method.1@),
                            ));
                        },
                        Ok(None) => {},
                    }
                },
                Some(ConstPoolEntry::IfaceMethodRef { class_index, name_type_index }) => {
                    match process_method(class_index, name_type_index, self) {
                        Err(e) => {
                            proof {
                                assert(self@.consume_error_at(j as int) == Some(e));
                                lemma_consume_error_stays(self@, j as int + 1, n as int);
                            }
                            return Err(e);
                        },
                        Ok(Some(method)) => {
                            iface_methods.push(method);
                            assert(pairs_of(iface_methods@) =~= before_iface_methods.push(
                                (method.0@, method.1@),
                            ));
                        },
                        Ok(None) => {},
                    }
                },
                _ => {},
            }
            j += 1;
        }
        Ok(ClassRequirements { name: this_name, classes, class_methods, iface_methods })
    }
}

} // verus!
