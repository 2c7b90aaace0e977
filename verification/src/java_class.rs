//! The record that a class file decodes to, and what is read off it.

use crate::error::ParseError;
use vstd::prelude::*;
use vstd::string::*;

verus! {

/// The views of the items of a sequence, in its order.
pub open spec fn view_each<T: View>(s: Seq<T>) -> Seq<T::V> {
    Seq::new(s.len(), |i: int| s[i]@)
}

/// The access flags of a class.
#[derive(Copy, Clone, Debug, PartialEq, Eq, Structural)]
pub struct ClassFlags {
    pub bits: u16,
}

pub const ACC_PUBLIC: u16 = 0x0001;

pub const ACC_PRIVATE: u16 = 0x0002;

pub const ACC_PROTECTED: u16 = 0x0004;

pub const ACC_STATIC: u16 = 0x0008;

pub const ACC_FINAL: u16 = 0x0010;

/// On a class `super`, on a method `synchronized`.
pub const ACC_SUPER: u16 = 0x0020;

pub const ACC_BRIDGE: u16 = 0x0040;

pub const ACC_VARARGS: u16 = 0x0080;

pub const ACC_NATIVE: u16 = 0x0100;

pub const ACC_INTERFACE: u16 = 0x0200;

pub const ACC_ABSTRACT: u16 = 0x0400;

pub const ACC_STRICT: u16 = 0x0800;

pub const ACC_SYNTHETIC: u16 = 0x1000;

pub const ACC_ANNOTATION: u16 = 0x2000;

pub const ACC_ENUM: u16 = 0x4000;

pub const ACC_MODULE: u16 = 0x8000;

impl ClassFlags {
    /// Whether one of the flags of `mask` is set.
    pub open spec fn spec_is_set(&self, mask: u16) -> bool {
        self.bits & mask != 0
    }

    /// Whether the class is an interface.
    pub open spec fn spec_interface(&self) -> bool {
        self.bits & 0x0200 != 0
    }

    /// Whether the class is a module descriptor.
    pub open spec fn spec_module(&self) -> bool {
        self.bits & 0x8000 != 0
    }

    /// Whether one of the flags of `mask` is set.
    #[verifier::when_used_as_spec(spec_is_set)]
    pub fn is_set(&self, mask: u16) -> (r: bool)
        ensures
            r == self.spec_is_set(mask),
    {
        self.bits & mask != 0
    }

    /// Whether the class is an interface.
    #[verifier::when_used_as_spec(spec_interface)]
    pub fn interface(&self) -> (r: bool)
        ensures
            r == self.spec_interface(),
    {
        self.bits & 0x0200 != 0
    }

    /// Whether the class is a module descriptor.
    #[verifier::when_used_as_spec(spec_module)]
    pub fn module(&self) -> (r: bool)
        ensures
            r == self.spec_module(),
    {
        self.bits & 0x8000 != 0
    }

    /// Whether the class is an enumeration.
    pub fn is_enum(&self) -> (r: bool)
        ensures
            r == self.spec_is_set(ACC_ENUM),
    {
        self.is_set(ACC_ENUM)
    }

    /// Whether the class is an annotation.
    pub fn annotation(&self) -> (r: bool)
        ensures
            r == self.spec_is_set(ACC_ANNOTATION),
    {
        self.is_set(ACC_ANNOTATION)
    }

    /// Whether the class stands in no source.
    pub fn synthetic(&self) -> (r: bool)
        ensures
            r == self.spec_is_set(ACC_SYNTHETIC),
    {
        self.is_set(ACC_SYNTHETIC)
    }

    /// Whether the class is abstract.
    pub fn is_abstract(&self) -> (r: bool)
        ensures
            r == self.spec_is_set(ACC_ABSTRACT),
    {
        self.is_set(ACC_ABSTRACT)
    }

    /// Whether the class calls the methods of its super class in the newer way.
    pub fn is_super(&self) -> (r: bool)
        ensures
            r == self.spec_is_set(ACC_SUPER),
    {
        self.is_set(ACC_SUPER)
    }

    /// Whether the class is final.
    pub fn is_final(&self) -> (r: bool)
        ensures
            r == self.spec_is_set(ACC_FINAL),
    {
        self.is_set(ACC_FINAL)
    }

    /// Whether the class is public.
    pub fn public(&self) -> (r: bool)
        ensures
            r == self.spec_is_set(ACC_PUBLIC),
    {
        self.is_set(ACC_PUBLIC)
    }
}

/// The access flags of a method.
#[derive(Copy, Clone, Debug, PartialEq, Eq, Structural)]
pub struct MethodFlags {
    pub bits: u16,
}

impl MethodFlags {
    /// Whether one of the flags of `mask` is set.
    pub open spec fn spec_is_set(&self, mask: u16) -> bool {
        self.bits & mask != 0
    }

    /// Whether one of the flags of `mask` is set.
    #[verifier::when_used_as_spec(spec_is_set)]
    pub fn is_set(&self, mask: u16) -> (r: bool)
        ensures
            r == self.spec_is_set(mask),
    {
        self.bits & mask != 0
    }

    /// Whether the method stands in no source.
    pub fn synthetic(&self) -> (r: bool)
        ensures
            r == self.spec_is_set(ACC_SYNTHETIC),
    {
        self.is_set(ACC_SYNTHETIC)
    }

    /// Whether the method computes with strict floating point.
    pub fn is_strict(&self) -> (r: bool)
        ensures
            r == self.spec_is_set(ACC_STRICT),
    {
        self.is_set(ACC_STRICT)
    }

    /// Whether the method is abstract.
    pub fn is_abstract(&self) -> (r: bool)
        ensures
            r == self.spec_is_set(ACC_ABSTRACT),
    {
        self.is_set(ACC_ABSTRACT)
    }

    /// Whether the method is native.
    pub fn is_native(&self) -> (r: bool)
        ensures
            r == self.spec_is_set(ACC_NATIVE),
    {
        self.is_set(ACC_NATIVE)
    }

    /// Whether the method takes a variable number of arguments.
    pub fn has_varargs(&self) -> (r: bool)
        ensures
            r == self.spec_is_set(ACC_VARARGS),
    {
        self.is_set(ACC_VARARGS)
    }

    /// Whether the method is a bridge that the compiler made.
    pub fn is_bridge(&self) -> (r: bool)
        ensures
            r == self.spec_is_set(ACC_BRIDGE),
    {
        self.is_set(ACC_BRIDGE)
    }

    /// Whether the method is synchronized.
    pub fn is_synchronized(&self) -> (r: bool)
        ensures
            r == self.spec_is_set(ACC_SUPER),
    {
        self.is_set(ACC_SUPER)
    }

    /// Whether the method is final.
    pub fn is_final(&self) -> (r: bool)
        ensures
            r == self.spec_is_set(ACC_FINAL),
    {
        self.is_set(ACC_FINAL)
    }

    /// Whether the method is static.
    pub fn is_static(&self) -> (r: bool)
        ensures
            r == self.spec_is_set(ACC_STATIC),
    {
        self.is_set(ACC_STATIC)
    }

    /// Whether the method is protected.
    pub fn is_protected(&self) -> (r: bool)
        ensures
            r == self.spec_is_set(ACC_PROTECTED),
    {
        self.is_set(ACC_PROTECTED)
    }

    /// Whether the method is private.
    pub fn is_private(&self) -> (r: bool)
        ensures
            r == self.spec_is_set(ACC_PRIVATE),
    {
        self.is_set(ACC_PRIVATE)
    }

    /// Whether the method is public.
    pub fn is_public(&self) -> (r: bool)
        ensures
            r == self.spec_is_set(ACC_PUBLIC),
    {
        self.is_set(ACC_PUBLIC)
    }
}

/// An entry of the constant pool. A float is held as its bits.
#[derive(Debug)]
#[allow(inconsistent_fields)]
pub enum ConstPoolEntry {
    Utf8 { value: String },
    Class { name_index: u16 },
    FieldRef { class_index: u16, name_type_index: u16 },
    MethodRef { class_index: u16, name_type_index: u16 },
    IfaceMethodRef { class_index: u16, name_type_index: u16 },
    String { index: u16 },
    Int { value: i32 },
    Float { bits: u32 },
    Long { value: i64 },
    Double { bits: u64 },
    NameAndType { name_index: u16, descriptor_index: u16 },
    MethodHandle { ref_kind: u8, ref_index: u16 },
    MethodType { descriptor_index: u16 },
    InvokeDynamic { bootstrap_index: u16, name_type_index: u16 },
    Module { name_index: u16 },
    Package { name_index: u16 },
}

/// What a constant pool entry holds, a string as its characters.
#[allow(inconsistent_fields)]
pub enum EntryView {
    Utf8 { value: Seq<char> },
    Class { name_index: u16 },
    FieldRef { class_index: u16, name_type_index: u16 },
    MethodRef { class_index: u16, name_type_index: u16 },
    IfaceMethodRef { class_index: u16, name_type_index: u16 },
    String { index: u16 },
    Int { value: i32 },
    Float { bits: u32 },
    Long { value: i64 },
    Double { bits: u64 },
    NameAndType { name_index: u16, descriptor_index: u16 },
    MethodHandle { ref_kind: u8, ref_index: u16 },
    MethodType { descriptor_index: u16 },
    InvokeDynamic { bootstrap_index: u16, name_type_index: u16 },
    Module { name_index: u16 },
    Package { name_index: u16 },
}

impl EntryView {
    /// Whether the entry takes two places of the pool.
    pub open spec fn wide(self) -> bool {
        self is Long || self is Double
    }
}

impl View for ConstPoolEntry {
    type V = EntryView;

    open spec fn view(&self) -> EntryView {
        match *self {
            ConstPoolEntry::Utf8 { value } => EntryView::Utf8 { value: value@ },
            ConstPoolEntry::Class { name_index } => EntryView::Class { name_index },
            ConstPoolEntry::FieldRef { class_index, name_type_index } => EntryView::FieldRef {
                class_index,
                name_type_index,
            },
            ConstPoolEntry::MethodRef { class_index, name_type_index } => EntryView::MethodRef {
                class_index,
                name_type_index,
            },
            ConstPoolEntry::IfaceMethodRef {
                class_index,
                name_type_index,
            } => EntryView::IfaceMethodRef { class_index, name_type_index },
            ConstPoolEntry::String { index } => EntryView::String { index },
            ConstPoolEntry::Int { value } => EntryView::Int { value },
            ConstPoolEntry::Float { bits } => EntryView::Float { bits },
            ConstPoolEntry::Long { value } => EntryView::Long { value },
            ConstPoolEntry::Double { bits } => EntryView::Double { bits },
            ConstPoolEntry::NameAndType { name_index, descriptor_index } => EntryView::NameAndType {
                name_index,
                descriptor_index,
            },
            ConstPoolEntry::MethodHandle { ref_kind, ref_index } => EntryView::MethodHandle {
                ref_kind,
                ref_index,
            },
            ConstPoolEntry::MethodType { descriptor_index } => EntryView::MethodType {
                descriptor_index,
            },
            ConstPoolEntry::InvokeDynamic {
                bootstrap_index,
                name_type_index,
            } => EntryView::InvokeDynamic { bootstrap_index, name_type_index },
            ConstPoolEntry::Module { name_index } => EntryView::Module { name_index },
            ConstPoolEntry::Package { name_index } => EntryView::Package { name_index },
        }
    }
}

/// What a place of the pool holds: an entry's view, or nothing.
pub open spec fn slot_view(slot: Option<ConstPoolEntry>) -> Option<EntryView> {
    match slot {
        Some(e) => Some(e@),
        None => None,
    }
}

/// What the places of a pool hold, in their order.
pub open spec fn pool_view(pool: Seq<Option<ConstPoolEntry>>) -> Seq<Option<EntryView>> {
    Seq::new(pool.len(), |i: int| slot_view(pool[i]))
}

/// An attribute: the pool index of its name and its bytes.
#[derive(Debug)]
pub struct AttributeInfo {
    pub name_index: u16,
    pub data: Vec<u8>,
}

/// What an attribute holds.
pub struct AttributeView {
    pub name_index: u16,
    pub data: Seq<u8>,
}

impl View for AttributeInfo {
    type V = AttributeView;

    open spec fn view(&self) -> AttributeView {
        AttributeView { name_index: self.name_index, data: self.data@ }
    }
}

/// What a field or a method holds.
pub struct MemberView {
    pub flags: u16,
    pub name_index: u16,
    pub descriptor_index: u16,
    pub attributes: Seq<AttributeView>,
}

/// A field of a class.
#[derive(Debug)]
pub struct FieldInfo {
    pub flags: u16,
    pub name_index: u16,
    pub descriptor_index: u16,
    pub attributes: Vec<AttributeInfo>,
}

impl View for FieldInfo {
    type V = MemberView;

    open spec fn view(&self) -> MemberView {
        MemberView {
            flags: self.flags,
            name_index: self.name_index,
            descriptor_index: self.descriptor_index,
            attributes: view_each(self.attributes@),
        }
    }
}

/// A method of a class.
#[derive(Debug)]
pub struct MethodInfo {
    pub flags: MethodFlags,
    pub name_index: u16,
    pub descriptor_index: u16,
    pub attributes: Vec<AttributeInfo>,
}

impl View for MethodInfo {
    type V = MemberView;

    open spec fn view(&self) -> MemberView {
        MemberView {
            flags: self.flags.bits,
            name_index: self.name_index,
            descriptor_index: self.descriptor_index,
            attributes: view_each(self.attributes@),
        }
    }
}

/// A decoded class file. The constant pool is indexed as the file indexes
/// it: place 0 and the place after a `Long` or a `Double` hold nothing.
#[derive(Debug)]
pub struct Class {
    pub minor_version: u16,
    pub major_version: u16,
    pub const_pool: Vec<Option<ConstPoolEntry>>,
    pub flags: ClassFlags,
    pub this_class_idx: u16,
    pub super_class_idx: u16,
    pub iface_indexes: Vec<u16>,
    pub fields: Vec<FieldInfo>,
    pub methods: Vec<MethodInfo>,
    pub attributes: Vec<AttributeInfo>,
}

/// What a class record holds.
pub struct ClassView {
    pub minor_version: u16,
    pub major_version: u16,
    pub const_pool: Seq<Option<EntryView>>,
    pub flags: u16,
    pub this_class_idx: u16,
    pub super_class_idx: u16,
    pub iface_indexes: Seq<u16>,
    pub fields: Seq<MemberView>,
    pub methods: Seq<MemberView>,
    pub attributes: Seq<AttributeView>,
}

impl View for Class {
    type V = ClassView;

    open spec fn view(&self) -> ClassView {
        ClassView {
            minor_version: self.minor_version,
            major_version: self.major_version,
            const_pool: pool_view(self.const_pool@),
            flags: self.flags.bits,
            this_class_idx: self.this_class_idx,
            super_class_idx: self.super_class_idx,
            iface_indexes: self.iface_indexes@,
            fields: view_each(self.fields@),
            methods: view_each(self.methods@),
            attributes: view_each(self.attributes@),
        }
    }
}

impl ClassView {
    /// What the pool holds at `index`: nothing where the index is past its end.
    pub open spec fn entry(self, index: u16) -> Option<EntryView> {
        if index < self.const_pool.len() {
            self.const_pool[index as int]
        } else {
            None
        }
    }

    /// The string of the `Utf8` entry at `index`.
    pub open spec fn utf8(self, index: u16) -> Result<Seq<char>, ParseError> {
        match self.entry(index) {
            Some(EntryView::Utf8 { value }) => Ok(value),
            _ => Err(ParseError::BadPoolTag { index }),
        }
    }

    /// The name that the `Class` entry at `index` refers to.
    pub open spec fn class_name(self, index: u16) -> Result<Seq<char>, ParseError> {
        match self.entry(index) {
            Some(EntryView::Class { name_index }) => self.utf8(name_index),
            _ => Err(ParseError::BadPoolTag { index }),
        }
    }

    /// The internal name of the class.
    pub open spec fn name(self) -> Result<Seq<char>, ParseError> {
        self.class_name(self.this_class_idx)
    }

    /// The signature of the method at place `k` of the method table: its
    /// name, then its descriptor.
    pub open spec fn method_signature(self, k: int) -> Result<Seq<char>, ParseError> {
        match self.utf8(self.methods[k].name_index) {
            Err(e) => Err(e),
            Ok(name) => match self.utf8(self.methods[k].descriptor_index) {
                Err(e) => Err(e),
                Ok(descriptor) => Ok(name + descriptor),
            },
        }
    }

    /// Whether the entry at place `j` refers to a field or a method of the
    /// class entry `index`.
    pub open spec fn refers_to(self, j: int, index: u16) -> bool {
        match self.const_pool[j] {
            Some(EntryView::MethodRef { class_index, .. }) => class_index == index,
            Some(EntryView::FieldRef { class_index, .. }) => class_index == index,
            Some(EntryView::IfaceMethodRef { class_index, .. }) => class_index == index,
            _ => false,
        }
    }

    /// Whether some field or method reference of the pool names the class
    /// entry `index`.
    pub open spec fn class_entry_used(self, index: u16) -> bool {
        exists|j: int| 0 <= j < self.const_pool.len() && #[trigger] self.refers_to(j, index)
    }

    /// Whether the class is an interface.
    pub open spec fn is_interface(self) -> bool {
        self.flags & 0x0200 != 0
    }

    /// Whether the class is a module descriptor.
    pub open spec fn is_module(self) -> bool {
        self.flags & 0x8000 != 0
    }
}

impl Class {
    /// The entry at `index`, if the pool holds one there.
    pub fn entry(&self, index: u16) -> (r: Option<&ConstPoolEntry>)
        ensures
            match r {
                Some(e) => self@.entry(index) == Some(e@),
                None => self@.entry(index) is None,
            },
    {
        if (index as usize) < self.const_pool.len() {
            self.const_pool[index as usize].as_ref()
        } else {
            None
        }
    }

    /// The string of the `Utf8` entry at `index`.
    pub fn get_utf8(&self, index: &u16) -> (r: Result<&str, ParseError>)
        ensures
            match r {
                Ok(s) => self@.utf8(*index) == Ok::<Seq<char>, ParseError>(s@),
                Err(e) => self@.utf8(*index) == Err::<Seq<char>, ParseError>(e),
            },
    {
        match self.entry(*index) {
            Some(ConstPoolEntry::Utf8 { value }) => Ok(value.as_str()),
            _ => Err(ParseError::BadPoolTag { index: *index }),
        }
    }

    /// The name that the `Class` entry at `index` refers to.
    pub fn class_name(&self, index: u16) -> (r: Result<&str, ParseError>)
        ensures
            match r {
                Ok(s) => self@.class_name(index) == Ok::<Seq<char>, ParseError>(s@),
                Err(e) => self@.class_name(index) == Err::<Seq<char>, ParseError>(e),
            },
    {
        match self.entry(index) {
            Some(ConstPoolEntry::Class { name_index }) => self.get_utf8(name_index),
            _ => Err(ParseError::BadPoolTag { index }),
        }
    }

    /// The internal name of the class.
    pub fn get_name(&self) -> (r: Result<&str, ParseError>)
        ensures
            match r {
                Ok(s) => self@.name() == Ok::<Seq<char>, ParseError>(s@),
                Err(e) => self@.name() == Err::<Seq<char>, ParseError>(e),
            },
    {
        self.class_name(self.this_class_idx)
    }

    /// The signatures of the methods that the class declares, in the order
    /// of its method table; the error of the first method whose name or
    /// descriptor is no `Utf8` entry.
    pub fn get_methods(&self) -> (r: Result<Vec<String>, ParseError>)
        ensures
            match r {
                Ok(v) => {
                    &&& v@.len() == self.methods@.len()
                    &&& forall|k: int|
                        0 <= k < v@.len() ==> #[trigger] self@.method_signature(k) == Ok::<
                            Seq<char>,
                            ParseError,
                        >(v@[k]@)
                },
                Err(e) => exists|k: int|
                    {
                        &&& 0 <= k < self.methods@.len()
                        &&& #[trigger] self@.method_signature(k) == Err::<Seq<char>, ParseError>(e)
                        &&& forall|j: int| 0 <= j < k ==> (#[trigger] self@.method_signature(j)) is Ok
                    },
            },
    {
        let mut result: Vec<String> = Vec::new();
        let mut k: usize = 0;
        while k < self.methods.len()
            invariant
                k <= self.methods@.len(),
                result@.len() == k,
                forall|j: int|
                    0 <= j < k ==> #[trigger] self@.method_signature(j) == Ok::<
                        Seq<char>,
                        ParseError,
                    >(result@[j]@),
            decreases self.methods@.len() - k,
        {
            let method_info = &self.methods[k];
            assert(self@.methods[k as int] == method_info@);
            let method_name = match self.get_utf8(&method_info.name_index) {
                Ok(s) => s,
                Err(e) => {
                    assert(self@.method_signature(k as int) == Err::<Seq<char>, ParseError>(e));
                    return Err(e);
                },
            };
            let method_descriptor = match self.get_utf8(&method_info.descriptor_index) {
                Ok(s) => s,
                Err(e) => {
                    assert(self@.method_signature(k as int) == Err::<Seq<char>, ParseError>(e));
                    return Err(e);
                },
            };
            let signature = String::from_str(method_name).concat(method_descriptor);
            result.push(signature);
            k += 1;
        }
        Ok(result)
    }

    /// Whether some field or method reference of the pool names the class
    /// entry `const_pool_idx`.
    pub fn is_class_entry_used(&self, const_pool_idx: &u16) -> (r: bool)
        ensures
            r == self@.class_entry_used(*const_pool_idx),
    {
        let mut j: usize = 0;
        while j < self.const_pool.len()
            invariant
                j <= self.const_pool@.len(),
                forall|i: int| 0 <= i < j ==> !#[trigger] self@.refers_to(i, *const_pool_idx),
            decreases self.const_pool@.len() - j,
        {
            let used = match &self.const_pool[j] {
                Some(ConstPoolEntry::MethodRef { class_index, .. }) => *class_index
                    == *const_pool_idx,
                Some(ConstPoolEntry::FieldRef { class_index, .. }) => *class_index
                    == *const_pool_idx,
                Some(ConstPoolEntry::IfaceMethodRef { class_index, .. }) => *class_index
                    == *const_pool_idx,
                _ => false,
            };
            assert(used == self@.refers_to(j as int, *const_pool_idx));
            if used {
                return true;
            }
            j += 1;
        }
        false
    }

    /// Whether the class is an interface.
    pub fn is_interface(&self) -> (r: bool)
        ensures
            r == self@.is_interface(),
    {
        self.flags.interface()
    }

    /// Whether the class is a module descriptor.
    pub fn is_module(&self) -> (r: bool)
        ensures
            r == self@.is_module(),
    {
        self.flags.module()
    }
}

} // verus!
