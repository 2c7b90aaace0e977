//! The class-file format, and the decoder of class files.
//!
//! The format is stated as functions of the bytes of a file: each says what
//! the item that begins at a position is, and where the next one begins. All
//! integers are big-endian. The decoder is proved to compute them.

use crate::error::ParseError;
use crate::names::string_from_utf8;
use crate::java_class::{
    view_each, pool_view, AttributeInfo, AttributeView, Class, ClassFlags, ClassView, ConstPoolEntry,
    EntryView, FieldInfo, MemberView, MethodFlags, MethodInfo,
};
use vstd::prelude::*;
use vstd::slice::*;
use vstd::string::*;
use vstd::utf8::*;

verus! {

/// Whether `n` bytes lie at position `p`.
pub open spec fn fits(b: Seq<u8>, p: int, n: int) -> bool {
    0 <= p && 0 <= n && p + n <= b.len()
}

/// The two bytes at `p` as a number.
pub open spec fn be16(b: Seq<u8>, p: int) -> u16 {
    (b[p] as int * 256 + b[p + 1] as int) as u16
}

/// The four bytes at `p` as a number.
pub open spec fn be32(b: Seq<u8>, p: int) -> u32 {
    (be16(b, p) as int * 65536 + be16(b, p + 2) as int) as u32
}

/// The eight bytes at `p` as a number.
pub open spec fn be64(b: Seq<u8>, p: int) -> u64 {
    (be32(b, p) as int * 4294967296 + be32(b, p + 4) as int) as u64
}

/// The string that the bytes of a `Utf8` entry stand for: what they encode
/// where they are UTF-8, and `N/A` where they are not.
pub open spec fn lossy(bytes: Seq<u8>) -> Seq<char> {
    if valid_utf8(bytes) {
        decode_utf8(bytes)
    } else {
        seq!['N', '/', 'A']
    }
}

/// How many bytes follow the tag of an entry of fixed size; `None` for the
/// tag of a `Utf8` entry and for a tag that no entry bears.
pub open spec fn fixed_payload(tag: u8) -> Option<int> {
    if tag == 3 || tag == 4 || tag == 9 || tag == 10 || tag == 11 || tag == 12 || tag == 18 {
        Some(4)
    } else if tag == 5 || tag == 6 {
        Some(8)
    } else if tag == 7 || tag == 8 || tag == 16 || tag == 19 || tag == 20 {
        Some(2)
    } else if tag == 15 {
        Some(3)
    } else {
        None
    }
}

/// The entry of fixed size with tag `tag` whose bytes after the tag begin at `p`.
pub open spec fn fixed_entry(b: Seq<u8>, p: int, tag: u8) -> EntryView {
    if tag == 3 {
        EntryView::Int { value: be32(b, p) as i32 }
    } else if tag == 4 {
        EntryView::Float { bits: be32(b, p) }
    } else if tag == 5 {
        EntryView::Long { value: be64(b, p) as i64 }
    } else if tag == 6 {
        EntryView::Double { bits: be64(b, p) }
    } else if tag == 7 {
        EntryView::Class { name_index: be16(b, p) }
    } else if tag == 8 {
        EntryView::String { index: be16(b, p) }
    } else if tag == 9 {
        EntryView::FieldRef { class_index: be16(b, p), name_type_index: be16(b, p + 2) }
    } else if tag == 10 {
        EntryView::MethodRef { class_index: be16(b, p), name_type_index: be16(b, p + 2) }
    } else if tag == 11 {
        EntryView::IfaceMethodRef { class_index: be16(b, p), name_type_index: be16(b, p + 2) }
    } else if tag == 12 {
        EntryView::NameAndType { name_index: be16(b, p), descriptor_index: be16(b, p + 2) }
    } else if tag == 15 {
        EntryView::MethodHandle { ref_kind: b[p], ref_index: be16(b, p + 1) }
    } else if tag == 16 {
        EntryView::MethodType { descriptor_index: be16(b, p) }
    } else if tag == 18 {
        EntryView::InvokeDynamic { bootstrap_index: be16(b, p), name_type_index: be16(b, p + 2) }
    } else if tag == 19 {
        EntryView::Module { name_index: be16(b, p) }
    } else {
        EntryView::Package { name_index: be16(b, p) }
    }
}

/// The constant pool entry that begins at `p`, and the position after it.
/// `index` is the place of the pool that it is read for.
pub open spec fn spec_entry(b: Seq<u8>, p: int, index: u16) -> Result<(EntryView, int), ParseError> {
    if !fits(b, p, 1) {
        Err(ParseError::Truncated { offset: p as usize })
    } else if b[p] == 1 {
        if !fits(b, p + 1, 2) {
            Err(ParseError::Truncated { offset: (p + 1) as usize })
        } else if !fits(b, p + 3, be16(b, p + 1) as int) {
            Err(ParseError::Truncated { offset: (p + 3) as usize })
        } else {
            let end = p + 3 + be16(b, p + 1);
            Ok((EntryView::Utf8 { value: lossy(b.subrange(p + 3, end)) }, end))
        }
    } else {
        match fixed_payload(b[p]) {
            None => Err(ParseError::UnknownTag { index, tag: b[p], offset: p as usize }),
            Some(n) => if !fits(b, p + 1, n) {
                Err(ParseError::Truncated { offset: (p + 1) as usize })
            } else {
                Ok((fixed_entry(b, p + 1, b[p]), p + 1 + n))
            },
        }
    }
}

/// The constant pool of `count` places of which the places before `i` are
/// `acc` and the entry for place `i` begins at `p`, and the position after
/// the pool. A `Long` or a `Double` takes two places, and the second holds
/// nothing.
pub open spec fn spec_pool(
    b: Seq<u8>,
    p: int,
    i: int,
    count: int,
    acc: Seq<Option<EntryView>>,
) -> Result<(Seq<Option<EntryView>>, int), ParseError>
    decreases count + 1 - i,
{
    if i >= count {
        Ok((acc, p))
    } else {
        match spec_entry(b, p, i as u16) {
            Err(e) => Err(e),
            Ok((entry, q)) => if entry.wide() {
                spec_pool(b, q, i + 2, count, acc.push(Some(entry)).push(None))
            } else {
                spec_pool(b, q, i + 1, count, acc.push(Some(entry)))
            },
        }
    }
}

/// The attribute that begins at `p`, and the position after it.
pub open spec fn spec_attribute(b: Seq<u8>, p: int) -> Result<(AttributeView, int), ParseError> {
    if !fits(b, p, 6) {
        Err(ParseError::Truncated { offset: p as usize })
    } else if !fits(b, p + 6, be32(b, p + 2) as int) {
        Err(ParseError::Truncated { offset: (p + 6) as usize })
    } else {
        let end = p + 6 + be32(b, p + 2);
        Ok((AttributeView { name_index: be16(b, p), data: b.subrange(p + 6, end) }, end))
    }
}

/// `acc`, then the `n` attributes that begin at `p`; and the position after them.
pub open spec fn spec_attributes(b: Seq<u8>, p: int, n: int, acc: Seq<AttributeView>) -> Result<
    (Seq<AttributeView>, int),
    ParseError,
>
    decreases n,
{
    if n <= 0 {
        Ok((acc, p))
    } else {
        match spec_attribute(b, p) {
            Err(e) => Err(e),
            Ok((attribute, q)) => spec_attributes(b, q, n - 1, acc.push(attribute)),
        }
    }
}

/// The field or method that begins at `p`, and the position after it.
pub open spec fn spec_member(b: Seq<u8>, p: int) -> Result<(MemberView, int), ParseError> {
    if !fits(b, p, 8) {
        Err(ParseError::Truncated { offset: p as usize })
    } else {
        match spec_attributes(b, p + 8, be16(b, p + 6) as int, Seq::empty()) {
            Err(e) => Err(e),
            Ok((attributes, q)) => Ok(
                (
                    MemberView {
                        flags: be16(b, p),
                        name_index: be16(b, p + 2),
                        descriptor_index: be16(b, p + 4),
                        attributes,
                    },
                    q,
                ),
            ),
        }
    }
}

/// `acc`, then the `n` fields or methods that begin at `p`; and the position
/// after them.
pub open spec fn spec_members(b: Seq<u8>, p: int, n: int, acc: Seq<MemberView>) -> Result<
    (Seq<MemberView>, int),
    ParseError,
>
    decreases n,
{
    if n <= 0 {
        Ok((acc, p))
    } else {
        match spec_member(b, p) {
            Err(e) => Err(e),
            Ok((member, q)) => spec_members(b, q, n - 1, acc.push(member)),
        }
    }
}

/// The `n` interface indices that begin at `p`, and the position after them.
pub open spec fn spec_interfaces(b: Seq<u8>, p: int, n: int) -> Result<(Seq<u16>, int), ParseError> {
    if !fits(b, p, 2 * n) {
        Err(ParseError::Truncated { offset: p as usize })
    } else {
        Ok((Seq::new(n as nat, |k: int| be16(b, p + 2 * k)), p + 2 * n))
    }
}

/// What follows the constant pool `pool`, which ends at `p`: flags, the
/// indices of this class and its super class, then interfaces, fields,
/// methods and attributes, each after its count.
pub open spec fn spec_tail(b: Seq<u8>, p: int, pool: Seq<Option<EntryView>>) -> Result<
    ClassView,
    ParseError,
> {
    if !fits(b, p, 8) {
        Err(ParseError::Truncated { offset: p as usize })
    } else {
        match spec_interfaces(b, p + 8, be16(b, p + 6) as int) {
            Err(e) => Err(e),
            Ok((iface_indexes, at_fields)) => if !fits(b, at_fields, 2) {
                Err(ParseError::Truncated { offset: at_fields as usize })
            } else {
                match spec_members(b, at_fields + 2, be16(b, at_fields) as int, Seq::empty()) {
                    Err(e) => Err(e),
                    Ok((fields, at_methods)) => if !fits(b, at_methods, 2) {
                        Err(ParseError::Truncated { offset: at_methods as usize })
                    } else {
                        match spec_members(b, at_methods + 2, be16(b, at_methods) as int, Seq::empty()) {
                            Err(e) => Err(e),
                            Ok((methods, at_attributes)) => if !fits(b, at_attributes, 2) {
                                Err(ParseError::Truncated { offset: at_attributes as usize })
                            } else {
                                match spec_attributes(
                                    b,
                                    at_attributes + 2,
                                    be16(b, at_attributes) as int,
                                    Seq::empty(),
                                ) {
                                    Err(e) => Err(e),
                                    Ok((attributes, _)) => Ok(
                                        ClassView {
                                            minor_version: be16(b, 4),
                                            major_version: be16(b, 6),
                                            const_pool: pool,
                                            flags: be16(b, p),
                                            this_class_idx: be16(b, p + 2),
                                            super_class_idx: be16(b, p + 4),
                                            iface_indexes,
                                            fields,
                                            methods,
                                            attributes,
                                        },
                                    ),
                                }
                            },
                        }
                    },
                }
            },
        }
    }
}

/// The class that the bytes of a class file stand for, or why they stand
/// for none: the magic number, the two version numbers, the count of the
/// pool and the pool, and what follows it. Bytes after the class are not
/// looked at.
pub open spec fn spec_class(b: Seq<u8>) -> Result<ClassView, ParseError> {
    if !fits(b, 0, 4) || be32(b, 0) != 0xCAFEBABE {
        Err(ParseError::BadMagic)
    } else if !fits(b, 4, 6) {
        Err(ParseError::Truncated { offset: 4 })
    } else {
        match spec_pool(b, 10, 1, be16(b, 8) as int, seq![None]) {
            Err(e) => Err(e),
            Ok((pool, p)) => spec_tail(b, p, pool),
        }
    }
}

/// The string of a `Utf8` entry with the bytes `data`.
pub fn read_utf8_lossy(data: Vec<u8>) -> (s: String)
    ensures
        s@ == lossy(data@),
{
    match string_from_utf8(data) {
        Some(s) => s,
        None => {
            proof {
                reveal_strlit("N/A");
            }
            let s = "N/A".to_owned();
            assert(s@ =~= seq!['N', '/', 'A']);
            s
        },
    }
}

/// Whether `n` bytes lie at position `p` of `data`.
fn in_bounds(data: &[u8], p: usize, n: usize) -> (r: bool)
    requires
        p <= data@.len(),
    ensures
        r == fits(data@, p as int, n as int),
        data@.len() <= usize::MAX,
{
    n <= data.len() - p
}

fn read16(data: &[u8], p: usize) -> (r: u16)
    requires
        fits(data@, p as int, 2),
        data@.len() <= usize::MAX,
    ensures
        r == be16(data@, p as int),
{
    (data[p] as u16) * 256 + (data[p + 1] as u16)
}

fn read32(data: &[u8], p: usize) -> (r: u32)
    requires
        fits(data@, p as int, 4),
        data@.len() <= usize::MAX,
    ensures
        r == be32(data@, p as int),
{
    (read16(data, p) as u32) * 65536 + (read16(data, p + 2) as u32)
}

fn read64(data: &[u8], p: usize) -> (r: u64)
    requires
        fits(data@, p as int, 8),
        data@.len() <= usize::MAX,
    ensures
        r == be64(data@, p as int),
{
    (read32(data, p) as u64) * 4294967296 + (read32(data, p + 4) as u64)
}

/// Reads the entry of fixed size with tag `tag` whose bytes after the tag
/// begin at `p`.
fn parse_fixed_entry(data: &[u8], p: usize, tag: u8) -> (r: ConstPoolEntry)
    requires
        fixed_payload(tag) matches Some(n) && fits(data@, p as int, n),
        data@.len() <= usize::MAX,
    ensures
        r@ == fixed_entry(data@, p as int, tag),
{
    if tag == 3 {
        ConstPoolEntry::Int { value: #[verifier::truncate] (read32(data, p) as i32) }
    } else if tag == 4 {
        ConstPoolEntry::Float { bits: read32(data, p) }
    } else if tag == 5 {
        ConstPoolEntry::Long { value: #[verifier::truncate] (read64(data, p) as i64) }
    } else if tag == 6 {
        ConstPoolEntry::Double { bits: read64(data, p) }
    } else if tag == 7 {
        ConstPoolEntry::Class { name_index: read16(data, p) }
    } else if tag == 8 {
        ConstPoolEntry::String { index: read16(data, p) }
    } else if tag == 9 {
        ConstPoolEntry::FieldRef {
            class_index: read16(data, p),
            name_type_index: read16(data, p + 2),
        }
    } else if tag == 10 {
        ConstPoolEntry::MethodRef {
            class_index: read16(data, p),
            name_type_index: read16(data, p + 2),
        }
    } else if tag == 11 {
        ConstPoolEntry::IfaceMethodRef {
            class_index: read16(data, p),
            name_type_index: read16(data, p + 2),
        }
    } else if tag == 12 {
        ConstPoolEntry::NameAndType {
            name_index: read16(data, p),
            descriptor_index: read16(data, p + 2),
        }
    } else if tag == 15 {
        ConstPoolEntry::MethodHandle { ref_kind: data[p], ref_index: read16(data, p + 1) }
    } else if tag == 16 {
        ConstPoolEntry::MethodType { descriptor_index: read16(data, p) }
    } else if tag == 18 {
        ConstPoolEntry::InvokeDynamic {
            bootstrap_index: read16(data, p),
            name_type_index: read16(data, p + 2),
        }
    } else if tag == 19 {
        ConstPoolEntry::Module { name_index: read16(data, p) }
    } else {
        ConstPoolEntry::Package { name_index: read16(data, p) }
    }
}

/// How many bytes follow the tag of an entry of fixed size.
fn payload_size(tag: u8) -> (r: Option<usize>)
    ensures
        match r {
            Some(n) => fixed_payload(tag) == Some(n as int),
            None => fixed_payload(tag) is None,
        },
{
    if tag == 3 || tag == 4 || tag == 9 || tag == 10 || tag == 11 || tag == 12 || tag == 18 {
        Some(4)
    } else if tag == 5 || tag == 6 {
        Some(8)
    } else if tag == 7 || tag == 8 || tag == 16 || tag == 19 || tag == 20 {
        Some(2)
    } else if tag == 15 {
        Some(3)
    } else {
        None
    }
}

/// Reads the constant pool entry that begins at `p`, for place `index`.
pub fn parse_entry(data: &[u8], p: usize, index: u16) -> (r: Result<
    (ConstPoolEntry, usize),
    ParseError,
>)
    ensures
        match r {
            Ok((entry, q)) => p < q <= data@.len() && spec_entry(data@, p as int, index) == Ok::<
                (EntryView, int),
                ParseError,
            >((entry@, q as int)),
            Err(e) => spec_entry(data@, p as int, index) == Err::<(EntryView, int), ParseError>(e),
        },
{
    if p > data.len() {
        return Err(ParseError::Truncated { offset: p });
    }
    if !in_bounds(data, p, 1) {
        return Err(ParseError::Truncated { offset: p });
    }
    let tag = data[p];
    if tag == 1 {
        if !in_bounds(data, p + 1, 2) {
            return Err(ParseError::Truncated { offset: p + 1 });
        }
        let length = read16(data, p + 1) as usize;
        if !in_bounds(data, p + 3, length) {
            return Err(ParseError::Truncated { offset: p + 3 });
        }
        let bytes = slice_to_vec(slice_subrange(data, p + 3, p + 3 + length));
        let value = read_utf8_lossy(bytes);
        Ok((ConstPoolEntry::Utf8 { value }, p + 3 + length))
    } else {
        match payload_size(tag) {
            None => Err(ParseError::UnknownTag { index, tag, offset: p }),
            Some(n) => {
                if !in_bounds(data, p + 1, n) {
                    return Err(ParseError::Truncated { offset: p + 1 });
                }
                Ok((parse_fixed_entry(data, p + 1, tag), p + 1 + n))
            },
        }
    }
}

/// Reads a constant pool of `count` places whose first entry begins at `p`.
pub fn parse_const_pool(data: &[u8], p: usize, count: u16) -> (r: Result<
    (Vec<Option<ConstPoolEntry>>, usize),
    ParseError,
>)
    ensures
        match r {
            Ok((pool, q)) => (q <= data@.len() || q == p) && spec_pool(
                data@,
                p as int,
                1,
                count as int,
                seq![None],
            ) == Ok::<(Seq<Option<EntryView>>, int), ParseError>((pool_view(pool@), q as int)),
            Err(e) => spec_pool(data@, p as int, 1, count as int, seq![None]) == Err::<
                (Seq<Option<EntryView>>, int),
                ParseError,
            >(e),
        },
{
    let mut pool: Vec<Option<ConstPoolEntry>> = Vec::new();
    pool.push(None);
    assert(pool_view(pool@) =~= seq![None]);
    let mut at: usize = p;
    let mut i: u32 = 1;
    while i < count as u32
        invariant
            at <= data@.len() || at == p,
            1 <= i <= count + 1,
            spec_pool(data@, p as int, 1, count as int, seq![None]) == spec_pool(
                data@,
                at as int,
                i as int,
                count as int,
                pool_view(pool@),
            ),
        decreases count + 1 - i,
    {
        let ghost before = pool_view(pool@);
        match parse_entry(data, at, i as u16) {
            Err(e) => {
                return Err(e);
            },
            Ok((entry, next)) => {
                let wide = match entry {
                    ConstPoolEntry::Long { .. } => true,
                    ConstPoolEntry::Double { .. } => true,
                    _ => false,
                };
                assert(wide == entry@.wide());
                let ghost view = entry@;
                pool.push(Some(entry));
                assert(pool_view(pool@) =~= before.push(Some(view)));
                if wide {
                    pool.push(None);
                    assert(pool_view(pool@) =~= before.push(Some(view)).push(None));
                    i += 2;
                } else {
                    i += 1;
                }
                at = next;
            },
        }
    }
    Ok((pool, at))
}

/// Reads the attribute that begins at `p`.
fn parse_attribute(data: &[u8], p: usize) -> (r: Result<(AttributeInfo, usize), ParseError>)
    requires
        p <= data@.len(),
    ensures
        match r {
            Ok((a, q)) => q <= data@.len() && spec_attribute(data@, p as int) == Ok::<
                (AttributeView, int),
                ParseError,
            >((a@, q as int)),
            Err(e) => spec_attribute(data@, p as int) == Err::<(AttributeView, int), ParseError>(e),
        },
{
    if !in_bounds(data, p, 6) {
        return Err(ParseError::Truncated { offset: p });
    }
    let name_index = read16(data, p);
    let length = read32(data, p + 2) as usize;
    if !in_bounds(data, p + 6, length) {
        return Err(ParseError::Truncated { offset: p + 6 });
    }
    let bytes = slice_to_vec(slice_subrange(data, p + 6, p + 6 + length));
    Ok((AttributeInfo { name_index, data: bytes }, p + 6 + length))
}

/// Reads the `n` attributes that begin at `p`.
fn parse_attributes(data: &[u8], p: usize, n: u16) -> (r: Result<
    (Vec<AttributeInfo>, usize),
    ParseError,
>)
    requires
        p <= data@.len(),
    ensures
        match r {
            Ok((v, q)) => q <= data@.len() && spec_attributes(
                data@,
                p as int,
                n as int,
                Seq::empty(),
            ) == Ok::<(Seq<AttributeView>, int), ParseError>((view_each(v@), q as int)),
            Err(e) => spec_attributes(data@, p as int, n as int, Seq::empty()) == Err::<
                (Seq<AttributeView>, int),
                ParseError,
            >(e),
        },
{
    let mut result: Vec<AttributeInfo> = Vec::new();
    assert(view_each(result@) =~= Seq::<AttributeView>::empty());
    let mut at: usize = p;
    let mut left: u16 = n;
    while left > 0
        invariant
            at <= data@.len(),
            spec_attributes(data@, p as int, n as int, Seq::empty()) == spec_attributes(
                data@,
                at as int,
                left as int,
                view_each(result@),
            ),
        decreases left,
    {
        let ghost before = view_each(result@);
        match parse_attribute(data, at) {
            Err(e) => {
                return Err(e);
            },
            Ok((attribute, next)) => {
                let ghost view = attribute@;
                result.push(attribute);
                assert(view_each(result@) =~= before.push(view));
                at = next;
                left -= 1;
            },
        }
    }
    Ok((result, at))
}

/// Reads the `n` fields that begin at `p`.
fn parse_fields(data: &[u8], p: usize, n: u16) -> (r: Result<(Vec<FieldInfo>, usize), ParseError>)
    requires
        p <= data@.len(),
    ensures
        match r {
            Ok((v, q)) => q <= data@.len() && spec_members(
                data@,
                p as int,
                n as int,
                Seq::empty(),
            ) == Ok::<(Seq<MemberView>, int), ParseError>((view_each(v@), q as int)),
            Err(e) => spec_members(data@, p as int, n as int, Seq::empty()) == Err::<
                (Seq<MemberView>, int),
                ParseError,
            >(e),
        },
{
    let mut result: Vec<FieldInfo> = Vec::new();
    assert(view_each(result@) =~= Seq::<MemberView>::empty());
    let mut at: usize = p;
    let mut left: u16 = n;
    while left > 0
        invariant
            at <= data@.len(),
            spec_members(data@, p as int, n as int, Seq::empty()) == spec_members(
                data@,
                at as int,
                left as int,
                view_each(result@),
            ),
        decreases left,
    {
        let ghost before = view_each(result@);
        if !in_bounds(data, at, 8) {
            return Err(ParseError::Truncated { offset: at });
        }
        match parse_attributes(data, at + 8, read16(data, at + 6)) {
            Err(e) => {
                return Err(e);
            },
            Ok((attributes, next)) => {
                let field = FieldInfo {
                    flags: read16(data, at),
                    name_index: read16(data, at + 2),
                    descriptor_index: read16(data, at + 4),
                    attributes,
                };
                let ghost view = field@;
                result.push(field);
                assert(view_each(result@) =~= before.push(view));
                at = next;
                left -= 1;
            },
        }
    }
    Ok((result, at))
}

/// Reads the `n` methods that begin at `p`.
fn parse_methods(data: &[u8], p: usize, n: u16) -> (r: Result<(Vec<MethodInfo>, usize), ParseError>)
    requires
        p <= data@.len(),
    ensures
        match r {
            Ok((v, q)) => q <= data@.len() && spec_members(
                data@,
                p as int,
                n as int,
                Seq::empty(),
            ) == Ok::<(Seq<MemberView>, int), ParseError>((view_each(v@), q as int)),
            Err(e) => spec_members(data@, p as int, n as int, Seq::empty()) == Err::<
                (Seq<MemberView>, int),
                ParseError,
            >(e),
        },
{
    let mut result: Vec<MethodInfo> = Vec::new();
    assert(view_each(result@) =~= Seq::<MemberView>::empty());
    let mut at: usize = p;
    let mut left: u16 = n;
    while left > 0
        invariant
            at <= data@.len(),
            spec_members(data@, p as int, n as int, Seq::empty()) == spec_members(
                data@,
                at as int,
                left as int,
                view_each(result@),
            ),
        decreases left,
    {
        let ghost before = view_each(result@);
        if !in_bounds(data, at, 8) {
            return Err(ParseError::Truncated { offset: at });
        }
        match parse_attributes(data, at + 8, read16(data, at + 6)) {
            Err(e) => {
                return Err(e);
            },
            Ok((attributes, next)) => {
                let method = MethodInfo {
                    flags: MethodFlags { bits: read16(data, at) },
                    name_index: read16(data, at + 2),
                    descriptor_index: read16(data, at + 4),
                    attributes,
                };
                let ghost view = method@;
                result.push(method);
                assert(view_each(result@) =~= before.push(view));
                at = next;
                left -= 1;
            },
        }
    }
    Ok((result, at))
}

/// Reads the `n` interface indices that begin at `p`.
fn parse_interfaces(data: &[u8], p: usize, n: u16) -> (r: Result<(Vec<u16>, usize), ParseError>)
    requires
        p <= data@.len(),
    ensures
        match r {
            Ok((v, q)) => q <= data@.len() && spec_interfaces(data@, p as int, n as int) == Ok::<
                (Seq<u16>, int),
                ParseError,
            >((v@, q as int)),
            Err(e) => spec_interfaces(data@, p as int, n as int) == Err::<
                (Seq<u16>, int),
                ParseError,
            >(e),
        },
{
    if data.len() - p < 2 * (n as usize) {
        return Err(ParseError::Truncated { offset: p });
    }
    let mut result: Vec<u16> = Vec::new();
    let mut k: usize = 0;
    while k < n as usize
        invariant
            k <= n,
            fits(data@, p as int, 2 * n),
            data@.len() <= usize::MAX,
            result@.len() == k,
            forall|j: int| 0 <= j < k ==> result@[j] == be16(data@, p + 2 * j),
        decreases n - k,
    {
        result.push(read16(data, p + 2 * k));
        k += 1;
    }
    assert(result@ =~= Seq::new(n as nat, |j: int| be16(data@, p + 2 * j)));
    Ok((result, p + 2 * (n as usize)))
}

/// Reads what follows the constant pool `pool`, which ends at `p`.
fn parse_tail(data: &[u8], p: usize, pool: Vec<Option<ConstPoolEntry>>) -> (r: Result<
    Class,
    ParseError,
>)
    requires
        p <= data@.len(),
        fits(data@, 4, 6),
        data@.len() <= usize::MAX,
    ensures
        match r {
            Ok(class) => spec_tail(data@, p as int, pool_view(pool@)) == Ok::<
                ClassView,
                ParseError,
            >(class@),
            Err(e) => spec_tail(data@, p as int, pool_view(pool@)) == Err::<ClassView, ParseError>(
                e,
            ),
        },
{
    if !in_bounds(data, p, 8) {
        return Err(ParseError::Truncated { offset: p });
    }
    let (iface_indexes, at_fields) = match parse_interfaces(data, p + 8, read16(data, p + 6)) {
        Ok(x) => x,
        Err(e) => {
            return Err(e);
        },
    };
    if !in_bounds(data, at_fields, 2) {
        return Err(ParseError::Truncated { offset: at_fields });
    }
    let (fields, at_methods) = match parse_fields(data, at_fields + 2, read16(data, at_fields)) {
        Ok(x) => x,
        Err(e) => {
            return Err(e);
        },
    };
    if !in_bounds(data, at_methods, 2) {
        return Err(ParseError::Truncated { offset: at_methods });
    }
    let (methods, at_attributes) = match parse_methods(data, at_methods + 2, read16(data, at_methods)) {
        Ok(x) => x,
        Err(e) => {
            return Err(e);
        },
    };
    if !in_bounds(data, at_attributes, 2) {
        return Err(ParseError::Truncated { offset: at_attributes });
    }
    let (attributes, _) = match parse_attributes(data, at_attributes + 2, read16(data, at_attributes)) {
        Ok(x) => x,
        Err(e) => {
            return Err(e);
        },
    };
    Ok(
        Class {
            minor_version: read16(data, 4),
            major_version: read16(data, 6),
            const_pool: pool,
            flags: ClassFlags { bits: read16(data, p) },
            this_class_idx: read16(data, p + 2),
            super_class_idx: read16(data, p + 4),
            iface_indexes,
            fields,
            methods,
            attributes,
        },
    )
}

impl Class {
    /// Decodes a class file.
    pub fn from(data: &[u8]) -> (r: Result<Class, ParseError>)
        ensures
            match r {
                Ok(class) => spec_class(data@) == Ok::<ClassView, ParseError>(class@),
                Err(e) => spec_class(data@) == Err::<ClassView, ParseError>(e),
            },
    {
        if !in_bounds(data, 0, 4) {
            return Err(ParseError::BadMagic);
        }
        if read32(data, 0) != 0xCAFEBABE {
            return Err(ParseError::BadMagic);
        }
        if !in_bounds(data, 4, 6) {
            return Err(ParseError::Truncated { offset: 4 });
        }
        match parse_const_pool(data, 10, read16(data, 8)) {
            Err(e) => Err(e),
            Ok((pool, p)) => parse_tail(data, p, pool),
        }
    }
}

/// Decoding is a function of the bytes: two records that the same bytes
/// decode to hold the same.
pub proof fn lemma_decoding_is_a_function(bytes: Seq<u8>, first: Class, second: Class)
    requires
        spec_class(bytes) == Ok::<ClassView, ParseError>(first@),
        spec_class(bytes) == Ok::<ClassView, ParseError>(second@),
    ensures
        first@ == second@,
{
}

} // verus!
