use reference_checker::decoder::{parse_const_pool, parse_entry, read_utf8_lossy};
use reference_checker::error::ParseError;
use reference_checker::java_class::{Class, ConstPoolEntry};

/// A class file in the making: the bytes of its constant pool and the
/// index that the next entry gets.
struct Draft {
    pool: Vec<u8>,
    next: u16,
}

fn draft() -> Draft {
    Draft { pool: Vec::new(), next: 1 }
}

fn put16(out: &mut Vec<u8>, value: u16) {
    out.push((value >> 8) as u8);
    out.push((value & 0xff) as u8);
}

fn put_bytes(d: &mut Draft, bytes: &[u8]) -> u16 {
    d.pool.push(1);
    put16(&mut d.pool, bytes.len() as u16);
    d.pool.extend_from_slice(bytes);
    d.next += 1;
    d.next - 1
}

fn put_utf8(d: &mut Draft, text: &str) -> u16 {
    put_bytes(d, text.as_bytes())
}

fn put_class(d: &mut Draft, name: &str) -> u16 {
    let name_index = put_utf8(d, name);
    d.pool.push(7);
    put16(&mut d.pool, name_index);
    d.next += 1;
    d.next - 1
}

fn put_pair(d: &mut Draft, tag: u8, first: u16, second: u16) -> u16 {
    d.pool.push(tag);
    put16(&mut d.pool, first);
    put16(&mut d.pool, second);
    d.next += 1;
    d.next - 1
}

fn put_long(d: &mut Draft, tag: u8, value: u64) -> u16 {
    d.pool.push(tag);
    for shift in (0..8).rev() {
        d.pool.push(((value >> (shift * 8)) & 0xff) as u8);
    }
    d.next += 2;
    d.next - 2
}

fn finish(d: Draft, flags: u16, this: u16, super_class: u16, ifaces: &[u16], methods: &[(u16, u16)]) -> Vec<u8> {
    let mut out = vec![0xCA, 0xFE, 0xBA, 0xBE];
    put16(&mut out, 3);
    put16(&mut out, 61);
    put16(&mut out, d.next);
    out.extend_from_slice(&d.pool);
    put16(&mut out, flags);
    put16(&mut out, this);
    put16(&mut out, super_class);
    put16(&mut out, ifaces.len() as u16);
    for i in ifaces {
        put16(&mut out, *i);
    }
    put16(&mut out, 0);
    put16(&mut out, methods.len() as u16);
    for (name, descriptor) in methods {
        put16(&mut out, 0x0001);
        put16(&mut out, *name);
        put16(&mut out, *descriptor);
        put16(&mut out, 0);
    }
    put16(&mut out, 0);
    out
}

fn small_class() -> Vec<u8> {
    let mut d = draft();
    let this = put_class(&mut d, "acme/A");
    let super_class = put_class(&mut d, "java/lang/Object");
    let iface = put_class(&mut d, "acme/I");
    let name = put_utf8(&mut d, "run");
    let descriptor = put_utf8(&mut d, "()V");
    finish(d, 0x0021, this, super_class, &[iface], &[(name, descriptor)])
}

#[test]
fn decodes_a_small_class() {
    let class = Class::from(&small_class()).unwrap();
    assert_eq!(class.minor_version, 3);
    assert_eq!(class.major_version, 61);
    assert_eq!(class.const_pool.len(), 9);
    assert!(class.const_pool[0].is_none());
    assert_eq!(class.flags.bits, 0x0021);
    assert_eq!(class.this_class_idx, 2);
    assert_eq!(class.super_class_idx, 4);
    assert_eq!(class.iface_indexes, vec![6]);
    assert_eq!(class.methods.len(), 1);
    assert_eq!(class.methods[0].name_index, 7);
    assert_eq!(class.methods[0].descriptor_index, 8);
    assert_eq!(class.methods[0].flags.bits, 0x0001);
    assert_eq!(class.fields.len(), 0);
    assert_eq!(class.attributes.len(), 0);
    assert_eq!(class.get_name(), Ok("acme/A"));
    assert_eq!(class.get_utf8(&7), Ok("run"));
    assert_eq!(class.get_methods(), Ok(vec![String::from("run()V")]));
    assert!(!class.is_interface());
    assert!(!class.is_module());
}

#[test]
fn refuses_bad_magic() {
    let mut bytes = small_class();
    bytes[3] = 0xBF;
    assert!(matches!(Class::from(&bytes), Err(ParseError::BadMagic)));
    assert!(matches!(Class::from(&[0xCA, 0xFE]), Err(ParseError::BadMagic)));
    assert!(matches!(Class::from(&[]), Err(ParseError::BadMagic)));
}

#[test]
fn refuses_a_truncated_file() {
    let bytes = small_class();
    let cut = &bytes[..bytes.len() - 1];
    assert!(matches!(Class::from(cut), Err(ParseError::Truncated { offset }) if offset == bytes.len() - 2));
    assert!(matches!(Class::from(&bytes[..7]), Err(ParseError::Truncated { offset: 4 })));
    // The pool is announced and missing.
    assert!(matches!(Class::from(&bytes[..10]), Err(ParseError::Truncated { offset: 10 })));
    // A Utf8 entry whose bytes are cut short.
    assert!(matches!(Class::from(&bytes[..15]), Err(ParseError::Truncated { offset: 13 })));
}

#[test]
fn refuses_an_unknown_tag() {
    let mut bytes = small_class();
    bytes[10] = 2;
    assert!(matches!(
        Class::from(&bytes),
        Err(ParseError::UnknownTag { index: 1, tag: 2, offset: 10 })
    ));
}

#[test]
fn ignores_bytes_after_the_class() {
    let mut bytes = small_class();
    bytes.extend_from_slice(&[1, 2, 3]);
    let class = Class::from(&bytes).unwrap();
    assert_eq!(class.get_name(), Ok("acme/A"));
}

#[test]
fn long_and_double_take_two_places() {
    let mut d = draft();
    let this = put_class(&mut d, "acme/A");
    let long = put_long(&mut d, 5, 0xffff_ffff_ffff_fffe);
    let after = put_utf8(&mut d, "after");
    let double = put_long(&mut d, 6, 0x4000_0000_0000_0000);
    let last = put_utf8(&mut d, "last");
    assert_eq!((long, after, double, last), (3, 5, 6, 8));
    let class = Class::from(&finish(d, 0x0021, this, 0, &[], &[])).unwrap();
    assert_eq!(class.const_pool.len(), 9);
    assert!(matches!(class.const_pool[3], Some(ConstPoolEntry::Long { value: -2 })));
    assert!(class.const_pool[4].is_none());
    assert_eq!(class.get_utf8(&5), Ok("after"));
    assert!(matches!(
        class.const_pool[6],
        Some(ConstPoolEntry::Double { bits: 0x4000_0000_0000_0000 })
    ));
    assert!(class.const_pool[7].is_none());
    assert_eq!(class.get_utf8(&8), Ok("last"));
    assert_eq!(class.get_utf8(&4), Err(ParseError::BadPoolTag { index: 4 }));
}

#[test]
fn a_long_in_the_last_place_ends_the_pool() {
    let mut d = draft();
    let this = put_class(&mut d, "acme/A");
    put_long(&mut d, 5, 7);
    // The count names the second place of the long as the first free index.
    d.next -= 1;
    let class = Class::from(&finish(d, 0x0021, this, 0, &[], &[])).unwrap();
    assert_eq!(class.const_pool.len(), 5);
    assert!(matches!(class.const_pool[3], Some(ConstPoolEntry::Long { value: 7 })));
    assert!(class.const_pool[4].is_none());
}

#[test]
fn decodes_every_kind_of_entry() {
    let mut d = draft();
    let this = put_class(&mut d, "acme/A");
    let nat = {
        let n = put_utf8(&mut d, "f");
        let t = put_utf8(&mut d, "I");
        put_pair(&mut d, 12, n, t)
    };
    let field = put_pair(&mut d, 9, this, nat);
    let method = put_pair(&mut d, 10, this, nat);
    let iface_method = put_pair(&mut d, 11, this, nat);
    d.pool.extend_from_slice(&[8, 0, 3]);
    d.pool.extend_from_slice(&[3, 0xff, 0xff, 0xff, 0xff]);
    d.pool.extend_from_slice(&[4, 0x3f, 0x80, 0, 0]);
    d.pool.extend_from_slice(&[15, 6, 0, 7]);
    d.pool.extend_from_slice(&[16, 0, 4]);
    d.pool.extend_from_slice(&[18, 0, 1, 0, 5]);
    d.pool.extend_from_slice(&[19, 0, 3]);
    d.pool.extend_from_slice(&[20, 0, 4]);
    d.next += 8;
    let class = Class::from(&finish(d, 0x8000, this, 0, &[], &[])).unwrap();
    let pool = &class.const_pool;
    assert!(matches!(pool[2], Some(ConstPoolEntry::Class { name_index: 1 })));
    assert!(matches!(pool[5], Some(ConstPoolEntry::NameAndType { name_index: 3, descriptor_index: 4 })));
    assert!(matches!(pool[field as usize], Some(ConstPoolEntry::FieldRef { class_index: 2, name_type_index: 5 })));
    assert!(matches!(pool[method as usize], Some(ConstPoolEntry::MethodRef { class_index: 2, name_type_index: 5 })));
    assert!(matches!(
        pool[iface_method as usize],
        Some(ConstPoolEntry::IfaceMethodRef { class_index: 2, name_type_index: 5 })
    ));
    assert!(matches!(pool[9], Some(ConstPoolEntry::String { index: 3 })));
    assert!(matches!(pool[10], Some(ConstPoolEntry::Int { value: -1 })));
    assert!(matches!(pool[11], Some(ConstPoolEntry::Float { bits: 0x3f80_0000 })));
    assert!(matches!(pool[12], Some(ConstPoolEntry::MethodHandle { ref_kind: 6, ref_index: 7 })));
    assert!(matches!(pool[13], Some(ConstPoolEntry::MethodType { descriptor_index: 4 })));
    assert!(matches!(
        pool[14],
        Some(ConstPoolEntry::InvokeDynamic { bootstrap_index: 1, name_type_index: 5 })
    ));
    assert!(matches!(pool[15], Some(ConstPoolEntry::Module { name_index: 3 })));
    assert!(matches!(pool[16], Some(ConstPoolEntry::Package { name_index: 4 })));
    assert!(class.is_module());
    assert!(!class.is_interface());
}

#[test]
fn decodes_fields_methods_and_attributes() {
    let mut d = draft();
    let this = put_class(&mut d, "acme/A");
    let mut out = vec![0xCA, 0xFE, 0xBA, 0xBE, 0, 0, 0, 52];
    put16(&mut out, d.next);
    out.extend_from_slice(&d.pool);
    put16(&mut out, 0x0200);
    put16(&mut out, this);
    put16(&mut out, 0);
    put16(&mut out, 0);
    // One field with one attribute of two bytes.
    put16(&mut out, 1);
    out.extend_from_slice(&[0, 2, 0, 1, 0, 1, 0, 1]);
    out.extend_from_slice(&[0, 9, 0, 0, 0, 2, 0xAA, 0xBB]);
    // One method with two attributes.
    put16(&mut out, 1);
    out.extend_from_slice(&[0, 8, 0, 1, 0, 1, 0, 2]);
    out.extend_from_slice(&[0, 5, 0, 0, 0, 0]);
    out.extend_from_slice(&[0, 6, 0, 0, 0, 1, 0x7f]);
    // One attribute of the class.
    put16(&mut out, 1);
    out.extend_from_slice(&[0, 7, 0, 0, 0, 3, 1, 2, 3]);
    let class = Class::from(&out).unwrap();
    assert!(class.is_interface());
    assert_eq!(class.fields.len(), 1);
    assert_eq!(class.fields[0].flags, 2);
    assert_eq!(class.fields[0].attributes.len(), 1);
    assert_eq!(class.fields[0].attributes[0].name_index, 9);
    assert_eq!(class.fields[0].attributes[0].data, vec![0xAA, 0xBB]);
    assert_eq!(class.methods.len(), 1);
    assert_eq!(class.methods[0].flags.bits, 8);
    assert_eq!(class.methods[0].attributes.len(), 2);
    assert_eq!(class.methods[0].attributes[0].data, Vec::<u8>::new());
    assert_eq!(class.methods[0].attributes[1].data, vec![0x7f]);
    assert_eq!(class.attributes.len(), 1);
    assert_eq!(class.attributes[0].name_index, 7);
    assert_eq!(class.attributes[0].data, vec![1, 2, 3]);
    // An attribute that claims more bytes than there are.
    let mut cut = out.clone();
    let at = cut.len() - 4;
    cut[at] = 9;
    assert!(matches!(Class::from(&cut), Err(ParseError::Truncated { .. })));
}

#[test]
fn a_string_that_is_not_utf8_reads_as_a_placeholder() {
    assert_eq!(read_utf8_lossy(vec![0xff, 0xfe]), "N/A");
    assert_eq!(read_utf8_lossy(vec![0xc3]), "N/A");
    assert_eq!(read_utf8_lossy(vec![0xed, 0xa0, 0x80]), "N/A");
    assert_eq!(read_utf8_lossy(vec![]), "");
    assert_eq!(read_utf8_lossy(vec![0x61, 0xc3, 0xa9, 0xe2, 0x82, 0xac]), "a\u{e9}\u{20ac}");
    let mut d = draft();
    let this = put_class(&mut d, "acme/A");
    let bad = put_bytes(&mut d, &[0x80, 0x41]);
    let class = Class::from(&finish(d, 0x0021, this, 0, &[], &[])).unwrap();
    assert_eq!(class.get_utf8(&bad), Ok("N/A"));
}

#[test]
fn reads_one_entry_and_one_pool() {
    let bytes = [9u8, 7, 0, 5, 1, 0, 2, b'h', b'i'];
    let (entry, next) = parse_entry(&bytes, 1, 1).unwrap();
    assert!(matches!(entry, ConstPoolEntry::Class { name_index: 5 }));
    assert_eq!(next, 4);
    let (pool, end) = parse_const_pool(&bytes, 1, 3).unwrap();
    assert_eq!(end, 9);
    assert_eq!(pool.len(), 3);
    assert!(matches!(&pool[2], Some(ConstPoolEntry::Utf8 { value }) if value == "hi"));
    assert!(matches!(parse_entry(&bytes, 9, 4), Err(ParseError::Truncated { offset: 9 })));
    assert!(matches!(
        parse_entry(&bytes, 0, 4),
        Ok((ConstPoolEntry::FieldRef { class_index: 0x0700, name_type_index: 0x0501 }, 5))
    ));
    assert!(matches!(parse_entry(&bytes, 3, 2), Err(ParseError::Truncated { offset: 4 })));
    assert!(matches!(
        parse_entry(&bytes, 2, 6),
        Err(ParseError::UnknownTag { index: 6, tag: 0, offset: 2 })
    ));
}

#[test]
fn a_wrong_index_is_a_bad_pool_tag() {
    let class = Class::from(&small_class()).unwrap();
    assert_eq!(class.get_utf8(&2), Err(ParseError::BadPoolTag { index: 2 }));
    assert_eq!(class.get_utf8(&0), Err(ParseError::BadPoolTag { index: 0 }));
    assert_eq!(class.get_utf8(&900), Err(ParseError::BadPoolTag { index: 900 }));
    assert_eq!(class.class_name(1), Err(ParseError::BadPoolTag { index: 1 }));
    let mut d = draft();
    let name = put_utf8(&mut d, "acme/A");
    let class = Class::from(&finish(d, 0x0021, name, 0, &[], &[(name, 0)])).unwrap();
    assert_eq!(class.get_name(), Err(ParseError::BadPoolTag { index: 1 }));
    assert_eq!(class.get_methods(), Err(ParseError::BadPoolTag { index: 0 }));
}

#[test]
fn a_class_entry_is_used_where_a_reference_names_it() {
    let mut d = draft();
    let this = put_class(&mut d, "acme/A");
    let field_owner = put_class(&mut d, "acme/F");
    let method_owner = put_class(&mut d, "acme/M");
    let iface_owner = put_class(&mut d, "acme/I");
    let unused = put_class(&mut d, "acme/U");
    let n = put_utf8(&mut d, "x");
    let t = put_utf8(&mut d, "I");
    let nat = put_pair(&mut d, 12, n, t);
    put_pair(&mut d, 9, field_owner, nat);
    put_pair(&mut d, 10, method_owner, nat);
    put_pair(&mut d, 11, iface_owner, nat);
    // An entry of another kind that holds the same number.
    d.pool.extend_from_slice(&[8]);
    put16(&mut d.pool, unused);
    d.next += 1;
    let class = Class::from(&finish(d, 0x0021, this, 0, &[], &[])).unwrap();
    assert!(class.is_class_entry_used(&field_owner));
    assert!(class.is_class_entry_used(&method_owner));
    assert!(class.is_class_entry_used(&iface_owner));
    assert!(!class.is_class_entry_used(&unused));
    assert!(!class.is_class_entry_used(&this));
    assert!(!class.is_class_entry_used(&4000));
}

#[test]
fn decoding_the_same_bytes_gives_the_same_record() {
    let bytes = small_class();
    let first = Class::from(&bytes).unwrap();
    let second = Class::from(&bytes).unwrap();
    assert_eq!(format!("{:?}", first), format!("{:?}", second));
}
