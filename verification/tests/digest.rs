use reference_checker::classinfo::{ClassInfo, DigestError, Expected};
use reference_checker::platform::{read_classinfo, Platform};

fn failure(text: &str) -> DigestError {
    ClassInfo::from_string(text).unwrap_err()
}

#[test]
fn reads_the_records_of_a_digest() {
    let text = "java/lang/Object:::2\n--toString()Ljava/lang/String;\n--hashCode()I\n\
                java/lang/String:java/lang/Object:java/lang/Comparable,java/lang/CharSequence:1\n\
                --length()I\n";
    let records = ClassInfo::from_string(text).unwrap();
    assert_eq!(records.len(), 2);
    assert_eq!(records[0].name, "java/lang/Object");
    assert_eq!(records[0].super_class, None);
    assert!(records[0].interfaces.is_empty());
    assert_eq!(records[0].methods.len(), 2);
    assert_eq!(records[0].methods[0].signature, "toString()Ljava/lang/String;");
    assert!(!records[0].methods[0].polymorphic_signature);
    assert_eq!(records[0].methods[1].signature, "hashCode()I");
    assert_eq!(records[1].name, "java/lang/String");
    assert_eq!(records[1].super_class, Some(String::from("java/lang/Object")));
    assert_eq!(
        records[1].interfaces,
        vec![String::from("java/lang/Comparable"), String::from("java/lang/CharSequence")]
    );
    assert_eq!(records[1].methods.len(), 1);
    assert_eq!(records[1].methods[0].signature, "length()I");
}

#[test]
fn reads_one_record_from_a_position() {
    let text = b"x:::0\nacme/B:acme/A::1\n--m()V\nrest";
    let (record, next) = ClassInfo::parse(text, 6).unwrap();
    assert_eq!(record.name, "acme/B");
    assert_eq!(record.super_class, Some(String::from("acme/A")));
    assert_eq!(record.methods.len(), 1);
    assert_eq!(next, 30);
    let (first, after) = ClassInfo::parse(text, 0).unwrap();
    assert_eq!(first.name, "x");
    assert_eq!(after, 6);
}

#[test]
fn empty_interface_names_are_left_out() {
    let records = ClassInfo::from_string("a:b:,x,,y,:0\nc:d:,:0\ne:f::0\n").unwrap();
    assert_eq!(records[0].interfaces, vec![String::from("x"), String::from("y")]);
    assert!(records[1].interfaces.is_empty());
    assert!(records[2].interfaces.is_empty());
}

#[test]
fn a_polymorphic_signature_is_marked_and_the_mark_is_cut_off() {
    let text = "java/lang/invoke/MethodHandle:::4\n\
                --invoke([Ljava/lang/Object;)Ljava/lang/Object;:PS\n--type()V\n--:PS\n--PS\n";
    let records = ClassInfo::from_string(text).unwrap();
    let methods = &records[0].methods;
    assert_eq!(methods[0].signature, "invoke([Ljava/lang/Object;)Ljava/lang/Object;");
    assert!(methods[0].polymorphic_signature);
    assert_eq!(methods[1].signature, "type()V");
    assert!(!methods[1].polymorphic_signature);
    assert_eq!(methods[2].signature, "");
    assert!(methods[2].polymorphic_signature);
    assert_eq!(methods[3].signature, "PS");
    assert!(!methods[3].polymorphic_signature);
}

#[test]
fn text_that_is_not_ascii_is_read() {
    let records = ClassInfo::from_string("caf\u{e9}:\u{20ac}:\u{fc}:1\n--m\u{e4}()V\n").unwrap();
    assert_eq!(records[0].name, "caf\u{e9}");
    assert_eq!(records[0].super_class, Some(String::from("\u{20ac}")));
    assert_eq!(records[0].interfaces, vec![String::from("\u{fc}")]);
    assert_eq!(records[0].methods[0].signature, "m\u{e4}()V");
}

#[test]
fn a_missing_colon_is_named_with_the_end_of_the_text() {
    assert_eq!(failure(""), DigestError { offset: 0, expected: Expected::Colon });
    assert_eq!(failure("abc"), DigestError { offset: 3, expected: Expected::Colon });
    assert_eq!(failure("a:b"), DigestError { offset: 3, expected: Expected::Colon });
    assert_eq!(failure("a:b:c"), DigestError { offset: 5, expected: Expected::Colon });
    assert_eq!(failure("a:::0\nb"), DigestError { offset: 7, expected: Expected::Colon });
}

#[test]
fn a_bad_count_is_named_with_its_offset() {
    assert_eq!(failure("a:b:c:"), DigestError { offset: 6, expected: Expected::MethodCount });
    assert_eq!(failure("a:b:c:x\n"), DigestError { offset: 6, expected: Expected::MethodCount });
    assert_eq!(failure("a:b:c:-1\n"), DigestError { offset: 6, expected: Expected::MethodCount });
    assert_eq!(
        failure("a:b:c:99999999999999999999999999\n"),
        DigestError { offset: 6, expected: Expected::MethodCount }
    );
}

#[test]
fn a_missing_line_feed_is_named_with_its_offset() {
    assert_eq!(failure("a:b:c:1"), DigestError { offset: 7, expected: Expected::LineFeed });
    assert_eq!(failure("a:b:c:1\r\n"), DigestError { offset: 7, expected: Expected::LineFeed });
    assert_eq!(failure("a:b:c:12 \n"), DigestError { offset: 8, expected: Expected::LineFeed });
    assert_eq!(failure("a:b:c:1\n--x"), DigestError { offset: 11, expected: Expected::LineFeed });
}

#[test]
fn a_missing_method_line_is_named_with_its_offset() {
    assert_eq!(failure("a:b:c:1\n"), DigestError { offset: 8, expected: Expected::MethodPrefix });
    assert_eq!(failure("a:b:c:1\n-x\n"), DigestError { offset: 8, expected: Expected::MethodPrefix });
    assert_eq!(
        failure("a:b:c:2\n--x\nb:::0\n"),
        DigestError { offset: 12, expected: Expected::MethodPrefix }
    );
}

#[test]
fn bytes_that_are_not_utf8_are_refused() {
    assert_eq!(
        ClassInfo::from_bytes(b"\xff:::0\n").unwrap_err(),
        DigestError { offset: 0, expected: Expected::Utf8 }
    );
    assert_eq!(
        ClassInfo::from_bytes(b"a:\xc3::0\n").unwrap_err(),
        DigestError { offset: 2, expected: Expected::Utf8 }
    );
    assert_eq!(
        ClassInfo::from_bytes(b"a::x,\x80:0\n").unwrap_err(),
        DigestError { offset: 5, expected: Expected::Utf8 }
    );
    assert_eq!(
        ClassInfo::from_bytes(b"a:::1\n--\xff\n").unwrap_err(),
        DigestError { offset: 8, expected: Expected::Utf8 }
    );
    assert_eq!(ClassInfo::from_bytes(b"a:::0\n").unwrap().len(), 1);
}

#[test]
fn nothing_is_returned_of_a_digest_that_breaks_off() {
    assert!(ClassInfo::from_string("a:::0\nb:::0\nc:::1\n").is_err());
    assert!(read_classinfo("a:::0\nb:::0\nc:::1\n").is_err());
}

#[test]
fn the_platform_holds_each_class_under_its_name() {
    let platform = read_classinfo("b:::1\n--one()V\na:b:c:0\nb:x::1\n--two()V\n").unwrap();
    assert_eq!(platform.len(), 2);
    assert!(platform.contains("a"));
    assert!(platform.contains("b"));
    assert!(!platform.contains("c"));
    // Of two records of one name the later stands.
    let b = platform.classes.get("b").unwrap();
    assert_eq!(b.super_class, Some(String::from("x")));
    assert_eq!(b.methods[0].signature, "two()V");
    assert_eq!(platform.classes.keys, vec![String::from("a"), String::from("b")]);
}

#[test]
fn a_platform_is_filled_record_by_record() {
    let mut platform = Platform::new();
    assert_eq!(platform.len(), 0);
    for record in ClassInfo::from_string("z:::0\nm:::0\na:::0\nm:z::0\n").unwrap() {
        platform.insert(record);
    }
    assert_eq!(
        platform.classes.keys,
        vec![String::from("a"), String::from("m"), String::from("z")]
    );
    assert_eq!(platform.classes.get("m").unwrap().super_class, Some(String::from("z")));
    assert!(platform.classes.get("q").is_none());
}
