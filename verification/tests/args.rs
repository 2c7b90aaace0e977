use reference_checker::args::{load_embedded, Args, JdkVersion};
use reference_checker::classinfo::{DigestError, Expected};
use reference_checker::error::ParseError;
use reference_checker::java_class::{ClassFlags, MethodFlags, ACC_ABSTRACT, ACC_PUBLIC};
use reference_checker::text::decimal_text;
use std::collections::HashMap;

#[test]
fn numerical_gives_the_release_number() {
    assert_eq!(JdkVersion::Jdk11.numerical(), 11);
    assert_eq!(JdkVersion::Jdk17.numerical(), 17);
    assert_eq!(JdkVersion::Jdk21.numerical(), 21);
    assert_eq!(JdkVersion::Jdk25.numerical(), 25);
}

fn options(java_version: Option<JdkVersion>) -> Args {
    Args {
        classpath: String::from("a.jar"),
        java_version,
        jdk_classinfo: None,
        threads: 1,
        output_file: None,
    }
}

#[test]
fn load_embedded_picks_the_digest_of_the_version() {
    let mut embedded: HashMap<u16, &'static str> = HashMap::new();
    embedded.insert(11, "eleven");
    embedded.insert(17, "seventeen");
    assert_eq!(
        load_embedded(&options(Some(JdkVersion::Jdk17)), &embedded),
        Some(String::from("seventeen"))
    );
    assert_eq!(
        load_embedded(&options(Some(JdkVersion::Jdk11)), &embedded),
        Some(String::from("eleven"))
    );
}

#[test]
fn load_embedded_gives_nothing_without_a_version() {
    let mut embedded: HashMap<u16, &'static str> = HashMap::new();
    embedded.insert(11, "eleven");
    assert_eq!(load_embedded(&options(None), &embedded), None);
}

#[test]
fn an_error_of_the_options_reads_as_its_name_and_what_it_holds() {
    let error = reference_checker::error::ArgError::IllegalCombination(String::from(
        "Could not load JDK class information. Are you missing an argument?",
    ));
    assert_eq!(
        error.message(),
        "ArgError::IllegalCombination: Could not load JDK class information. Are you missing an argument?"
    );
}

#[test]
fn a_number_is_written_in_base_ten() {
    assert_eq!(decimal_text(0), "0");
    assert_eq!(decimal_text(7), "7");
    assert_eq!(decimal_text(10), "10");
    assert_eq!(decimal_text(65535), "65535");
    assert_eq!(decimal_text(1234567890), "1234567890");
    assert_eq!(decimal_text(usize::MAX), usize::MAX.to_string());
}

#[test]
fn an_error_of_a_class_file_names_index_tag_and_offset() {
    assert_eq!(ParseError::BadMagic.message(), "the file does not begin with CAFEBABE");
    assert_eq!(
        ParseError::Truncated { offset: 120 }.message(),
        "the file ends within the item at offset 120"
    );
    assert_eq!(
        ParseError::UnknownTag { index: 7, tag: 99, offset: 1024 }.message(),
        "unknown tag 99 of the constant pool entry 7 at offset 1024"
    );
    assert_eq!(
        ParseError::BadPoolTag { index: 0 }.message(),
        "no constant pool entry of the kind asked for at index 0"
    );
}

#[test]
fn an_error_of_a_digest_names_what_was_looked_for_and_the_offset() {
    assert_eq!(
        DigestError { offset: 6, expected: Expected::MethodCount }.message(),
        "expected a count of methods at offset 6"
    );
    assert_eq!(
        DigestError { offset: 0, expected: Expected::Colon }.message(),
        "expected a colon at offset 0"
    );
    assert_eq!(
        DigestError { offset: 31, expected: Expected::LineFeed }.message(),
        "expected a line feed at offset 31"
    );
    assert_eq!(
        DigestError { offset: 8, expected: Expected::MethodPrefix }.message(),
        "expected the two dashes of a method's line at offset 8"
    );
    assert_eq!(
        DigestError { offset: 2, expected: Expected::Utf8 }.message(),
        "expected text in UTF-8 at offset 2"
    );
}

#[test]
fn the_flags_are_read_bit_by_bit() {
    let class = ClassFlags { bits: 0x0421 };
    assert!(class.public() && class.is_super() && class.is_abstract());
    assert!(!class.is_final() && !class.interface() && !class.module());
    assert!(!class.is_enum() && !class.annotation() && !class.synthetic());
    assert!(class.is_set(ACC_ABSTRACT | ACC_PUBLIC));
    let other = ClassFlags { bits: 0xf210 };
    assert!(other.module() && other.is_enum() && other.annotation() && other.synthetic());
    assert!(other.interface() && other.is_final());
    assert!(!other.public() && !other.is_super() && !other.is_abstract());
    let method = MethodFlags { bits: 0x0001 | 0x0008 | 0x0020 | 0x0080 | 0x0400 | 0x1000 };
    assert!(method.is_public() && method.is_static() && method.is_synchronized());
    assert!(method.has_varargs() && method.is_abstract() && method.synthetic());
    assert!(!method.is_private() && !method.is_protected() && !method.is_final());
    assert!(!method.is_bridge() && !method.is_native() && !method.is_strict());
    let rest = MethodFlags { bits: 0x0002 | 0x0004 | 0x0010 | 0x0040 | 0x0100 | 0x0800 };
    assert!(rest.is_private() && rest.is_protected() && rest.is_final());
    assert!(rest.is_bridge() && rest.is_native() && rest.is_strict());
    assert!(!rest.is_public() && !rest.is_static());
}
