use reference_checker::checker::{check_classes, get_consumed, get_provided, remove_provided};
use reference_checker::classpath::{ClassPath, UserClass};
use reference_checker::dependencies::{not_in_platform, ClassDependencies};
use reference_checker::error::ParseError;
use reference_checker::hierarchy::{ancestors, collect_methods, has_method, Node};
use reference_checker::java_class::Class;
use reference_checker::platform::{read_classinfo, Platform};
use reference_checker::requirements::{process_method, ClassRequirements};

/// What a class file is written from.
struct Sketch {
    name: &'static str,
    super_class: Option<&'static str>,
    interfaces: Vec<&'static str>,
    flags: u16,
    methods: Vec<(&'static str, &'static str)>,
    method_refs: Vec<(&'static str, &'static str, &'static str)>,
    iface_refs: Vec<(&'static str, &'static str, &'static str)>,
    field_refs: Vec<(&'static str, &'static str, &'static str)>,
    other_classes: Vec<&'static str>,
}

fn sketch(name: &'static str) -> Sketch {
    Sketch {
        name,
        super_class: Some("java/lang/Object"),
        interfaces: Vec::new(),
        flags: 0x0021,
        methods: Vec::new(),
        method_refs: Vec::new(),
        iface_refs: Vec::new(),
        field_refs: Vec::new(),
        other_classes: Vec::new(),
    }
}

fn word(out: &mut Vec<u8>, value: u16) {
    out.push((value >> 8) as u8);
    out.push((value & 0xff) as u8);
}

fn text(pool: &mut Vec<u8>, next: &mut u16, value: &str) -> u16 {
    pool.push(1);
    word(pool, value.len() as u16);
    pool.extend_from_slice(value.as_bytes());
    *next += 1;
    *next - 1
}

fn class_entry(pool: &mut Vec<u8>, next: &mut u16, name: &str) -> u16 {
    let name_index = text(pool, next, name);
    pool.push(7);
    word(pool, name_index);
    *next += 1;
    *next - 1
}

fn reference(pool: &mut Vec<u8>, next: &mut u16, tag: u8, r: &(&str, &str, &str)) -> u16 {
    let owner = class_entry(pool, next, r.0);
    let name = text(pool, next, r.1);
    let descriptor = text(pool, next, r.2);
    pool.push(12);
    word(pool, name);
    word(pool, descriptor);
    *next += 1;
    pool.push(tag);
    word(pool, owner);
    word(pool, *next - 1);
    *next += 1;
    *next - 1
}

fn bytes_of(s: &Sketch) -> Vec<u8> {
    let mut pool = Vec::new();
    let mut next: u16 = 1;
    let this = class_entry(&mut pool, &mut next, s.name);
    let super_class = match s.super_class {
        Some(name) => class_entry(&mut pool, &mut next, name),
        None => 0,
    };
    let interfaces: Vec<u16> =
        s.interfaces.iter().map(|i| class_entry(&mut pool, &mut next, i)).collect();
    let methods: Vec<(u16, u16)> = s
        .methods
        .iter()
        .map(|(n, d)| (text(&mut pool, &mut next, n), text(&mut pool, &mut next, d)))
        .collect();
    for r in &s.method_refs {
        reference(&mut pool, &mut next, 10, r);
    }
    for r in &s.iface_refs {
        reference(&mut pool, &mut next, 11, r);
    }
    for r in &s.field_refs {
        reference(&mut pool, &mut next, 9, r);
    }
    for c in &s.other_classes {
        class_entry(&mut pool, &mut next, c);
    }
    let mut out = vec![0xCA, 0xFE, 0xBA, 0xBE, 0, 0, 0, 61];
    word(&mut out, next);
    out.extend_from_slice(&pool);
    word(&mut out, s.flags);
    word(&mut out, this);
    word(&mut out, super_class);
    word(&mut out, interfaces.len() as u16);
    for i in &interfaces {
        word(&mut out, *i);
    }
    word(&mut out, 0);
    word(&mut out, methods.len() as u16);
    for (n, d) in &methods {
        word(&mut out, 1);
        word(&mut out, *n);
        word(&mut out, *d);
        word(&mut out, 0);
    }
    word(&mut out, 0);
    out
}

fn decoded(s: &Sketch) -> Class {
    Class::from(&bytes_of(s)).unwrap()
}

fn path_of(sketches: &[Sketch]) -> ClassPath {
    let mut path = ClassPath::new();
    for s in sketches {
        path.insert(&decoded(s)).unwrap();
    }
    path
}

fn platform_of(digest: &str) -> Platform {
    if digest.is_empty() {
        Platform::new()
    } else {
        read_classinfo(digest).unwrap()
    }
}

fn report(sketches: &[Sketch], digest: &str) -> String {
    reference_checker::dependencies::format(&check_classes(&path_of(sketches), false, &platform_of(digest)))
}

const OBJECT: &str = "java/lang/Object:::1\n--toString()Ljava/lang/String;\n";

fn names(list: &[&str]) -> Vec<String> {
    list.iter().map(|s| s.to_string()).collect()
}

fn pairs(list: &[(&str, &str)]) -> Vec<(String, String)> {
    list.iter().map(|(a, b)| (a.to_string(), b.to_string())).collect()
}

#[test]
fn a_reference_that_the_platform_meets_is_not_reported() {
    let mut a = sketch("acme/A");
    a.method_refs.push(("java/lang/String", "length", "()I"));
    let digest = "java/lang/String:::1\n--length()I\n";
    assert_eq!(report(&[a], digest), "");
}

#[test]
fn a_reference_that_the_class_path_meets_is_not_reported() {
    let mut a = sketch("acme/A");
    a.method_refs.push(("acme/B", "foo", "()V"));
    let mut b = sketch("acme/B");
    b.methods.push(("foo", "()V"));
    assert_eq!(report(&[a, b], ""), "");
}

#[test]
fn an_unmet_method_is_reported() {
    let mut a = sketch("acme/A");
    a.method_refs.push(("acme/B", "bar", "()V"));
    let mut b = sketch("acme/B");
    b.methods.push(("foo", "()V"));
    assert_eq!(report(&[a, b], ""), "acme/A\n\tClassMethod acme/B#bar()V\n");
}

#[test]
fn an_unmet_class_is_reported() {
    let mut a = sketch("acme/A");
    a.method_refs.push(("acme/Missing", "m", "()V"));
    let out = report(&[a], OBJECT);
    assert!(out.contains("\tClass acme/Missing\n"));
    assert_eq!(out, "acme/A\n\tClass acme/Missing\n\tClassMethod acme/Missing#m()V\n");
}

#[test]
fn an_inherited_method_is_met() {
    let mut a = sketch("acme/A");
    a.method_refs.push(("acme/Child", "foo", "()V"));
    let mut child = sketch("acme/Child");
    child.super_class = Some("acme/Parent");
    let mut parent = sketch("acme/Parent");
    parent.methods.push(("foo", "()V"));
    assert_eq!(report(&[a, child, parent], ""), "");
}

#[test]
fn a_method_of_an_interface_of_an_ancestor_is_met() {
    let mut a = sketch("acme/A");
    a.method_refs.push(("acme/Child", "size", "()I"));
    a.method_refs.push(("acme/Child", "run", "()V"));
    a.method_refs.push(("acme/Child", "none", "()V"));
    let mut child = sketch("acme/Child");
    child.super_class = Some("acme/Parent");
    let mut parent = sketch("acme/Parent");
    parent.super_class = Some("java/util/AbstractList");
    parent.interfaces.push("acme/Runner");
    let mut runner = sketch("acme/Runner");
    runner.flags = 0x0601;
    runner.methods.push(("run", "()V"));
    let digest = "java/util/AbstractList:java/lang/Object:java/util/List:0\n\
                  java/util/List:::1\n--size()I\njava/lang/Object:::0\n";
    assert_eq!(
        report(&[a, child, parent, runner], digest),
        "acme/A\n\tClassMethod acme/Child#none()V\n"
    );
}

#[test]
fn a_method_of_an_interface_is_met_by_an_interface() {
    let mut a = sketch("acme/A");
    a.iface_refs.push(("acme/I", "m", "()V"));
    let mut i = sketch("acme/I");
    i.flags = 0x0601;
    i.methods.push(("m", "()V"));
    assert_eq!(report(&[a, i], ""), "");
}

#[test]
fn an_unmet_method_of_an_interface_is_reported_as_such() {
    let mut a = sketch("acme/A");
    a.iface_refs.push(("acme/I", "m", "()V"));
    let mut i = sketch("acme/I");
    i.flags = 0x0601;
    let out = report(&[a, i], "");
    assert_eq!(out, "acme/A\n\tIfaceMethod acme/I#m()V\n");
    assert!(!out.contains("ClassMethod"));
}

#[test]
fn a_reference_of_the_other_kind_is_not_met_by_the_class_path() {
    // An interface declares the method, and the reference is to a method of a class.
    let mut a = sketch("acme/A");
    a.method_refs.push(("acme/I", "m", "()V"));
    a.iface_refs.push(("acme/C", "n", "()V"));
    let mut i = sketch("acme/I");
    i.flags = 0x0601;
    i.methods.push(("m", "()V"));
    let mut c = sketch("acme/C");
    c.methods.push(("n", "()V"));
    assert_eq!(
        report(&[a, i, c], ""),
        "acme/A\n\tClassMethod acme/I#m()V\n\tIfaceMethod acme/C#n()V\n"
    );
}

#[test]
fn the_platform_meets_a_reference_of_either_kind() {
    let mut a = sketch("acme/A");
    a.method_refs.push(("java/util/List", "size", "()I"));
    a.iface_refs.push(("java/util/ArrayList", "size", "()I"));
    a.iface_refs.push(("java/util/ArrayList", "toString", "()Ljava/lang/String;"));
    let digest = "java/util/List:::1\n--size()I\n\
                  java/util/ArrayList:java/lang/Object:java/util/List:0\n\
                  java/lang/Object:::1\n--toString()Ljava/lang/String;\n";
    assert_eq!(report(&[a], digest), "");
}

#[test]
fn a_module_descriptor_provides_nothing_and_requires_nothing() {
    let mut a = sketch("acme/A");
    a.method_refs.push(("module-info", "m", "()V"));
    let mut module = sketch("module-info");
    module.flags = 0x8000;
    module.super_class = None;
    module.methods.push(("m", "()V"));
    module.method_refs.push(("acme/Missing", "x", "()V"));
    let path = path_of(&[a, module]);
    let platform = Platform::new();
    let providers = get_provided(&path, false, &platform);
    assert_eq!(providers.keys, names(&["acme/A"]));
    let consumed = get_consumed(&path, false);
    assert_eq!(consumed.len(), 2);
    assert_eq!(consumed[1].name, "module-info");
    assert!(consumed[1].is_empty());
    assert_eq!(
        reference_checker::dependencies::format(&check_classes(&path, false, &platform)),
        "acme/A\n\tClass module-info\n\tClassMethod module-info#m()V\n"
    );
    let module_class = decoded(&{
        let mut m = sketch("module-info");
        m.flags = 0x8000;
        m
    });
    assert!(matches!(module_class.get_provided(&path, &platform), Ok(None)));
}

#[test]
fn a_primitive_type_is_no_class_that_is_required() {
    let mut a = sketch("acme/A");
    a.method_refs.push(("[I", "getClass", "()Ljava/lang/Class;"));
    a.method_refs.push(("[[B", "hashCode", "()I"));
    a.field_refs.push(("I", "x", "I"));
    a.method_refs.push(("[Lacme/B;", "hashCode", "()I"));
    let requirements = decoded(&a).get_consumed().unwrap();
    assert_eq!(requirements.classes, names(&["acme/B"]));
    assert_eq!(
        requirements.class_methods,
        pairs(&[
            ("[I", "getClass()Ljava/lang/Class;"),
            ("[[B", "hashCode()I"),
            ("[Lacme/B;", "hashCode()I")
        ])
    );
}

#[test]
fn a_reference_to_clone_is_never_reported() {
    let mut a = sketch("acme/A");
    a.method_refs.push(("[Lacme/B;", "clone", "()Ljava/lang/Object;"));
    a.method_refs.push(("acme/Missing", "clone", "()Ljava/lang/Object;"));
    a.iface_refs.push(("acme/Gone", "clone", "()Ljava/lang/Object;"));
    a.method_refs.push(("acme/B", "clone", "()V"));
    a.method_refs.push(("acme/B", "clone2", "()Ljava/lang/Object;"));
    let class = decoded(&a);
    let requirements = class.get_consumed().unwrap();
    assert_eq!(
        requirements.class_methods,
        pairs(&[("acme/B", "clone()V"), ("acme/B", "clone2()Ljava/lang/Object;")])
    );
    assert!(requirements.iface_methods.is_empty());
    let out = report(&[a], "");
    assert!(!out.contains("clone()Ljava/lang/Object;"));
    assert_eq!(
        out,
        "acme/A\n\tClass acme/B\n\tClass acme/Gone\n\tClass acme/Missing\n\
         \tClassMethod acme/B#clone()V\n\tClassMethod acme/B#clone2()Ljava/lang/Object;\n"
    );
}

#[test]
fn process_method_reads_owner_and_signature() {
    let mut a = sketch("acme/A");
    a.method_refs.push(("acme/B", "foo", "(I)V"));
    a.method_refs.push(("acme/B", "clone", "()Ljava/lang/Object;"));
    let class = decoded(&a);
    // The pool: 1-2 this, 3-4 super, 5-6 owner, 7 name, 8 descriptor, 9 name and type, 10 reference.
    assert_eq!(
        process_method(&6, &9, &class),
        Ok(Some((String::from("acme/B"), String::from("foo(I)V"))))
    );
    assert_eq!(process_method(&12, &15, &class), Ok(None));
    assert_eq!(process_method(&5, &9, &class), Err(ParseError::BadPoolTag { index: 5 }));
    assert_eq!(process_method(&6, &8, &class), Err(ParseError::BadPoolTag { index: 8 }));
    assert_eq!(process_method(&0, &9, &class), Err(ParseError::BadPoolTag { index: 0 }));
    assert_eq!(process_method(&6, &999, &class), Err(ParseError::BadPoolTag { index: 999 }));
}

#[test]
fn the_requirements_follow_the_pool() {
    let mut a = sketch("acme/A");
    a.method_refs.push(("acme/Z", "z", "()V"));
    a.method_refs.push(("acme/B", "b", "()V"));
    a.method_refs.push(("acme/Z", "z", "()V"));
    a.iface_refs.push(("acme/I", "i", "()V"));
    a.field_refs.push(("acme/F", "f", "I"));
    a.other_classes.push("acme/Unused");
    let requirements = decoded(&a).get_consumed().unwrap();
    assert_eq!(requirements.name, "acme/A");
    assert_eq!(requirements.classes, names(&["acme/Z", "acme/B", "acme/Z", "acme/I", "acme/F"]));
    assert_eq!(
        requirements.class_methods,
        pairs(&[("acme/Z", "z()V"), ("acme/B", "b()V"), ("acme/Z", "z()V")])
    );
    assert_eq!(requirements.iface_methods, pairs(&[("acme/I", "i()V")]));
    let dependencies = ClassDependencies::from(&requirements);
    assert_eq!(dependencies.name, "acme/A");
    assert_eq!(dependencies.classes, names(&["acme/B", "acme/F", "acme/I", "acme/Z"]));
    assert_eq!(dependencies.class_methods, pairs(&[("acme/B", "b()V"), ("acme/Z", "z()V")]));
    assert_eq!(dependencies.iface_methods, pairs(&[("acme/I", "i()V")]));
}

#[test]
fn a_class_that_cannot_be_read_is_refused() {
    // A method reference whose owner is no class entry.
    let mut bytes = bytes_of(&{
        let mut a = sketch("acme/A");
        a.method_refs.push(("acme/B", "b", "()V"));
        a
    });
    // The reference is the last entry of the pool: tag, owner, name and type.
    let at = bytes.windows(5).position(|w| w == [10, 0, 6, 0, 9]).unwrap();
    bytes[at + 2] = 5;
    let broken = Class::from(&bytes).unwrap();
    assert_eq!(broken.get_consumed().unwrap_err(), ParseError::BadPoolTag { index: 5 });
    assert_eq!(UserClass::of(&broken).unwrap_err(), ParseError::BadPoolTag { index: 5 });
    let mut path = path_of(&[sketch("acme/Z")]);
    assert_eq!(path.insert(&broken), Err(ParseError::BadPoolTag { index: 5 }));
    assert_eq!(path.len(), 1);
    assert!(path.contains("acme/Z"));
    assert!(!path.contains("acme/A"));
}

#[test]
fn a_class_with_a_broken_hierarchy_is_refused() {
    let good = bytes_of(&{
        let mut a = sketch("acme/A");
        a.interfaces.push("acme/I");
        a.methods.push(("m", "()V"));
        a
    });
    // The pool: 1-2 this, 3-4 super, 5-6 interface, 7 name, 8 descriptor.
    let tail = good.len() - 2 - 10 - 2 - 2 - 2 - 6;
    let mut bad_this = good.clone();
    bad_this[tail + 3] = 1;
    assert_eq!(
        UserClass::of(&Class::from(&bad_this).unwrap()).unwrap_err(),
        ParseError::BadPoolTag { index: 1 }
    );
    let mut bad_super = good.clone();
    bad_super[tail + 5] = 3;
    assert_eq!(
        UserClass::of(&Class::from(&bad_super).unwrap()).unwrap_err(),
        ParseError::BadPoolTag { index: 3 }
    );
    let mut bad_iface = good.clone();
    bad_iface[tail + 9] = 7;
    assert_eq!(
        UserClass::of(&Class::from(&bad_iface).unwrap()).unwrap_err(),
        ParseError::BadPoolTag { index: 7 }
    );
    let mut bad_method = good.clone();
    let method = good.len() - 2 - 8;
    bad_method[method + 3] = 2;
    assert_eq!(
        UserClass::of(&Class::from(&bad_method).unwrap()).unwrap_err(),
        ParseError::BadPoolTag { index: 2 }
    );
    let user = UserClass::of(&Class::from(&good).unwrap()).unwrap();
    assert_eq!(user.name, "acme/A");
    assert_eq!(user.super_class, Some(String::from("java/lang/Object")));
    assert_eq!(user.interfaces, names(&["acme/I"]));
    assert_eq!(user.methods, names(&["m()V"]));
    assert!(!user.interface);
    assert!(!user.module);
    // A class without a super class.
    let mut root = sketch("java/lang/Object");
    root.super_class = None;
    assert_eq!(UserClass::of(&decoded(&root)).unwrap().super_class, None);
}

#[test]
fn of_two_classes_of_one_name_the_later_stands() {
    let mut first = sketch("acme/B");
    first.methods.push(("old", "()V"));
    let mut second = sketch("acme/B");
    second.methods.push(("new", "()V"));
    let mut a = sketch("acme/A");
    a.method_refs.push(("acme/B", "old", "()V"));
    a.method_refs.push(("acme/B", "new", "()V"));
    let path = path_of(&[first, a, second]);
    assert_eq!(path.len(), 2);
    assert_eq!(
        reference_checker::dependencies::format(&check_classes(&path, false, &Platform::new())),
        "acme/A\n\tClassMethod acme/B#old()V\n"
    );
}

#[test]
fn the_report_is_in_ascending_order() {
    let mut z = sketch("acme/Z");
    z.method_refs.push(("x/B", "b", "()V"));
    z.method_refs.push(("x/A", "z", "()V"));
    z.method_refs.push(("x/A", "a", "()V"));
    z.iface_refs.push(("y/J", "j", "()V"));
    z.iface_refs.push(("y/I", "k", "()V"));
    z.iface_refs.push(("y/I", "i", "()V"));
    let mut a = sketch("acme/A");
    a.method_refs.push(("x/C", "c", "()V"));
    let m = sketch("acme/M");
    let out = report(&[z, m, a], "");
    assert_eq!(
        out,
        "acme/A\n\tClass x/C\n\tClassMethod x/C#c()V\n\
         acme/Z\n\tClass x/A\n\tClass x/B\n\tClass y/I\n\tClass y/J\n\
         \tClassMethod x/A#a()V\n\tClassMethod x/A#z()V\n\tClassMethod x/B#b()V\n\
         \tIfaceMethod y/I#i()V\n\tIfaceMethod y/I#k()V\n\tIfaceMethod y/J#j()V\n"
    );
    let result = check_classes(&path_of(&[sketch("b"), sketch("a")]), false, &Platform::new());
    assert!(result.is_empty());
}

#[test]
fn a_class_of_which_all_is_met_is_not_reported() {
    let mut a = sketch("acme/A");
    a.method_refs.push(("acme/B", "foo", "()V"));
    let mut b = sketch("acme/B");
    b.methods.push(("foo", "()V"));
    b.method_refs.push(("acme/Missing", "x", "()V"));
    let result = check_classes(&path_of(&[a, b]), false, &Platform::new());
    assert_eq!(result.len(), 1);
    assert_eq!(result[0].name, "acme/B");
    for block in &result {
        assert!(!block.is_empty());
    }
}

#[test]
fn the_check_gives_the_same_result_each_time() {
    let build = || {
        let mut a = sketch("acme/A");
        a.method_refs.push(("acme/B", "bar", "()V"));
        a.method_refs.push(("java/lang/String", "length", "()I"));
        a.iface_refs.push(("acme/I", "m", "()V"));
        let mut b = sketch("acme/B");
        b.methods.push(("foo", "()V"));
        path_of(&[a, b])
    };
    let platform = platform_of("java/lang/String:::1\n--length()I\n");
    let first = reference_checker::dependencies::format(&check_classes(&build(), false, &platform));
    let second = reference_checker::dependencies::format(&check_classes(&build(), false, &platform));
    let third = reference_checker::dependencies::format(&check_classes(&build(), true, &platform));
    assert_eq!(first, "acme/A\n\tClass acme/I\n\tClassMethod acme/B#bar()V\n\tIfaceMethod acme/I#m()V\n");
    assert_eq!(first, second);
    assert_eq!(first, third);
}

#[test]
fn with_more_provided_no_more_is_reported() {
    let a = || {
        let mut a = sketch("acme/A");
        a.method_refs.push(("acme/B", "foo", "()V"));
        a.method_refs.push(("java/lang/String", "length", "()I"));
        a
    };
    let b = || {
        let mut b = sketch("acme/B");
        b.methods.push(("foo", "()V"));
        b
    };
    assert_eq!(
        report(&[a()], ""),
        "acme/A\n\tClass acme/B\n\tClass java/lang/String\n\
         \tClassMethod acme/B#foo()V\n\tClassMethod java/lang/String#length()I\n"
    );
    assert_eq!(
        report(&[a(), b()], ""),
        "acme/A\n\tClass java/lang/String\n\tClassMethod java/lang/String#length()I\n"
    );
    assert_eq!(
        report(&[a()], "java/lang/String:::0\n"),
        "acme/A\n\tClass acme/B\n\tClassMethod acme/B#foo()V\n\
         \tClassMethod java/lang/String#length()I\n"
    );
    assert_eq!(report(&[a(), b()], "java/lang/String:::1\n--length()I\n"), "");
}

#[test]
fn what_is_reported_has_no_provider() {
    let mut a = sketch("acme/A");
    a.method_refs.push(("acme/B", "foo", "()V"));
    a.method_refs.push(("acme/B", "bar", "()V"));
    a.method_refs.push(("java/lang/String", "length", "()I"));
    a.method_refs.push(("java/lang/String", "width", "()I"));
    a.method_refs.push(("acme/Missing", "m", "()V"));
    let mut b = sketch("acme/B");
    b.methods.push(("foo", "()V"));
    let path = path_of(&[a, b]);
    let platform = platform_of("java/lang/String:::1\n--length()I\n");
    let result = check_classes(&path, false, &platform);
    assert_eq!(result.len(), 1);
    for class in &result[0].classes {
        assert!(!path.contains(class));
        assert!(!platform.contains(class));
    }
    assert_eq!(result[0].classes, names(&["acme/Missing"]));
    for (owner, signature) in &result[0].class_methods {
        assert!(!has_method(owner, signature, &path, &platform));
        assert!(!ClassDependencies::provides_method(owner, signature, &platform));
    }
    assert_eq!(
        result[0].class_methods,
        pairs(&[("acme/B", "bar()V"), ("acme/Missing", "m()V"), ("java/lang/String", "width()I")])
    );
}

#[test]
fn a_class_of_the_class_path_stands_before_one_of_the_platform() {
    let mut list = sketch("java/util/List");
    list.super_class = None;
    list.methods.push(("mine", "()V"));
    let mut child = sketch("acme/Child");
    child.super_class = Some("java/util/List");
    let path = path_of(&[list, child]);
    let platform = platform_of("java/util/List:::1\n--size()I\n");
    assert_eq!(collect_methods("acme/Child", &path, &platform), names(&["mine()V"]));
    assert!(has_method("acme/Child", "mine()V", &path, &platform));
    assert!(!has_method("acme/Child", "size()I", &path, &platform));
    assert!(ClassDependencies::provides_method("java/util/List", "size()I", &platform));
    assert!(!ClassDependencies::provides_method("java/util/List", "mine()V", &platform));
    assert!(!ClassDependencies::provides_method("acme/Child", "mine()V", &platform));
}

#[test]
fn a_circle_in_the_hierarchy_does_not_hold_the_check_up() {
    let mut a = sketch("acme/A");
    a.super_class = Some("acme/B");
    a.methods.push(("a", "()V"));
    let mut b = sketch("acme/B");
    b.super_class = Some("acme/C");
    b.interfaces.push("acme/A");
    b.methods.push(("b", "()V"));
    let mut c = sketch("acme/C");
    c.super_class = Some("acme/A");
    c.interfaces.push("p/Q");
    c.interfaces.push("p/Unknown");
    let path = path_of(&[a, b, c]);
    let platform = platform_of("p/Q:p/Q:p/Q,acme/A:1\n--q()V\n");
    assert_eq!(collect_methods("acme/A", &path, &platform), names(&["a()V", "b()V", "q()V"]));
    assert_eq!(collect_methods("acme/C", &path, &platform), names(&["a()V", "b()V", "q()V"]));
    assert_eq!(collect_methods("p/Q", &path, &platform), names(&["a()V", "b()V", "q()V"]));
    assert_eq!(collect_methods("p/Unknown", &path, &platform), Vec::<String>::new());
    assert_eq!(collect_methods("p/Q", &ClassPath::new(), &platform), names(&["q()V"]));
    let found = ancestors("acme/B", &path, &platform);
    assert_eq!(found, vec![Node::User(1), Node::User(2), Node::User(0), Node::Platform(0)]);
    assert_eq!(ancestors("nowhere", &path, &platform), Vec::<Node>::new());
}

#[test]
fn a_class_provides_the_methods_that_it_has() {
    let mut child = sketch("acme/Child");
    child.super_class = Some("acme/Parent");
    child.flags = 0x0601;
    child.methods.push(("own", "()V"));
    let mut parent = sketch("acme/Parent");
    parent.methods.push(("foo", "()V"));
    let path = path_of(&[parent, sketch("acme/Other")]);
    let platform = platform_of(OBJECT);
    // The class itself is not on the class path: what it provides is what its name has.
    let provider = decoded(&child).get_provided(&path, &platform).unwrap().unwrap();
    assert_eq!(provider.name, "acme/Child");
    assert!(provider.interface);
    assert!(provider.methods.is_empty());
    let provider = decoded(&{
        let mut p = sketch("acme/Parent");
        p.methods.push(("ignored", "()V"));
        p
    })
    .get_provided(&path, &platform)
    .unwrap()
    .unwrap();
    assert_eq!(provider.methods, names(&["foo()V", "toString()Ljava/lang/String;"]));
    assert!(!provider.interface);
    let providers = get_provided(&path, false, &platform);
    assert_eq!(providers.keys, names(&["acme/Other", "acme/Parent"]));
    assert_eq!(providers.values[0].methods, names(&["toString()Ljava/lang/String;"]));
    assert_eq!(providers.values[1].methods, names(&["foo()V", "toString()Ljava/lang/String;"]));
    assert_eq!(providers.values[1].name, "acme/Parent");
}

fn sample() -> ClassDependencies {
    ClassDependencies::from(&ClassRequirements {
        name: String::from("acme/A"),
        classes: names(&["c/C", "a/A", "b/B", "a/A"]),
        class_methods: pairs(&[("b/B", "two()V"), ("a/A", "one()V"), ("b/B", "one()V")]),
        iface_methods: pairs(&[("i/I", "m()V"), ("b/B", "one()V")]),
    })
}

#[test]
fn dependencies_are_sets_in_order() {
    let d = sample();
    assert_eq!(d.classes, names(&["a/A", "b/B", "c/C"]));
    assert_eq!(d.class_methods, pairs(&[("a/A", "one()V"), ("b/B", "one()V"), ("b/B", "two()V")]));
    assert_eq!(d.iface_methods, pairs(&[("b/B", "one()V"), ("i/I", "m()V")]));
    assert!(!d.is_empty());
    let empty = ClassDependencies::from(&ClassRequirements {
        name: String::from("x"),
        classes: Vec::new(),
        class_methods: Vec::new(),
        iface_methods: Vec::new(),
    });
    assert!(empty.is_empty());
    assert_eq!(empty.format(), "x\n");
}

#[test]
fn a_class_is_taken_out() {
    let mut d = sample();
    d.remove_class("b/B");
    assert_eq!(d.classes, names(&["a/A", "c/C"]));
    d.remove_class("b/B");
    d.remove_class("zzz");
    assert_eq!(d.classes, names(&["a/A", "c/C"]));
    assert_eq!(d.class_methods.len(), 3);
    assert_eq!(d.iface_methods.len(), 2);
}

#[test]
fn methods_are_taken_out_of_one_kind() {
    let mut d = sample();
    d.remove_methods("b/B", &names(&["one()V", "three()V"]), false);
    assert_eq!(d.class_methods, pairs(&[("a/A", "one()V"), ("b/B", "two()V")]));
    assert_eq!(d.iface_methods, pairs(&[("b/B", "one()V"), ("i/I", "m()V")]));
    d.remove_methods("b/B", &names(&["one()V"]), true);
    assert_eq!(d.iface_methods, pairs(&[("i/I", "m()V")]));
    assert_eq!(d.class_methods, pairs(&[("a/A", "one()V"), ("b/B", "two()V")]));
    d.remove_methods("i/I", &names(&["m()V"]), true);
    d.remove_methods("a/A", &names(&["one()V"]), false);
    d.remove_methods("b/B", &names(&["two()V"]), false);
    assert!(d.class_methods.is_empty() && d.iface_methods.is_empty());
    assert!(!d.is_empty());
    assert_eq!(d.classes.len(), 3);
}

#[test]
fn what_the_platform_provides_is_taken_out() {
    let platform =
        platform_of("a/A:b/B::0\nb/B:::1\n--one()V\ni/I::b/B:0\nunrelated:::1\n--two()V\n");
    let mut d = sample();
    d.remove_java_classes_and_methods(&platform);
    assert_eq!(d.name, "acme/A");
    assert_eq!(d.classes, names(&["c/C"]));
    assert_eq!(d.class_methods, pairs(&[("b/B", "two()V")]));
    assert_eq!(d.iface_methods, pairs(&[("i/I", "m()V")]));
    let again = not_in_platform(&sample(), &platform);
    assert_eq!(again.classes, d.classes);
    assert_eq!(again.class_methods, d.class_methods);
    assert_eq!(again.iface_methods, d.iface_methods);
    assert!(ClassDependencies::provides_method("a/A", "one()V", &platform));
    assert!(ClassDependencies::provides_method("i/I", "one()V", &platform));
    assert!(!ClassDependencies::provides_method("a/A", "two()V", &platform));
    assert!(!ClassDependencies::provides_method("c/C", "one()V", &platform));
}

#[test]
fn what_the_providers_provide_is_taken_out() {
    let mut a = sketch("a/A");
    a.methods.push(("one", "()V"));
    let mut b = sketch("b/B");
    b.flags = 0x0601;
    b.methods.push(("one", "()V"));
    b.methods.push(("two", "()V"));
    let path = path_of(&[a, b]);
    let providers = get_provided(&path, false, &Platform::new());
    let mut d = sample();
    remove_provided(&mut d, &providers);
    assert_eq!(d.classes, names(&["c/C"]));
    // `b/B` is an interface: it meets the methods of interfaces only.
    assert_eq!(d.class_methods, pairs(&[("b/B", "one()V"), ("b/B", "two()V")]));
    assert_eq!(d.iface_methods, pairs(&[("i/I", "m()V")]));
}

#[test]
fn a_block_names_the_class_and_lists_what_is_unmet() {
    let d = sample();
    assert_eq!(
        d.format(),
        "acme/A\n\tClass a/A\n\tClass b/B\n\tClass c/C\n\
         \tClassMethod a/A#one()V\n\tClassMethod b/B#one()V\n\tClassMethod b/B#two()V\n\
         \tIfaceMethod b/B#one()V\n\tIfaceMethod i/I#m()V\n"
    );
    assert_eq!(
        ClassDependencies::methods_to_str(&pairs(&[("o", "s"), ("p", "t")]), "Kind"),
        "\tKind o#s\n\tKind p#t\n"
    );
    assert_eq!(ClassDependencies::methods_to_str(&Vec::new(), "Kind"), "");
    let blocks = vec![sample(), sample()];
    assert_eq!(reference_checker::dependencies::format(&blocks), format!("{}{}", d.format(), d.format()));
    assert_eq!(reference_checker::dependencies::format(&Vec::new()), "");
}
