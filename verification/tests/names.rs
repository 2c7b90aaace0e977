use reference_checker::names::{compare, compare_pairs, same_name, Order};
use reference_checker::requirements::{element_type_of, is_primitive_name};
use reference_checker::sorted::{find_name, find_pair, insert_name, insert_pair};
use reference_checker::table::NameMap;

#[test]
fn names_are_ordered_byte_by_byte() {
    assert_eq!(compare("a", "b"), Order::Less);
    assert_eq!(compare("b", "a"), Order::Greater);
    assert_eq!(compare("abc", "abc"), Order::Equal);
    assert_eq!(compare("", ""), Order::Equal);
    assert_eq!(compare("", "a"), Order::Less);
    assert_eq!(compare("ab", "abc"), Order::Less);
    assert_eq!(compare("abd", "abc"), Order::Greater);
    assert_eq!(compare("Z", "a"), Order::Less);
    assert_eq!(compare("a$b", "a/b"), Order::Less);
    assert_eq!(compare("z", "\u{e9}"), Order::Less);
    assert_eq!(compare("\u{ffff}", "\u{10000}"), Order::Less);
    let mut names = vec!["b/B", "a/Z", "a/A", "a", "a/A$1", "B"];
    names.sort();
    for i in 0..names.len() {
        for j in 0..names.len() {
            let expected = if i < j {
                Order::Less
            } else if i > j {
                Order::Greater
            } else {
                Order::Equal
            };
            assert_eq!(compare(names[i], names[j]), expected);
        }
    }
}

#[test]
fn same_name_tells_equal_strings() {
    assert!(same_name("clone", "clone"));
    assert!(!same_name("clone", "clon"));
    assert!(!same_name("clone", "clonf"));
    assert!(same_name("", ""));
}

#[test]
fn pairs_are_ordered_by_the_first_name_then_by_the_second() {
    assert_eq!(compare_pairs("a", "z", "b", "a"), Order::Less);
    assert_eq!(compare_pairs("a", "x", "a", "y"), Order::Less);
    assert_eq!(compare_pairs("a", "y", "a", "x"), Order::Greater);
    assert_eq!(compare_pairs("a", "x", "a", "x"), Order::Equal);
    // Not the order of the joined strings.
    assert_eq!(compare_pairs("a", "x", "a!", "y"), Order::Less);
}

#[test]
fn a_name_is_found_at_its_place() {
    let names: Vec<String> = ["b", "d", "f"].iter().map(|s| s.to_string()).collect();
    assert_eq!(find_name(&names, "b"), (true, 0));
    assert_eq!(find_name(&names, "d"), (true, 1));
    assert_eq!(find_name(&names, "f"), (true, 2));
    assert_eq!(find_name(&names, "a"), (false, 0));
    assert_eq!(find_name(&names, "c"), (false, 1));
    assert_eq!(find_name(&names, "e"), (false, 2));
    assert_eq!(find_name(&names, "g"), (false, 3));
    assert_eq!(find_name(&Vec::new(), "g"), (false, 0));
}

#[test]
fn names_are_put_in_once_and_in_order() {
    let mut names: Vec<String> = Vec::new();
    for name in ["m", "c", "x", "c", "a", "m", "z"] {
        insert_name(&mut names, name.to_string());
    }
    assert_eq!(names, vec!["a", "c", "m", "x", "z"]);
}

#[test]
fn pairs_are_put_in_once_and_in_order() {
    let mut pairs: Vec<(String, String)> = Vec::new();
    for (a, b) in [("b", "x"), ("a", "z"), ("b", "a"), ("a", "z"), ("a", "a")] {
        insert_pair(&mut pairs, a.to_string(), b.to_string());
    }
    let expected: Vec<(String, String)> = [("a", "a"), ("a", "z"), ("b", "a"), ("b", "x")]
        .iter()
        .map(|(a, b)| (a.to_string(), b.to_string()))
        .collect();
    assert_eq!(pairs, expected);
    assert_eq!(find_pair(&pairs, "a", "z"), (true, 1));
    assert_eq!(find_pair(&pairs, "a", "b"), (false, 1));
    assert_eq!(find_pair(&pairs, "c", ""), (false, 4));
}

#[test]
fn a_map_keeps_one_value_for_each_name() {
    let mut map: NameMap<u32> = NameMap::new();
    assert_eq!(map.len(), 0);
    map.insert("k".to_string(), 1);
    map.insert("a".to_string(), 2);
    map.insert("z".to_string(), 3);
    map.insert("k".to_string(), 4);
    assert_eq!(map.len(), 3);
    assert_eq!(map.keys, vec!["a", "k", "z"]);
    assert_eq!(map.values, vec![2, 4, 3]);
    assert_eq!(map.get("k"), Some(&4));
    assert_eq!(map.get("b"), None);
    assert_eq!(map.find("z"), Some(2));
    assert_eq!(map.find("y"), None);
    assert!(map.has_key("a"));
    assert!(!map.has_key(""));
}

#[test]
fn the_element_type_is_the_name_without_what_marks_an_array() {
    assert_eq!(element_type_of("java/lang/String"), "java/lang/String");
    assert_eq!(element_type_of("[Ljava/lang/String;"), "java/lang/String");
    assert_eq!(element_type_of("[[[Lacme/A;"), "acme/A");
    assert_eq!(element_type_of("I"), "I");
    assert_eq!(element_type_of("[[B"), "B");
    assert_eq!(element_type_of("[I"), "I");
    // One `L` and one `;` are taken off, and no more.
    assert_eq!(element_type_of("LLx;;"), "Lx;");
    assert_eq!(element_type_of("[L[x"), "[x");
    assert_eq!(element_type_of(""), "");
    assert_eq!(element_type_of("["), "");
    assert_eq!(element_type_of("L"), "");
    assert_eq!(element_type_of(";"), "");
    assert_eq!(element_type_of("L;"), "");
    assert_eq!(element_type_of("[L\u{e9};"), "\u{e9}");
}

#[test]
fn the_primitive_types_are_eight_letters() {
    for name in ["B", "C", "D", "F", "I", "J", "S", "Z"] {
        assert!(is_primitive_name(name));
    }
    for name in ["V", "A", "", "II", "b", "Ljava/lang/Object;", "\u{e9}"] {
        assert!(!is_primitive_name(name));
    }
}
