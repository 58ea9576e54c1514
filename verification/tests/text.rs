use oghcollector::names::{difference, holds_text, names_in, without_repeats};
use oghcollector::text::{
    decimal_string, has_stretch, join_from, lines, replace, same_text, split, trim,
};

fn names(list: &[&str]) -> Vec<String> {
    list.iter().map(|s| s.to_string()).collect()
}

#[test]
fn split_keeps_empty_pieces() {
    assert_eq!(split("a,,b", ','), names(&["a", "", "b"]));
    assert_eq!(split("", ','), names(&[""]));
    assert_eq!(split(",", ','), names(&["", ""]));
    assert_eq!(split("16.0.1.0.0", '.'), names(&["16", "0", "1", "0", "0"]));
}

#[test]
fn split_agrees_with_std() {
    for s in ["", "a", "a.b", ".a.", "a..b", "...", "x.y.z."] {
        let expected: Vec<String> = s.split('.').map(|p| p.to_string()).collect();
        assert_eq!(split(s, '.'), expected);
    }
}

#[test]
fn trim_agrees_with_std() {
    for s in ["", " ", "  a  ", "a", "\ta b\n", " \r\n x", "x \t", "\u{a0}x\u{a0}", "\u{3000}y"] {
        assert_eq!(trim(s), s.trim().to_string());
    }
}

#[test]
fn lines_agree_with_std() {
    for s in ["", "a", "a\n", "a\nb", "a\r\nb\r\n", "a\n\nb", "baz\r", "\n", "a\rb\n", "\r\n"] {
        let expected: Vec<String> = s.lines().map(|p| p.to_string()).collect();
        assert_eq!(lines(s), expected);
    }
}

#[test]
fn join_from_starts_where_told() {
    let v = names(&["16", "0", "1", "2", "3"]);
    assert_eq!(join_from(&v, 2, "."), "1.2.3");
    assert_eq!(join_from(&v, 0, ", "), "16, 0, 1, 2, 3");
    assert_eq!(join_from(&v, 5, "."), "");
    assert_eq!(join_from(&v, 4, "."), "3");
}

#[test]
fn replace_puts_text_for_a_character() {
    assert_eq!(replace("a'b'c", '\'', "''"), "a''b''c");
    assert_eq!(replace("abc", 'x', "y"), "abc");
    assert_eq!(replace("", 'x', "y"), "");
}

#[test]
fn decimal_string_writes_numbers() {
    assert_eq!(decimal_string(0), "0");
    assert_eq!(decimal_string(7), "7");
    assert_eq!(decimal_string(1024), "1024");
    assert_eq!(decimal_string(u64::MAX), u64::MAX.to_string());
}

#[test]
fn has_stretch_finds_texts_within() {
    assert!(has_stretch("requests<=2.0", "<="));
    assert!(has_stretch("requests<=2.0", "<"));
    assert!(!has_stretch("requests<2.0", "<="));
    assert!(has_stretch("abc", ""));
    assert!(!has_stretch("", "a"));
    assert!(has_stretch("aab", "ab"));
}

#[test]
fn same_text_compares_whole_texts() {
    assert!(same_text("base", "base"));
    assert!(!same_text("base", "Base"));
    assert!(!same_text("base", "base "));
    assert!(same_text("", ""));
}

#[test]
fn names_in_splits_trims_and_drops_empty_names() {
    assert_eq!(names_in("Acme, , Bob ,"), names(&["Acme", "Bob"]));
    assert_eq!(names_in(""), Vec::<String>::new());
    assert_eq!(names_in("Odoo Community Association (OCA)"), names(&["Odoo Community Association (OCA)"]));
    assert_eq!(names_in("A,A"), names(&["A", "A"]));
}

#[test]
fn difference_keeps_what_the_other_lacks() {
    let a = names(&["sale", "base", "stock"]);
    let b = names(&["base"]);
    assert_eq!(difference(&a, &b), names(&["sale", "stock"]));
    assert_eq!(difference(&b, &a), Vec::<String>::new());
    assert_eq!(difference(&a, &Vec::new()), a);
}

#[test]
fn without_repeats_keeps_first_occurrences() {
    let v = names(&["b", "a", "b", "c", "a"]);
    assert_eq!(without_repeats(&v), names(&["b", "a", "c"]));
    assert_eq!(without_repeats(&Vec::new()), Vec::<String>::new());
}

#[test]
fn holds_text_finds_a_name() {
    let v = names(&["sale", "base"]);
    assert!(holds_text(&v, "base"));
    assert!(!holds_text(&v, "stock"));
}
