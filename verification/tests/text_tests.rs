use employees_database::sorting::{reverse_vec, sort_names, sort_rows};
use employees_database::text::{str_eq, str_eq_fold, str_le, tokenize};

#[test]
fn lexicographic_comparison() {
    assert!(str_le("Amir", "Bob"));
    assert!(!str_le("Bob", "Amir"));
    assert!(str_le("Bob", "Bob"));
    assert!(str_le("", "Amir"));
    assert!(!str_le("Amir", ""));
    assert!(str_le("Ab", "Abc"));
    assert!(!str_le("Abc", "Ab"));
    // Byte/codepoint order: uppercase sorts before lowercase.
    assert!(str_le("Zoe", "amir"));
}

#[test]
fn string_equality() {
    assert!(str_eq("Sales", "Sales"));
    assert!(!str_eq("Sales", "sales"));
    assert!(!str_eq("Sales", "Sale"));
    assert!(str_eq("", ""));
}

#[test]
fn case_folding_equality() {
    assert!(str_eq_fold("CREATE", "create"));
    assert!(str_eq_fold("LiSt", "list"));
    assert!(!str_eq_fold("created", "create"));
    assert!(!str_eq_fold("xcreate", "create"));
}

#[test]
fn sorting_names_and_rows() {
    let names = vec!["Sally".to_string(), "Amir".to_string(), "Bob".to_string()];
    assert_eq!(sort_names(names), vec!["Amir", "Bob", "Sally"]);
    let rows = vec![
        ("Sally".to_string(), "Engineering".to_string()),
        ("Amir".to_string(), "Sales".to_string()),
    ];
    let sorted = sort_rows(rows);
    assert_eq!(sorted[0].0, "Amir");
    assert_eq!(sorted[1].0, "Sally");
    let rev = reverse_vec(vec![1u32, 2, 3]);
    assert_eq!(rev, vec![3, 2, 1]);
}

#[test]
fn tokenize_handles_tabs_and_newlines() {
    assert_eq!(tokenize("list\tall  employees\n"), vec!["list", "all", "employees"]);
}

#[test]
fn tokenize_splits_on_unicode_whitespace() {
    assert_eq!(tokenize("a\u{B}b\u{C}c"), vec!["a", "b", "c"]);
    assert_eq!(tokenize("create\u{A0}Amir\u{2003}Sales"), vec!["create", "Amir", "Sales"]);
    // Matches the standard library's notion of whitespace.
    for c in ['\u{85}', '\u{1680}', '\u{2028}', '\u{202F}', '\u{205F}', '\u{3000}'] {
        assert!(c.is_whitespace());
        assert_eq!(tokenize(&format!("x{c}y")), vec!["x", "y"]);
    }
}
