use testbench::listing::lex_le_strings;
use testbench::listing::sort_paths;

#[test]
fn sorts_entry_paths() {
    let paths = vec!["dir/b".to_string(), "dir/a".to_string(), "dir/c".to_string()];
    let sorted = vec!["dir/a".to_string(), "dir/b".to_string(), "dir/c".to_string()];
    assert_eq!(sort_paths(paths), sorted);
}

#[test]
fn sorts_empty_listing() {
    assert_eq!(sort_paths(Vec::new()), Vec::<String>::new());
}

#[test]
fn sort_keeps_every_occurrence() {
    let paths = vec!["b".to_string(), "a".to_string(), "b".to_string()];
    let sorted = vec!["a".to_string(), "b".to_string(), "b".to_string()];
    assert_eq!(sort_paths(paths), sorted);
}

#[test]
fn sort_agrees_with_std_string_order() {
    let paths = vec![
        "z".to_string(),
        "\u{e4}".to_string(),
        "a".to_string(),
        "Z".to_string(),
        "".to_string(),
    ];
    let mut expected = paths.clone();
    expected.sort();
    assert_eq!(sort_paths(paths), expected);
}

#[test]
fn distinct_entries_stay_distinct() {
    let paths = vec!["c".to_string(), "a".to_string(), "d".to_string(), "b".to_string()];
    let sorted = sort_paths(paths);
    let mut i = 1;
    while i < sorted.len() {
        assert_ne!(sorted[i - 1], sorted[i]);
        i += 1;
    }
}

#[test]
fn prefix_orders_before_extension() {
    assert!(lex_le_strings("dir/a", "dir/ab"));
    assert!(!lex_le_strings("dir/ab", "dir/a"));
    assert!(lex_le_strings("", "a"));
    assert!(lex_le_strings("a", "a"));
    assert!(!lex_le_strings("b", "a"));
}
