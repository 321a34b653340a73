use culler_core::text::{contains_sorted, dir_prefix_of, sort_strings, starts_with, str_eq, str_le};

#[test]
fn character_order_matches_string_order() {
    let words = ["", "a", "ab", "b", "B", "é", "z", "日本", "aé"];
    for x in words {
        for y in words {
            assert_eq!(str_le(x, y), x <= y, "{x:?} {y:?}");
            assert_eq!(str_eq(x, y), x == y);
        }
    }
}

#[test]
fn sorting_and_binary_search() {
    let v: Vec<String> = ["pear", "apple", "fig", "apple", "Zed"].iter().map(|s| s.to_string()).collect();
    let sorted = sort_strings(v.clone());
    let mut expected = v;
    expected.sort();
    assert_eq!(sorted, expected);
    assert!(contains_sorted(&sorted, "fig"));
    assert!(contains_sorted(&sorted, "Zed"));
    assert!(!contains_sorted(&sorted, "figs"));
    assert!(!contains_sorted(&[], "x"));
}

#[test]
fn prefixes_of_directories() {
    assert_eq!(dir_prefix_of("/lib"), "/lib/");
    assert_eq!(dir_prefix_of("/lib/"), "/lib/");
    assert_eq!(dir_prefix_of(""), "/");
    assert!(starts_with("/lib/a.jpg", "/lib/"));
    assert!(!starts_with("/library/a.jpg", "/lib/"));
    assert!(!starts_with("/l", "/lib/"));
}
