use devstrip::aggregate::{dedupe_candidates, scan_total_size, sort_candidates};
use devstrip::model::Candidate;
use devstrip::order::{goes_before, text_precedes};

fn candidate(path: &str, canonical: &str, size: u64, category: &str) -> Candidate {
    Candidate {
        path: path.to_string(),
        canonical: canonical.to_string(),
        size_bytes: size,
        category: category.to_string(),
        reason: format!("found {}", path),
        last_used: None,
    }
}

#[test]
fn dedupe_keeps_the_first_of_each_canonical_path() {
    let list = vec![
        candidate("/a", "/real/a", 1, "X"),
        candidate("/b", "/real/b", 2, "X"),
        candidate("/a2", "/real/a", 3, "Y"),
        candidate("/c", "/real/c", 4, "X"),
        candidate("/b", "/real/b", 5, "Z"),
    ];
    let unique = dedupe_candidates(list);
    let got: Vec<(String, u64)> = unique.iter().map(|c| (c.path.clone(), c.size_bytes)).collect();
    assert_eq!(got, vec![("/a".to_string(), 1), ("/b".to_string(), 2), ("/c".to_string(), 4)]);
    assert!(dedupe_candidates(Vec::new()).is_empty());
}

#[test]
fn sort_puts_large_first_then_category_then_path() {
    let list = vec![
        candidate("/p/b", "1", 10, "Node"),
        candidate("/p/a", "2", 10, "Xcode"),
        candidate("/p/c", "3", 99, "Zed"),
        candidate("/p/a", "4", 10, "Node"),
        candidate("/p/ab", "5", 10, "Node"),
        candidate("/p/z", "6", 10, "Gradle"),
    ];
    let sorted = sort_candidates(list);
    let got: Vec<String> = sorted.iter().map(|c| c.canonical.clone()).collect();
    assert_eq!(got, vec!["3", "6", "4", "5", "1", "2"]);
}

#[test]
fn sort_keeps_the_order_of_what_it_cannot_tell_apart() {
    let mut first = candidate("/same", "1", 5, "Node");
    first.reason = "first".to_string();
    let mut second = candidate("/same", "2", 5, "Node");
    second.reason = "second".to_string();
    let sorted = sort_candidates(vec![first, candidate("/big", "3", 6, "Node"), second]);
    let got: Vec<String> = sorted.iter().map(|c| c.reason.clone()).collect();
    assert_eq!(got, vec!["found /big", "first", "second"]);
}

#[test]
fn texts_are_ordered_as_strings_are() {
    let words = ["", "a", "ab", "b", "B", "é", "z", "\u{10000}", "zz", "~", "/a/b", "/a-b"];
    for x in words {
        for y in words {
            assert_eq!(text_precedes(x, y), x < y, "{:?} and {:?}", x, y);
        }
    }
}

#[test]
fn candidates_compare_by_size_category_and_path() {
    let big = candidate("/z", "1", 9, "Z");
    let small = candidate("/a", "2", 1, "A");
    assert!(goes_before(&big, &small));
    assert!(!goes_before(&small, &big));
    assert!(goes_before(&candidate("/z", "", 5, "A"), &candidate("/a", "", 5, "B")));
    assert!(goes_before(&candidate("/a", "", 5, "A"), &candidate("/b", "", 5, "A")));
    assert!(!goes_before(&candidate("/a", "x", 5, "A"), &candidate("/a", "y", 5, "A")));
}

#[test]
fn total_adds_up_and_stops_at_the_largest_value() {
    assert_eq!(scan_total_size(&Vec::new()), 0);
    let list = vec![candidate("/a", "1", 500, "X"), candidate("/b", "2", 1_500, "X")];
    assert_eq!(scan_total_size(&list), 2_000);
    let huge = vec![
        candidate("/a", "1", u64::MAX - 10, "X"),
        candidate("/b", "2", 7, "X"),
        candidate("/c", "3", 7, "X"),
    ];
    assert_eq!(scan_total_size(&huge), u64::MAX);
}

#[test]
fn display_name_is_the_path() {
    assert_eq!(candidate("/some/path", "/real", 1, "X").display_name(), "/some/path");
}
