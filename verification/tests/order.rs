use kawa_library::order::{sorted_order, SortKey};

fn key(first: i64, second: i64, text: &str, desc: bool) -> SortKey {
    SortKey { first, second, text: text.chars().collect(), text2: Vec::new(), text_desc: desc }
}

#[test]
fn larger_numbers_come_first_and_ties_keep_their_order() {
    let keys = vec![key(1, 0, "", false), key(3, 0, "", false), key(1, 0, "", false), key(3, 1, "", false)];
    assert_eq!(sorted_order(&keys), vec![3, 1, 0, 2]);
}

#[test]
fn texts_sort_ascending_or_descending() {
    let asc = vec![key(0, 0, "b", false), key(0, 0, "ab", false), key(0, 0, "a", false)];
    assert_eq!(sorted_order(&asc), vec![2, 1, 0]);
    let desc = vec![key(0, 0, "b", true), key(0, 0, "ab", true), key(0, 0, "a", true)];
    assert_eq!(sorted_order(&desc), vec![0, 1, 2]);
    assert!(sorted_order(&vec![]).is_empty());
}
