use baras::id_list::{add_typed_id, parse_id, remove_id};

#[test]
fn ids_parse_like_u64() {
    assert_eq!(parse_id("814832605462528"), Some(814832605462528));
    assert_eq!(parse_id("+7"), Some(7));
    assert_eq!(parse_id("18446744073709551615"), Some(u64::MAX));
    assert_eq!(parse_id("18446744073709551616"), None);
    assert_eq!(parse_id(""), None);
    assert_eq!(parse_id("+"), None);
    assert_eq!(parse_id("-1"), None);
    assert_eq!(parse_id(" 1"), None);
    assert_eq!(parse_id("12a"), None);
}

#[test]
fn typed_ids_are_added_once() {
    let ids = vec![1, 2];
    assert_eq!(add_typed_id(&ids, "3"), Some(vec![1, 2, 3]));
    assert_eq!(add_typed_id(&ids, "2"), None);
    assert_eq!(add_typed_id(&ids, "x"), None);
}

#[test]
fn ids_are_removed_by_position() {
    assert_eq!(remove_id(vec![5, 6, 7], 1), vec![5, 7]);
}
