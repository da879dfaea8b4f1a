use podman_compose_mgr::assoc::{assoc_get, assoc_set};
use podman_compose_mgr::text::{parse_u64, remove_char, u64_to_string, i64_to_string};

#[test]
fn numbers_read_back() {
    for n in [0u64, 7, 10, 123456789, u64::MAX] {
        assert_eq!(parse_u64(&u64_to_string(n)), Some(n));
    }
    assert_eq!(parse_u64("+42"), Some(42));
    assert_eq!(parse_u64("18446744073709551616"), None);
    assert_eq!(parse_u64(""), None);
    assert_eq!(parse_u64("+"), None);
    assert_eq!(parse_u64("-1"), None);
    assert_eq!(parse_u64(" 1"), None);
    assert_eq!(i64_to_string(-5), "-5");
    assert_eq!(i64_to_string(i64::MIN), i64::MIN.to_string());
}

#[test]
fn tables_read_what_was_written() {
    let mut t: Vec<(String, String)> = Vec::new();
    assoc_set(&mut t, "a".to_string(), "1".to_string());
    assoc_set(&mut t, "b".to_string(), "2".to_string());
    assoc_set(&mut t, "a".to_string(), "3".to_string());
    assert_eq!(t.len(), 2);
    assert_eq!(assoc_get(&t, "a").map(|s| s.as_str()), Some("3"));
    assert_eq!(assoc_get(&t, "c"), None);
    assert_eq!(remove_char("\"x\"y\"", '"'), "xy");
}
