use sharding::common::{ConvertToString, FromString};
use sharding::tables_id_info::{TablesIdInfo, tables_get, tables_to_chars, tables_from_chars};

#[test]
fn test_tables_id_info_convert_to_string() {
    let mut tables_id_info = TablesIdInfo::new();
    tables_id_info.insert("employees".to_string(), 3);
    tables_id_info.insert("departments".to_string(), 5);
    assert!(
        // Order inside a hashmap is not guaranteed
        (tables_id_info.convert_to_string() == "employees:3,departments:5")
            || (tables_id_info.convert_to_string() == "departments:5,employees:3")
    );
}

#[test]
fn test_tables_id_info_from_string() {
    let tables_id_info = TablesIdInfo::from_string("employees:3,departments:5");
    let mut expected = TablesIdInfo::new();
    expected.insert("employees".to_string(), 3);
    expected.insert("departments".to_string(), 5);
    assert_eq!(tables_id_info, expected);
}

#[test]
fn test_tables_wrappers_round_trip() {
    let t = TablesIdInfo::from_string("a:1,b:-7,c:9223372036854775807");
    assert_eq!(tables_get(&t, "a"), Some(1));
    assert_eq!(tables_get(&t, "b"), Some(-7));
    assert_eq!(tables_get(&t, "c"), Some(i64::MAX));
    assert_eq!(tables_get(&t, "d"), None);
    let chars: String = tables_to_chars(&t).into_iter().collect();
    assert_eq!(chars, "a:1,b:-7,c:9223372036854775807");
    let back = tables_from_chars(&chars.chars().collect()).unwrap();
    assert_eq!(back, t);
}

#[test]
fn test_tables_from_chars_rejects_malformed() {
    let bad: Vec<char> = "a".chars().collect();
    assert!(tables_from_chars(&bad).is_none());
    let bad2: Vec<char> = "a:xyz".chars().collect();
    assert!(tables_from_chars(&bad2).is_none());
    let empty: Vec<char> = Vec::new();
    assert!(tables_from_chars(&empty).is_none());
}

#[test]
fn test_tables_insert_replaces_in_place() {
    let mut t = TablesIdInfo::new();
    t.insert("a".to_string(), 1);
    t.insert("b".to_string(), 2);
    t.insert("a".to_string(), 10);
    assert_eq!(t.convert_to_string(), "a:10,b:2");
}
