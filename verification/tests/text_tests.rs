use portdetective::text::{join_spaces, str_eq, u16_string, u32_string};

#[test]
fn test_u32_string_values() {
    assert_eq!(u32_string(0), "0");
    assert_eq!(u32_string(7), "7");
    assert_eq!(u32_string(42), "42");
    assert_eq!(u32_string(1000), "1000");
    assert_eq!(u32_string(u32::MAX), "4294967295");
}

#[test]
fn test_u16_string_values() {
    assert_eq!(u16_string(0), "0");
    assert_eq!(u16_string(65535), "65535");
    assert_eq!(u16_string(8080), "8080");
}

#[test]
fn test_str_eq() {
    assert!(str_eq("", ""));
    assert!(str_eq("kill", "kill"));
    assert!(!str_eq("kill", "k"));
    assert!(!str_eq("kill", "killl"));
    assert!(!str_eq("kill", "kilL"));
}

#[test]
fn test_join_spaces() {
    let empty: Vec<String> = vec![];
    assert_eq!(join_spaces(&empty), "");
    assert_eq!(join_spaces(&vec!["a".to_string()]), "a");
    assert_eq!(
        join_spaces(&vec!["a".to_string(), "b".to_string(), "c".to_string()]),
        "a b c"
    );
}
