use rolebot::events::{parse_role_id, role_is_abandoned, thread_name};

#[test]
fn thread_name_lists_the_roles() {
    let names = vec!["Arma".to_string(), "Doom".to_string(), "Quake".to_string()];
    assert_eq!(thread_name("10/19/26", &names), "[10/19/26] Arma, Doom, Quake Discussion");
    assert_eq!(thread_name("d", &vec!["Solo".to_string()]), "[d] Solo Discussion");
    assert_eq!(thread_name("d", &Vec::new()), "[d]  Discussion");
}

#[test]
fn abandoned_only_without_subscribers_or_holders() {
    assert!(role_is_abandoned(0, false));
    assert!(!role_is_abandoned(0, true));
    assert!(!role_is_abandoned(2, false));
}

#[test]
fn role_ids_parse_as_decimal() {
    assert_eq!(parse_role_id("123"), Some(123));
    assert_eq!(parse_role_id("+5"), Some(5));
    assert_eq!(parse_role_id("007"), Some(7));
    assert_eq!(parse_role_id("18446744073709551615"), Some(u64::MAX));
    assert_eq!(parse_role_id("18446744073709551616"), None);
    assert_eq!(parse_role_id(""), None);
    assert_eq!(parse_role_id("+"), None);
    assert_eq!(parse_role_id("-1"), None);
    assert_eq!(parse_role_id("12a"), None);
    assert_eq!(parse_role_id(" 1"), None);
    assert_eq!(parse_role_id("1٣"), None);
}

#[test]
fn role_ids_parse_like_std() {
    for s in ["0", "42", "+0", "++1", "99999999999999999999", "4294967296", "1+1", "x", "9223372036854775808"] {
        assert_eq!(parse_role_id(s), s.parse::<u64>().ok(), "{}", s);
    }
}
