use lemon_tokei::config::Config;

#[test]
fn port_defaults_to_8000() {
    let c = Config::from_settings(None, None).expect("default port is valid");
    assert_eq!(c.port, 8000);
    assert!(c.allowed_users.is_empty());
}

#[test]
fn port_is_parsed() {
    assert_eq!(Config::from_settings(Some("9090"), None).unwrap().port, 9090);
    assert_eq!(Config::from_settings(Some("+80"), None).unwrap().port, 80);
    assert_eq!(Config::from_settings(Some("65535"), None).unwrap().port, 65535);
    assert_eq!(Config::from_settings(Some("0008000"), None).unwrap().port, 8000);
}

#[test]
fn invalid_port_is_refused() {
    assert!(Config::from_settings(Some("65536"), None).is_none());
    assert!(Config::from_settings(Some(""), None).is_none());
    assert!(Config::from_settings(Some("+"), None).is_none());
    assert!(Config::from_settings(Some("-1"), None).is_none());
    assert!(Config::from_settings(Some(" 80"), None).is_none());
    assert!(Config::from_settings(Some("eighty"), None).is_none());
}

#[test]
fn allowed_users_are_split_trimmed_and_deduplicated() {
    let c = Config::from_settings(None, Some(" Zitronenjoghurt , XAMPPRocky,,Zitronenjoghurt, ")).unwrap();
    let mut users = c.allowed_users.clone();
    users.sort();
    assert_eq!(users, vec!["XAMPPRocky".to_string(), "Zitronenjoghurt".to_string()]);
}

#[test]
fn empty_list_allows_everyone() {
    let c = Config::from_settings(None, Some("")).unwrap();
    assert!(c.is_user_allowed("anyone"));
    let c = Config::from_settings(None, Some(" , ,")).unwrap();
    assert!(c.allowed_users.is_empty());
    assert!(c.is_user_allowed("someone"));
    let c = Config::from_settings(None, None).unwrap();
    assert!(c.is_user_allowed("XAMPPRocky"));
}

#[test]
fn listed_users_only() {
    let c = Config::from_settings(None, Some("Zitronenjoghurt,XAMPPRocky")).unwrap();
    assert!(c.is_user_allowed("Zitronenjoghurt"));
    assert!(c.is_user_allowed("XAMPPRocky"));
    assert!(!c.is_user_allowed("xampprocky"));
    assert!(!c.is_user_allowed("rust-lang"));
    assert!(!c.is_user_allowed(""));
}
