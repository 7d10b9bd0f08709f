use lemon_tokei::repo::{
    decode_domain, etag_identifier, normalize_domain, repo_identifier, repo_url, sha_cache_key,
};

#[test]
fn domain_without_dot_gets_com() {
    assert_eq!(normalize_domain("github"), "github.com");
    assert_eq!(normalize_domain("github.com"), "github.com");
    assert_eq!(normalize_domain("gitlab.example.org"), "gitlab.example.org");
    assert_eq!(normalize_domain(&normalize_domain("github")), "github.com");
}

#[test]
fn domain_is_percent_decoded() {
    assert_eq!(decode_domain("github%2Ecom"), Some("github.com".to_string()));
    assert_eq!(decode_domain("github%2ecom"), Some("github.com".to_string()));
    assert_eq!(decode_domain("git%hub"), Some("git%hub.com".to_string()));
    assert_eq!(decode_domain("codeberg"), Some("codeberg.com".to_string()));
    assert_eq!(decode_domain("%C3%A9t%C3%A9.fr"), Some("été.fr".to_string()));
}

#[test]
fn undecodable_domain_is_refused() {
    assert_eq!(decode_domain("%ff%fe"), None);
}

#[test]
fn url_and_identifiers() {
    assert_eq!(repo_url("github.com", "XAMPPRocky", "tokei"), "https://github.com/XAMPPRocky/tokei");
    assert_eq!(etag_identifier("abc", "main"), "abc#main");
    assert_eq!(
        repo_identifier("https://github.com/XAMPPRocky/tokei", "abc", "main"),
        "https://github.com/XAMPPRocky/tokei#abc#main"
    );
    assert_eq!(sha_cache_key("github.com", "u", "r", ""), "github.com#u#r#");
}

#[test]
fn split_then_join_gives_back_the_text() {
    for s in ["abc#main", "a#b#c", "#", "x#"] {
        let (a, b) = lemon_tokei::ls_remote::split_hash_and_branch(s).unwrap();
        assert_eq!(etag_identifier(&a, &b), s);
    }
}
