use lemon_tokei::badge::{BadgeMessage, BadgeStyle, RenderPlan};
use lemon_tokei::handler::{
    etag_found, Action, BadgeHandler, BadgeOptions, BadgeQuery, EntityTagValue, HandlerError,
    IfNoneMatch, Stage,
};
use lemon_tokei::languages::LanguageStats;

fn query() -> BadgeQuery {
    BadgeQuery {
        category: None,
        label: None,
        style: None,
        color: None,
        logo: None,
        language_type: None,
        show_language: None,
        language_rank: None,
        branch: None,
    }
}

fn lang(name: &str, code: usize) -> LanguageStats {
    LanguageStats { name: name.to_string(), code, comments: 1, blanks: 1, files: 1 }
}

#[test]
fn query_defaults() {
    let o = BadgeOptions::from_query(query());
    assert_eq!(o.category, "lines");
    assert_eq!(o.label, "");
    assert!(o.no_label);
    assert_eq!(o.style, "flat");
    assert_eq!(o.color, "#007ec6");
    assert_eq!(o.logo, "");
    assert_eq!(o.language_types, "");
    assert!(!o.show_language);
    assert_eq!(o.language_rank, 1);
    assert_eq!(o.branch, "");
}

#[test]
fn query_values() {
    let mut q = query();
    q.category = Some("code".into());
    q.label = Some("custom label".into());
    q.style = Some("for-the-badge".into());
    q.show_language = Some("true".into());
    q.language_rank = Some("2".into());
    q.branch = Some("beta".into());
    let o = BadgeOptions::from_query(q);
    assert_eq!(o.category, "code");
    assert_eq!(o.label, "custom label");
    assert!(!o.no_label);
    assert_eq!(o.style, "for-the-badge");
    assert!(o.show_language);
    assert_eq!(o.language_rank, 2);
    assert_eq!(o.branch, "beta");
}

#[test]
fn unparsable_flags() {
    let mut q = query();
    q.show_language = Some("yes".into());
    q.language_rank = Some("first".into());
    let o = BadgeOptions::from_query(q);
    assert!(!o.show_language);
    assert_eq!(o.language_rank, 0);
    let mut q = query();
    q.show_language = Some("TRUE".into());
    assert!(!BadgeOptions::from_query(q).show_language);
}

#[test]
fn etag_comparison_is_weak() {
    let h = IfNoneMatch::Items(vec![
        EntityTagValue { weak: true, tag: "abc#main".into() },
        EntityTagValue { weak: false, tag: "other".into() },
    ]);
    assert!(etag_found(&h, &"abc#main".to_string()));
    assert!(etag_found(&h, &"other".to_string()));
    assert!(!etag_found(&h, &"abc#beta".to_string()));
    assert!(!etag_found(&IfNoneMatch::Any, &"abc#main".to_string()));
}

#[test]
fn disallowed_user_fails() {
    let (h, a) = BadgeHandler::start("github", "someone", "repo", query(), false, None, false);
    assert!(matches!(a, Action::Fail(HandlerError::UserNotAllowed)));
    assert!(matches!(h.stage, Stage::Done));
}

#[test]
fn undecodable_domain_fails() {
    let (_, a) = BadgeHandler::start("%ff", "u", "r", query(), false, None, true);
    assert!(matches!(a, Action::Fail(HandlerError::InvalidDomain)));
}

#[test]
fn full_badge_flow() {
    let mut q = query();
    q.category = Some("code".into());
    q.branch = Some("beta".into());
    let (mut h, a) = BadgeHandler::start("github", "XAMPPRocky", "tokei", q, false, None, true);
    match a {
        Action::ResolveSha { domain, user, repo, branch } => {
            assert_eq!(domain, "github.com");
            assert_eq!(user, "XAMPPRocky");
            assert_eq!(repo, "tokei");
            assert_eq!(branch, "beta");
        },
        _ => panic!("expected ResolveSha"),
    }
    assert_eq!(h.url, "https://github.com/XAMPPRocky/tokei");
    let a = h.on_sha_resolved(Ok("abc#beta".into()));
    match a {
        Action::FetchStatistics { url, sha, branch } => {
            assert_eq!(url, "https://github.com/XAMPPRocky/tokei");
            assert_eq!(sha, "abc");
            assert_eq!(branch, "beta");
        },
        _ => panic!("expected FetchStatistics"),
    }
    let a = h.on_statistics(Ok(vec![lang("Rust", 700), lang("TOML", 20)]));
    match a {
        Action::Respond { plan: RenderPlan::Badge(b), etag, languages } => {
            assert_eq!(etag, "abc#beta");
            assert_eq!(languages.len(), 2);
            assert_eq!(b.label, "lines of code");
            assert_eq!(b.style, BadgeStyle::Flat);
            assert_eq!(b.message_color, "#007ec6");
            match b.message {
                BadgeMessage::Text(t) => assert_eq!(t, "720"),
                _ => panic!("expected text"),
            }
        },
        _ => panic!("expected a badge"),
    }
    assert!(matches!(h.stage, Stage::Done));
}

#[test]
fn not_modified_when_tag_matches() {
    let inm = IfNoneMatch::Items(vec![EntityTagValue { weak: false, tag: "abc#main".into() }]);
    let (mut h, _) = BadgeHandler::start("github.com", "u", "r", query(), false, Some(inm), true);
    match h.on_sha_resolved(Ok("abc#main".into())) {
        Action::NotModified { statistics_key } => {
            assert_eq!(statistics_key, "https://github.com/u/r#abc#main")
        },
        _ => panic!("expected NotModified"),
    }
}

#[test]
fn any_tag_does_not_short_circuit() {
    let (mut h, _) = BadgeHandler::start("github.com", "u", "r", query(), false, Some(IfNoneMatch::Any), true);
    assert!(matches!(h.on_sha_resolved(Ok("abc#main".into())), Action::FetchStatistics { .. }));
}

#[test]
fn resolve_errors_are_passed_on() {
    let (mut h, _) = BadgeHandler::start("github.com", "u", "r", query(), false, None, true);
    match h.on_sha_resolved(Err("Branch 'x' not found".into())) {
        Action::Fail(HandlerError::ResolveFailed { message }) => {
            assert_eq!(message, "Branch 'x' not found")
        },
        _ => panic!("expected ResolveFailed"),
    }
    let (mut h, _) = BadgeHandler::start("github.com", "u", "r", query(), false, None, true);
    assert!(matches!(
        h.on_sha_resolved(Ok("no-separator".into())),
        Action::Fail(HandlerError::InvalidShaResolve)
    ));
}

#[test]
fn statistics_errors_are_passed_on() {
    let (mut h, _) = BadgeHandler::start("github.com", "u", "r", query(), false, None, true);
    h.on_sha_resolved(Ok("abc#main".into()));
    match h.on_statistics(Err("clone failed".into())) {
        Action::Fail(HandlerError::StatisticsFailed { message }) => assert_eq!(message, "clone failed"),
        _ => panic!("expected StatisticsFailed"),
    }
}

#[test]
fn ranked_language_with_type_filter() {
    let mut q = query();
    q.show_language = Some("true".into());
    q.language_rank = Some("1".into());
    q.language_type = Some("TOML,JSON".into());
    q.label = Some("Most Used Language".into());
    let (mut h, _) = BadgeHandler::start("github.com", "u", "r", q, false, None, true);
    h.on_sha_resolved(Ok("abc#main".into()));
    match h.on_statistics(Ok(vec![lang("Rust", 700), lang("JSON", 30), lang("TOML", 20)])) {
        Action::Respond { plan: RenderPlan::Badge(b), languages, .. } => {
            assert_eq!(languages.len(), 2);
            assert_eq!(b.label, "Most Used Language");
            match b.message {
                BadgeMessage::Text(t) => assert_eq!(t, "JSON"),
                _ => panic!("expected text"),
            }
        },
        _ => panic!("expected a badge"),
    }
}

#[test]
fn json_is_answered_with_statistics() {
    let (mut h, _) = BadgeHandler::start("github.com", "u", "r", query(), true, None, true);
    h.on_sha_resolved(Ok("abc#main".into()));
    match h.on_statistics(Ok(vec![lang("Rust", 7)])) {
        Action::Respond { plan: RenderPlan::Json, etag, languages } => {
            assert_eq!(etag, "abc#main");
            assert_eq!(languages[0].name, "Rust");
        },
        _ => panic!("expected JSON"),
    }
}
