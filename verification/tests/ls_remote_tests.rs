use lemon_tokei::ls_remote::{resolve_from_ls_remote, split_hash_and_branch, ResolveError};

const SHA_A: &str = "0123456789abcdef0123456789abcdef01234567";
const SHA_B: &str = "89abcdef0123456789abcdef0123456789abcdef";

fn output() -> Vec<u8> {
    format!(
        "ref: refs/heads/main\tHEAD\n{a}\tHEAD\n{a}\trefs/heads/main\n{b}\trefs/heads/beta\n",
        a = SHA_A,
        b = SHA_B
    )
    .into_bytes()
}

#[test]
fn resolves_default_branch() {
    let r = resolve_from_ls_remote(output(), "").ok().expect("resolves");
    assert_eq!(r, format!("{}#main", SHA_A));
}

#[test]
fn resolves_requested_branch() {
    let r = resolve_from_ls_remote(output(), "beta").ok().expect("resolves");
    assert_eq!(r, format!("{}#beta", SHA_B));
}

#[test]
fn unknown_branch_is_reported() {
    match resolve_from_ls_remote(output(), "gamma") {
        Err(ResolveError::BranchNotFound { branch }) => assert_eq!(branch, "gamma"),
        _ => panic!("expected BranchNotFound"),
    }
    let e = resolve_from_ls_remote(output(), "gamma").err().unwrap();
    assert_eq!(e.message(), "Branch 'gamma' not found");
}

#[test]
fn missing_head_line_means_empty_branch_name() {
    let out = format!("garbage\n{a}\tHEAD\n{a}\trefs/heads/main\n", a = SHA_A).into_bytes();
    match resolve_from_ls_remote(out, "") {
        Err(ResolveError::BranchNotFound { branch }) => assert_eq!(branch, ""),
        _ => panic!("expected BranchNotFound"),
    }
}

#[test]
fn branch_listed_on_second_line_is_skipped() {
    let out = format!("ref: refs/heads/x\tHEAD\n{a}\trefs/heads/x\n", a = SHA_A).into_bytes();
    assert!(matches!(resolve_from_ls_remote(out, ""), Err(ResolveError::BranchNotFound { .. })));
}

#[test]
fn invalid_utf8_is_reported() {
    let e = resolve_from_ls_remote(vec![0xff, 0xfe, b'\n'], "").err().unwrap();
    assert!(matches!(e, ResolveError::InvalidOutput));
    assert_eq!(e.message(), "Invalid ls-remote output");
}

#[test]
fn empty_output_is_reported() {
    let e = resolve_from_ls_remote(Vec::new(), "main").err().unwrap();
    assert!(matches!(e, ResolveError::EmptyOutput));
    assert_eq!(e.message(), "Empty ls-remote output");
}

#[test]
fn single_line_is_reported() {
    let e = resolve_from_ls_remote(b"ref: refs/heads/main\tHEAD".to_vec(), "").err().unwrap();
    assert!(matches!(e, ResolveError::NotEnoughLines));
    assert_eq!(e.message(), "Not enough ls-remote lines");
}

#[test]
fn short_hash_is_reported() {
    let out = "ref: refs/heads/main\tHEAD\nabc\tHEAD\nabc\trefs/heads/main\n".as_bytes().to_vec();
    let e = resolve_from_ls_remote(out, "").err().unwrap();
    assert!(matches!(e, ResolveError::InvalidShaLength));
    assert_eq!(e.message(), "Invalid SHA length");
}

#[test]
fn hash_length_counts_bytes() {
    // 39 ASCII characters and one two-byte character: 41 bytes.
    let h = format!("{}é", &SHA_A[..39]);
    let out = format!("ref: refs/heads/main\tHEAD\nx\n{}\trefs/heads/main\n", h).into_bytes();
    assert!(matches!(resolve_from_ls_remote(out, ""), Err(ResolveError::InvalidShaLength)));
    // 38 ASCII characters and one two-byte character: 40 bytes.
    let h = format!("{}é", &SHA_A[..38]);
    let out = format!("ref: refs/heads/main\tHEAD\nx\n{}\trefs/heads/main\n", h).into_bytes();
    assert_eq!(resolve_from_ls_remote(out, "").ok().unwrap(), format!("{}#main", h));
}

#[test]
fn splits_at_first_hash_sign() {
    assert_eq!(
        split_hash_and_branch("abc#feature#1"),
        Some(("abc".to_string(), "feature#1".to_string()))
    );
    assert_eq!(split_hash_and_branch("abc#"), Some(("abc".to_string(), String::new())));
    assert_eq!(split_hash_and_branch("abc"), None);
}

#[test]
fn resolved_value_splits_back() {
    let r = resolve_from_ls_remote(output(), "beta").ok().unwrap();
    assert_eq!(split_hash_and_branch(&r), Some((SHA_B.to_string(), "beta".to_string())));
}
