use solver_backend::auth::get_bearer_token;

#[test]
fn bearer_header_yields_the_token() {
    let header = b"Bearer abc.def.ghi".to_vec();
    assert_eq!(get_bearer_token(&header), Some(b"abc.def.ghi".to_vec()));
}

#[test]
fn other_schemes_yield_nothing() {
    assert_eq!(get_bearer_token(&b"Token abc".to_vec()), None);
    assert_eq!(get_bearer_token(&b"bearer abc".to_vec()), None);
    assert_eq!(get_bearer_token(&b"".to_vec()), None);
    assert_eq!(get_bearer_token(&b"Bearer".to_vec()), None);
}

#[test]
fn repeated_scheme_prefixes_are_all_stripped() {
    let header = b"Bearer Bearer xyz".to_vec();
    assert_eq!(get_bearer_token(&header), Some(b"xyz".to_vec()));
}

#[test]
fn empty_token_is_still_a_bearer_header() {
    let header = b"Bearer ".to_vec();
    assert_eq!(get_bearer_token(&header), Some(Vec::new()));
}
