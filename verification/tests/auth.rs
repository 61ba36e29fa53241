use confluence::auth::{
    authorized_user, bearer_token, text_has_prefix, text_occurs_in, text_stands_at, AuthFault, ScopedClaims,
};

#[test]
fn token_of_a_header() {
    assert_eq!(bearer_token(Some("Bearer abc.def")), Ok("abc.def".to_string()));
    assert_eq!(bearer_token(Some("Bearer ")), Ok(String::new()));
    assert_eq!(bearer_token(Some("Bearer")), Err(AuthFault::MissingToken));
    assert_eq!(bearer_token(Some("bearer abc")), Err(AuthFault::MissingPrefix));
    assert_eq!(bearer_token(Some("Basic abc")), Err(AuthFault::MissingPrefix));
    assert_eq!(bearer_token(Some("")), Err(AuthFault::MissingPrefix));
    assert_eq!(bearer_token(None), Err(AuthFault::MissingHeader));
}

#[test]
fn user_of_the_claims() {
    let both = ScopedClaims { scope: "openid read:confluence write:confluence".to_string() };
    assert_eq!(authorized_user(Some("u1".to_string()), &both).unwrap().user_id, "u1");
    assert_eq!(authorized_user(None, &both).unwrap_err(), AuthFault::MissingSubject);
    let read_only = ScopedClaims { scope: "read:confluence".to_string() };
    assert_eq!(authorized_user(Some("u1".to_string()), &read_only).unwrap_err(), AuthFault::MissingScopes);
    let write_only = ScopedClaims { scope: "write:confluence".to_string() };
    assert_eq!(authorized_user(Some("u1".to_string()), &write_only).unwrap_err(), AuthFault::MissingScopes);
    let none = ScopedClaims { scope: String::new() };
    assert_eq!(authorized_user(Some("u1".to_string()), &none).unwrap_err(), AuthFault::MissingScopes);
}

#[test]
fn searching_text() {
    assert!(text_has_prefix("Bearer x", "Bearer"));
    assert!(text_has_prefix("x", ""));
    assert!(!text_has_prefix("Bea", "Bearer"));
    assert!(text_stands_at("abcabc", "bc", 4));
    assert!(!text_stands_at("abcabc", "bc", 5));
    assert!(!text_stands_at("abcabc", "bc", 7));
    assert!(text_stands_at("abc", "", 3));
    for (s, p) in [("abcabc", "cab"), ("abc", ""), ("", ""), ("", "a"), ("aab", "ab"), ("abc", "abcd"), ("héllo", "llo")] {
        assert_eq!(text_occurs_in(s, p), s.contains(p), "{} {}", s, p);
        assert_eq!(text_has_prefix(s, p), s.starts_with(p), "{} {}", s, p);
    }
}
