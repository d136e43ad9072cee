use esclusa_gate::state::{ct_eq, env_nonempty, AppState};

#[test]
fn ct_eq_basics() {
    assert!(ct_eq(b"secret", b"secret"));
    assert!(!ct_eq(b"secret", b"secreT"));
    assert!(!ct_eq(b"secret", b"secret2"));
    assert!(!ct_eq(b"", b"x"));
    assert!(ct_eq(b"", b""));
}

#[test]
fn the_token_has_to_match() {
    let st = AppState::new(Some("s3cret".to_string()), Some("key".to_string()));
    assert!(st.token_matches(Some("s3cret")));
    assert!(!st.token_matches(Some("s3creT")));
    assert!(!st.token_matches(Some("")));
    assert!(!st.token_matches(None));
    assert_eq!(st.signing_key, b"key".to_vec());
}

#[test]
fn without_a_token_nothing_matches() {
    for setting in [None, Some(String::new())] {
        let st = AppState::new(setting, None);
        assert!(st.gate_token.is_none());
        assert!(!st.token_matches(Some("")));
        assert!(!st.token_matches(Some("anything")));
        assert!(!st.token_matches(None));
        assert_eq!(st.signing_key, b"insecure-dev-signing-key".to_vec());
    }
}

#[test]
fn an_empty_setting_counts_as_none() {
    assert_eq!(env_nonempty(Some(String::new())), None);
    assert_eq!(env_nonempty(Some(" ".to_string())), Some(" ".to_string()));
    assert_eq!(env_nonempty(None), None);
}
