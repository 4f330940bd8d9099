use aivpn_client::token::{generate_admin_token, read_admin_token, token_from_choices, tokens_match};

#[test]
fn tokens_match_only_if_equal() {
    let token = "abcdefghijklmnopqrstuvwxyzABCDEF";
    assert!(tokens_match(token, token));
    assert!(!tokens_match(token, "abcdefghijklmnopqrstuvwxyzABCDEf"));
    assert!(!tokens_match(token, "Abcdefghijklmnopqrstuvwxyzabcdef"));
    assert!(!tokens_match(token, "abcdefghijklmnopqrstuvwxyzABCDE"));
    assert!(!tokens_match(token, ""));
    assert!(!tokens_match("", "\0"));
    assert!(tokens_match("", ""));
    assert!(!tokens_match("é", "e"));
}

#[test]
fn only_the_window_is_compared() {
    let a = format!("{}x", "a".repeat(64));
    let b = format!("{}y", "a".repeat(64));
    assert!(tokens_match(&a, &b));
    let c = format!("{}x", "a".repeat(63));
    let d = format!("{}y", "a".repeat(63));
    assert!(!tokens_match(&c, &d));
}

#[test]
fn token_file_is_trimmed() {
    assert_eq!(read_admin_token(None), None);
    assert_eq!(read_admin_token(Some("abc")), Some("abc".to_string()));
    assert_eq!(read_admin_token(Some(" \u{2003}abc def\u{85}\n")), Some("abc def".to_string()));
    assert_eq!(read_admin_token(Some(" \n")), Some(String::new()));
}

#[test]
fn choices_spell_a_token() {
    assert_eq!(token_from_choices(&vec![0, 25, 26, 51, 52, 61]), "azAZ09");
    let all: Vec<usize> = (0..62).collect();
    assert_eq!(
        token_from_choices(&all),
        "abcdefghijklmnopqrstuvwxyzABCDEFGHIJKLMNOPQRSTUVWXYZ0123456789"
    );
}

#[test]
fn generated_tokens_differ() {
    let a = generate_admin_token();
    let b = generate_admin_token();
    assert_eq!(a.len(), 32);
    assert_eq!(b.len(), 32);
    assert_ne!(a, b);
}

#[test]
fn white_space_is_what_unicode_says() {
    for c in '\0'..=char::MAX {
        let u = c as u32;
        let white = matches!(
            u,
            0x09..=0x0d | 0x20 | 0x85 | 0xa0 | 0x1680 | 0x2000..=0x200a | 0x2028 | 0x2029
                | 0x202f | 0x205f | 0x3000
        );
        let contents = format!("{c}x{c}");
        let expected = if white { "x" } else { contents.as_str() };
        assert_eq!(read_admin_token(Some(&contents)).as_deref(), Some(expected), "{u:x}");
    }
}
