use intspell::credential::is_usable;

#[test]
fn empty_token_is_not_usable() {
    assert!(!is_usable(""));
}

#[test]
fn bare_prefix_is_usable() {
    assert!(is_usable("sk-"));
}

#[test]
fn token_shorter_than_prefix_is_not_usable() {
    assert!(!is_usable("s"));
    assert!(!is_usable("sk"));
}

#[test]
fn prefix_must_stand_at_the_start() {
    assert!(!is_usable("xsk-abc"));
    assert!(!is_usable(" sk-abc"));
}

#[test]
fn prefix_is_case_sensitive() {
    assert!(!is_usable("SK-abc"));
    assert!(!is_usable("Sk-abc"));
}

#[test]
fn nothing_after_the_prefix_is_checked() {
    assert!(is_usable("sk-abc"));
    assert!(is_usable("sk-..."));
    assert!(is_usable("sk- \n\t"));
    assert!(is_usable("sk-\u{3042}\u{1F600}"));
}

#[test]
fn tokens_of_other_characters_are_not_usable() {
    assert!(!is_usable("sk_abc"));
    assert!(!is_usable("s-k"));
    assert!(!is_usable("\u{FF53}k-abc"));
    assert!(!is_usable("\u{1F600}"));
}

#[test]
fn gate_agrees_with_starts_with() {
    let tokens = ["", "s", "sk", "sk-", "sk-x", "ks-", "-sk", "skk-", "sk--", "\u{E9}sk-", "sk\u{2D}"];
    for token in tokens {
        assert_eq!(is_usable(token), token.starts_with("sk-"), "token {:?}", token);
    }
}
