use genericbot::text::{normalize, replace};

#[test]
fn replace_rewrites_every_occurrence() {
    assert_eq!(replace("aXbXc", "X", "--"), "a--b--c");
    assert_eq!(replace("aaa", "aa", "b"), "ba");
    assert_eq!(replace("nothing here", "zz", "!"), "nothing here");
}

#[test]
fn normalize_defuses_invites_and_mentions() {
    assert_eq!(
        normalize("join discord.gg/abc now"),
        "join discord\u{2024}gg/abc now"
    );
    assert_eq!(normalize("hi @everyone"), "hi @\u{200B}everyone");
    assert_eq!(normalize("hey @here"), "hey @\u{200B}here");
}

#[test]
fn normalize_strips_direction_and_zero_width_marks() {
    assert_eq!(normalize("a\u{202E}b"), "a b");
    assert_eq!(normalize("a\u{200B}b"), "a b");
    assert_eq!(normalize("plain text"), "plain text");
}

#[test]
fn normalize_zero_width_replacement_runs_before_mention_guard() {
    // A zero-width space inside @everyone becomes a real space first,
    // so the mention guard has nothing left to defuse — and the guard
    // never strips the zero-width space it inserts itself.
    assert_eq!(normalize("@every\u{200B}one"), "@every one");
}
