use reprise::weekly_review::{
    compact_movetext, game_refs, ordinal, review_relpath_for_week, strip_black_move_markers,
    strip_brace_comments,
};

#[test]
fn strips_clock_comments_from_movetext() {
    let pgn = "[Event \"x\"]\n\n1. e4 {[%clk 0:10:00]} 1... e5 {[%clk 0:09:59]} 2. Nf3 *";
    let mt = compact_movetext(pgn);
    assert!(!mt.contains("clk"));
    assert!(!mt.contains("..."));
    assert!(mt.contains("1. e4"));
    assert!(mt.contains("e5"));
    assert!(mt.contains("2. Nf3"));
}

#[test]
fn ordinals_and_duplicate_refs() {
    assert_eq!(ordinal(1), "1st");
    assert_eq!(ordinal(2), "2nd");
    assert_eq!(ordinal(3), "3rd");
    assert_eq!(ordinal(11), "11th");
    assert_eq!(ordinal(21), "21st");
}

#[test]
fn review_relpath_uses_monday() {
    assert_eq!(
        review_relpath_for_week("2026-09-14 – 2026-09-20"),
        "chess/2026-09-14.md"
    );
}

#[test]
fn compact_movetext_exact() {
    let pgn = "[Event \"x\"]\n\n1. e4 {[%clk 0:10:00]} 1... e5 {[%clk 0:09:59]} 2. Nf3 *";
    assert_eq!(compact_movetext(pgn), "1. e4 e5 2. Nf3 *");
}

#[test]
fn compact_movetext_without_headers_is_trimmed() {
    assert_eq!(compact_movetext("  1. d4   d5  "), "1. d4 d5");
}

#[test]
fn brace_comments_nest_and_collapse_whitespace() {
    assert_eq!(strip_brace_comments(" a {x {y} z} b\t\n c "), "a b c");
    assert_eq!(strip_brace_comments("a } b"), "a b");
}

#[test]
fn black_markers_dropped_white_numbers_kept() {
    assert_eq!(strip_black_move_markers("12. Nf3 12... Nc6 13. e4"), "12. Nf3 Nc6 13. e4");
    assert_eq!(strip_black_move_markers("7...Qh4"), "Qh4");
    assert_eq!(strip_black_move_markers("10.."), "10..");
}

#[test]
fn ordinals_teens_and_hundreds() {
    assert_eq!(ordinal(12), "12th");
    assert_eq!(ordinal(13), "13th");
    assert_eq!(ordinal(22), "22nd");
    assert_eq!(ordinal(101), "101st");
    assert_eq!(ordinal(111), "111th");
    assert_eq!(ordinal(0), "0th");
}

#[test]
fn review_relpath_without_space_uses_whole_label() {
    assert_eq!(review_relpath_for_week("2026-01-05"), "chess/2026-01-05.md");
}

#[test]
fn duplicate_refs_get_ordinals() {
    let bases = vec![
        "alice 2026-01-05".to_string(),
        "bob 2026-01-05".to_string(),
        "alice 2026-01-05".to_string(),
    ];
    let refs = game_refs(&bases);
    assert_eq!(
        refs,
        vec![
            "alice 2026-01-05 (1st)".to_string(),
            "bob 2026-01-05".to_string(),
            "alice 2026-01-05 (2nd)".to_string(),
        ]
    );
}

#[test]
fn markers_dropped_other_characters_kept_whole() {
    assert_eq!(strip_black_move_markers("1. e4 1... e5 2. Nf3"), "1. e4 e5 2. Nf3");
    assert_eq!(strip_black_move_markers("12... Nf6 13. Bb5"), "Nf6 13. Bb5");
    assert_eq!(strip_black_move_markers("Réti 1... é"), "Réti é");
}
