use reprise::stats::{
    categorize_blunder, format_time_control, is_endgame, parse_played_at, time_control_key, MoveFacts,
};

const START: &str = "rnbqkbnr/pppppppp/8/8/8/8/PPPPPPPP/RNBQKBNR w KQkq - 0 1";

fn facts() -> MoveFacts {
    MoveFacts {
        color: "white".to_string(),
        classification: "blunder".to_string(),
        ply: 30,
        best_mate: None,
        played_mate: None,
        fen_before: START.to_string(),
        fen_after: String::new(),
        best_san: "Nf3".to_string(),
    }
}

#[test]
fn time_controls_read_as_minutes() {
    assert_eq!(format_time_control("600"), "10 min");
    assert_eq!(format_time_control("180+2"), "3+2");
    assert_eq!(format_time_control("90"), "90s");
    assert_eq!(format_time_control("90+1"), "90s+1");
    assert_eq!(format_time_control(" "), "Unknown");
    assert_eq!(format_time_control("1/86400"), "1/86400");
    assert_eq!(time_control_key(Some(" 600 ")), "600");
    assert_eq!(time_control_key(None), "unknown");
}

#[test]
fn blunders_sorted_into_motifs() {
    let mut m = facts();
    assert_eq!(categorize_blunder(&m), "Middlegame");
    m.ply = 12;
    assert_eq!(categorize_blunder(&m), "Opening");
    m.best_san = "Nxe5".to_string();
    assert_eq!(categorize_blunder(&m), "Missed capture");
    m.played_mate = Some(-2);
    assert_eq!(categorize_blunder(&m), "Allowed mate");
    m.best_mate = Some(3);
    assert_eq!(categorize_blunder(&m), "Missed mate");
    let mut e = facts();
    e.fen_before = "8/8/4k3/8/8/4K3/4P3/8 w - - 0 60".to_string();
    assert_eq!(categorize_blunder(&e), "Endgame");
    assert!(is_endgame("8/8/4k3/8/8/4K3/4P3/8 w - - 0 60"));
    assert!(!is_endgame(START));
}

#[test]
fn played_at_accepts_rfc3339_and_naive() {
    let a = parse_played_at("2024-03-01T12:00:00Z").unwrap();
    let b = parse_played_at("2024-03-01T12:00:00").unwrap();
    assert_eq!(a, b);
    assert_eq!(a.secs, 1_709_294_400);
    let c = parse_played_at("2024-03-01T12:00:00.5").unwrap();
    assert_eq!(c.nanos, 500_000_000);
    assert!(parse_played_at("yesterday").is_none());
}
