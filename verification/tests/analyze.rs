use reprise::analyze::{analysis_jobs, stored_place, AnalyzeError};
use reprise::analyze::analyze_progress_text;
use reprise::analyze::{
    analyze_and_save, analyze_many_and_save, build_ply_jobs, build_teaching, needs_continuation,
    pgn_fen_header, score_to_white_cp, uci_pv_to_san, JobError,
};
use reprise::engine::{Score, ScoreKind};

const START: &str = "rnbqkbnr/pppppppp/8/8/8/8/PPPPPPPP/RNBQKBNR w KQkq - 0 1";

fn cp(v: i32) -> Score {
    Score { kind: ScoreKind::Cp, value: v }
}

#[test]
fn plies_listed_with_positions() {
    let jobs = build_ply_jobs("[Event \"Test\"]\n\n1. e4 e5 2. Nf3\n").unwrap();
    assert_eq!(jobs.len(), 3);
    assert_eq!(jobs[0].ply, 1);
    assert_eq!(jobs[0].before_fen, START);
    assert_eq!(jobs[0].side_to_move, "w");
    assert_eq!(jobs[0].after_side, "b");
    assert_eq!(jobs[2].uci, "g1f3");
    assert_eq!(jobs[1].after_fen, jobs[2].before_fen);
}

#[test]
fn ply_errors_name_the_move() {
    match build_ply_jobs("1. e4 e5 2. Ke3") {
        Err(e @ JobError::IllegalSan { .. }) => assert_eq!(e.message(), "illegal SAN at ply 3: Ke3"),
        other => panic!("unexpected {other:?}"),
    }
    let bad = "[SetUp \"1\"]\n[FEN \"not a fen\"]\n\n1. e4";
    assert!(matches!(build_ply_jobs(bad), Err(JobError::InvalidFen)));
    assert_eq!(JobError::InvalidFen.message(), "invalid FEN header");
}

#[test]
fn fen_header_needs_setup() {
    let f = "8/8/4k3/8/8/4K3/4P3/8 w - - 0 1";
    let pgn = format!("[SetUp \"1\"]\n[FEN \"{f}\"]\n\n1. Kf4");
    assert_eq!(pgn_fen_header(&pgn).as_deref(), Some(f));
    let no_setup = format!("[FEN \"{f}\"]\n\n1. Kf4");
    assert_eq!(pgn_fen_header(&no_setup), None);
    let jobs = build_ply_jobs(&pgn).unwrap();
    assert_eq!(jobs[0].before_fen, f);
}

#[test]
fn engine_lines_in_san() {
    let pv = vec!["e2e4".to_string(), "e7e5".to_string(), "g1f3".to_string(), "e1e8".to_string()];
    assert_eq!(uci_pv_to_san(START, &pv), vec!["e4", "e5", "Nf3"]);
    assert!(uci_pv_to_san("bad", &pv).is_empty());
}

#[test]
fn scores_from_white() {
    assert_eq!(score_to_white_cp(&cp(40), "w"), 40);
    assert_eq!(score_to_white_cp(&cp(40), "b"), -40);
    assert!(needs_continuation("blunder"));
    assert!(!needs_continuation("best"));
}

#[test]
fn teaching_words() {
    let after = vec!["Nxe5".to_string(), "d6".to_string()];
    let n = build_teaching("Qh5", "mistake", "1.5", "w", "Nf3", "+0.40", &after, Some(&cp(40)), Some(&cp(-110)));
    assert_eq!(n.summary, "Qh5 is a mistake, costing about 1.5 pawns of evaluation.");
    assert_eq!(
        n.why_played,
        "White played Qh5. Evaluation dropped from +0.40 (best) to -1.10 after this choice. Against accurate replies: Nxe5 d6."
    );
    assert_eq!(n.why_best, "Nf3 was better, evaluating to +0.40.");
    let b = build_teaching("e4", "best", "0.0", "b", "e4", "+0.30", &vec![], Some(&cp(30)), Some(&cp(30)));
    assert_eq!(b.summary, "e4 is the best move.");
    assert_eq!(b.why_played, "Black played e4. Engine evaluation: -0.30.");
    assert_eq!(b.why_best, "No meaningfully better alternative.");
    assert_eq!(b.ideal_future, "");
}

#[test]
fn reports_say_what_was_done() {
    let one = analyze_and_save("42");
    assert_eq!(one.analyzed, 1);
    let many = analyze_many_and_save(5, 2);
    assert_eq!(many.analyzed, 3);
}

#[test]
fn progress_line_while_analysing() {
    assert_eq!(analyze_progress_text(2, 5, "ply"), "Analyzing game \u{b7} 2/5");
    assert_eq!(analyze_progress_text(0, 0, "ply"), "Analyzing game\u{2026}");
    assert_eq!(analyze_progress_text(0, 5, "Downloading Stockfish\u{2026}"), "Downloading Stockfish\u{2026}");
}

#[test]
fn analysis_jobs_errors_before_the_engine() {
    let none = analysis_jobs("[Event \"x\"]\n\n*").err().unwrap();
    assert!(matches!(none, AnalyzeError::NoMoves));
    assert_eq!(none.message(), "PGN has no moves to analyze");
    let bad = analysis_jobs("[SetUp \"1\"]\n[FEN \"not a fen\"]\n\n1. e4").err().unwrap();
    assert!(matches!(bad, AnalyzeError::Jobs(JobError::InvalidFen)));
    assert_eq!(analysis_jobs("1. e4 e5 *").ok().unwrap().len(), 2);
    let keys = vec![("7".to_string(), "live".to_string()), ("8".to_string(), "live".to_string())];
    assert_eq!(stored_place(&keys, "8", "live").ok(), Some(1));
    let missing = stored_place(&keys, "9", "daily").err().unwrap();
    assert_eq!(missing.message(), "game 9/daily not found in db");
    assert!(uci_pv_to_san(START, &vec!["éé".to_string()]).is_empty());
}
