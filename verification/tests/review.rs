use reprise::review::{ReviewAction, ReviewKey};
use reprise::chess_util::Square;
use reprise::models::{AnalyzedMove, BestMove, Game, GameAnalysis, Teaching};
use reprise::review::{analyzed_at_ply, build_ply_timeline, ReviewMode, ReviewState};

const START: &str = "rnbqkbnr/pppppppp/8/8/8/8/PPPPPPPP/RNBQKBNR w KQkq - 0 1";

fn mv(ply: u32, san: &str, color: &str, class: &str, loss: i32) -> AnalyzedMove {
    AnalyzedMove {
        ply,
        san: san.to_string(),
        uci: Some(format!("u{ply}")),
        color: color.to_string(),
        fen_before: if ply == 1 { START.to_string() } else { format!("before{ply}") },
        fen_after: format!("after{ply}"),
        classification: class.to_string(),
        loss_cp: Some(loss),
        eval_played_text: Some("-1.0".to_string()),
        eval_before_best_text: Some("+0.3".to_string()),
        eval_white_best: None,
        eval_white_played: None,
        best_moves: vec![BestMove {
            uci: Some("g1f3".to_string()),
            san: Some("Nf3".to_string()),
            eval_text: None,
            pv_san: Some(vec!["Nf3".to_string(), "d5".to_string()]),
        }],
        teaching: None,
        ideal_after_played: None,
    }
}

fn game(pgn: &str, moves: Vec<AnalyzedMove>) -> Game {
    Game {
        id: "9".to_string(),
        game_type: "daily".to_string(),
        url: None,
        white: "me".to_string(),
        black: "you".to_string(),
        white_elo: None,
        black_elo: None,
        result: Some("0-1".to_string()),
        time_control: None,
        eco: None,
        termination: None,
        played_at: None,
        user_color: Some("white".to_string()),
        opponent: Some("you".to_string()),
        my_username: None,
        pgn: pgn.to_string(),
        end_fen: None,
        end_ply: None,
        end_uci: None,
        has_analysis: false,
        reviewed: false,
        analysis: if moves.is_empty() {
            None
        } else {
            Some(GameAnalysis { engine: None, depth: None, analyzed_at: None, moves })
        },
    }
}

#[test]
fn timeline_from_pgn_skips_unreadable_words() {
    let g = game("[Event \"x\"] 1. e4!? e5 2. Zz9 Nf3?! 2... Nc6 1-0 3. Bb5", vec![]);
    let (fens, sans, ucis) = build_ply_timeline(&g);
    assert_eq!(sans, vec!["e4", "e5", "Nf3", "Nc6"]);
    assert_eq!(fens.len(), 5);
    assert_eq!(ucis[2].as_deref(), Some("g1f3"));
}

#[test]
fn timeline_from_analysis() {
    let g = game("", vec![mv(1, "d4", "white", "mistake", 120), mv(2, "d5", "black", "best", 0)]);
    let (fens, sans, ucis) = build_ply_timeline(&g);
    assert_eq!(fens, vec![START.to_string(), "after1".to_string(), "after2".to_string()]);
    assert_eq!(sans, vec!["d4", "d5"]);
    assert_eq!(ucis[1].as_deref(), Some("u2"));
    assert_eq!(analyzed_at_ply(&g, 2).unwrap().san, "d5");
    assert!(analyzed_at_ply(&g, 3).is_none());
}

#[test]
fn open_walks_pivotal_moments() {
    let g = game("", vec![
        mv(1, "d4", "white", "mistake", 120),
        mv(2, "d5", "black", "best", 0),
        mv(3, "Bg5", "white", "blunder", 300),
    ]);
    let mut st = ReviewState::open(g);
    assert_eq!(st.ply, 1);
    assert_eq!(st.mode, ReviewMode::Walk);
    st.step_pivotal(1);
    assert_eq!((st.pivotal_idx, st.ply), (1, 3));
    st.step_pivotal(1);
    assert_eq!((st.pivotal_idx, st.ply), (0, 1));
    st.step_pivotal(-1);
    assert_eq!((st.pivotal_idx, st.ply), (1, 3));
    let v = st.view();
    assert_eq!(v.headline, "vs you \u{b7} lost");
    assert_eq!(v.mode_label, "WALK \u{b7} pivotal moments");
    assert_eq!(v.moment, "Pivotal Moment 2/2 \u{b7} ply 3 \u{b7} white played Bg5 (blunder)");
    assert_eq!(v.teaching, "Eval -1.0 \u{2192} best +0.3");
    assert_eq!(v.fen.as_deref(), Some("after3"));
    assert_eq!(v.last_uci.as_deref(), Some("u3"));
    // "before3" is no position, so no arrow.
    assert_eq!(v.arrow, None);
}

#[test]
fn step_through_stays_within_the_game() {
    let g = game("1. e4 e5 *", vec![]);
    let mut st = ReviewState::open(g);
    assert_eq!(st.ply, 0);
    st.step_through(-1);
    assert_eq!(st.ply, 0);
    assert_eq!(st.mode, ReviewMode::StepThrough);
    st.step_through(5);
    assert_eq!(st.ply, 2);
    let v = st.view();
    assert_eq!(v.moment, "Ply 2/2 \u{b7} e5");
    assert_eq!(v.teaching, "");
    // Without pivotal moments, walking steps through instead.
    st.mode = ReviewMode::Walk;
    st.step_pivotal(1);
    assert_eq!(st.mode, ReviewMode::StepThrough);
    assert_eq!(st.ply, 2);
}

#[test]
fn fork_tries_the_engine_line() {
    let mut first = mv(1, "d4", "white", "mistake", 120);
    first.teaching = Some(Teaching { summary: Some("d4 drops it".to_string()), why_played: None, why_best: None });
    let g = game("", vec![first, mv(2, "d5", "black", "best", 0)]);
    let mut st = ReviewState::open(g);
    let v = st.view();
    assert_eq!(v.teaching, "d4 drops it");
    // The engine's move from the start position is drawn: g1 to f3.
    assert_eq!(v.arrow, Some((Square { file: 6, rank: 0 }, Square { file: 5, rank: 2 })));
    st.enter_fork_best();
    assert_eq!(st.mode, ReviewMode::Fork);
    assert_eq!(st.fork_fens.len(), 3);
    assert_eq!(st.fork_ply, 1);
    st.step_through(1);
    assert_eq!(st.fork_ply, 2);
    st.step_through(1);
    assert_eq!(st.fork_ply, 2);
    let v = st.view();
    assert_eq!(v.moment, "Fork step 2/2 \u{2014} Esc returns to the pivotal moment");
    assert_eq!(v.teaching, "This is the line that kept the story intact.");
    // From ply 2 ("before2" is no position) nothing changes.
    let g2 = game("", vec![mv(1, "d4", "white", "best", 0), mv(2, "d5", "black", "best", 0)]);
    let mut st2 = ReviewState::open(g2);
    st2.ply = 2;
    let before = st2.mode;
    st2.enter_fork_best();
    assert_eq!(st2.mode, before);
    assert!(st2.fork_fens.is_empty());
}

#[test]
fn review_keys_toggle_arrow_leave_fork_and_flip() {
    let g = game("", vec![mv(1, "d4", "white", "mistake", 120), mv(2, "d5", "black", "best", 0)]);
    let mut st = ReviewState::open(g);
    let shown = st.show_arrow;
    assert_eq!(st.on_key(ReviewKey::ToggleArrow), ReviewAction::Redraw);
    assert_eq!(st.show_arrow, !shown);
    assert_eq!(st.on_key(ReviewKey::TryBest), ReviewAction::Redraw);
    assert_eq!(st.mode, ReviewMode::Fork);
    assert_eq!(st.on_key(ReviewKey::Escape), ReviewAction::Redraw);
    assert_eq!(st.mode, ReviewMode::Walk);
    // Escape outside a line changes nothing.
    st.on_key(ReviewKey::Escape);
    assert_eq!(st.mode, ReviewMode::Walk);
    let ply = st.ply;
    assert_eq!(st.on_key(ReviewKey::Flip), ReviewAction::FlipBoard);
    assert_eq!(st.ply, ply);
    st.on_key(ReviewKey::StepMode);
    assert_eq!(st.mode, ReviewMode::StepThrough);
    st.on_key(ReviewKey::StepForward);
    assert_eq!(st.ply, ply + 1);
}
