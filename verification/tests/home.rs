use reprise::home::{home_status, queue_row_texts};
use reprise::library::empty_library;
use reprise::models::{AnalyzedMove, Game, GameAnalysis, UtcTime};
use reprise::stats::{category_lines, BlunderCategoryCount};

fn game(id: &str, analysed: bool) -> Game {
    Game {
        id: id.to_string(),
        game_type: "live".to_string(),
        url: None,
        white: "me".to_string(),
        black: "you".to_string(),
        white_elo: None,
        black_elo: None,
        result: Some("1-0".to_string()),
        time_control: None,
        eco: None,
        termination: None,
        played_at: Some(UtcTime { secs: 86400 * 40, nanos: 0 }),
        user_color: Some("white".to_string()),
        opponent: Some("you".to_string()),
        my_username: None,
        pgn: String::new(),
        end_fen: None,
        end_ply: None,
        end_uci: None,
        has_analysis: analysed,
        reviewed: false,
        analysis: None,
    }
}

fn blunder(ply: u32) -> AnalyzedMove {
    AnalyzedMove {
        ply,
        san: "Qh5".to_string(),
        uci: None,
        color: "white".to_string(),
        fen_before: String::new(),
        fen_after: String::new(),
        classification: "blunder".to_string(),
        loss_cp: Some(400),
        eval_played_text: None,
        eval_before_best_text: None,
        eval_white_best: None,
        eval_white_played: None,
        best_moves: vec![],
        teaching: None,
        ideal_after_played: None,
    }
}

#[test]
fn home_status_counts() {
    let mut lib = empty_library("db.json".to_string());
    assert_eq!(home_status(&lib), "0 games \u{b7} 0 analyzed \u{b7} showing 0 still open");
    lib.games = (0..10).map(|i| game(&i.to_string(), i < 3)).collect();
    assert_eq!(home_status(&lib), "10 games \u{b7} 3 analyzed \u{b7} showing 8 still open");
}

#[test]
fn queue_rows() {
    let g = game("1", false);
    let (head, sub) = queue_row_texts(&g);
    assert_eq!(head, "vs you  \u{b7}  Feb 10");
    assert_eq!(sub, "Waiting for analysis");
    let quiet = game("2", true);
    assert_eq!(queue_row_texts(&quiet).1, "Analyzed \u{b7} no pivotal moments \u{2014} a quiet game");
    let mut one = game("3", true);
    one.analysis = Some(GameAnalysis { engine: None, depth: None, analyzed_at: None, moves: vec![blunder(3)] });
    assert_eq!(queue_row_texts(&one).1, "won \u{b7} 1 pivotal moment");
    one.analysis.as_mut().unwrap().moves.push(blunder(5));
    one.played_at = None;
    let (head, sub) = queue_row_texts(&one);
    assert_eq!(sub, "won \u{b7} 2 pivotal moments");
    assert_eq!(head, "vs you  \u{b7}  \u{2014}");
}

#[test]
fn blunder_motif_lines() {
    assert_eq!(category_lines(&vec![]), vec!["No blunders classified yet \u{2014} analyze some games."]);
    let rows = vec![
        BlunderCategoryCount { label: "Hanging piece".to_string(), count: 4 },
        BlunderCategoryCount { label: "Opening".to_string(), count: 1 },
    ];
    assert_eq!(category_lines(&rows), vec!["1. Hanging piece \u{2014} 4", "2. Opening \u{2014} 1"]);
}
