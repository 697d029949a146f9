use reprise::chess_util::start_fen;
use reprise::library::empty_library;
use reprise::models::{AnalyzedMove, BestMove, Game, GameAnalysis, PlayedLine, Teaching, UtcTime};
use reprise::playback::{
    board_plan, present_playback, BoardPlan, agent_prompt, build_playback, game_meta_line, insight_of, ply_insights, replay_pgn, title_case,
    variation_line_from_insight, VariationKind,
};

const START: &str = "rnbqkbnr/pppppppp/8/8/8/8/PPPPPPPP/RNBQKBNR w KQkq - 0 1";

fn words(ws: &[&str]) -> Vec<String> {
    ws.iter().map(|w| w.to_string()).collect()
}

fn mv(ply: u32, san: &str, color: &str, class: &str, loss: Option<i32>) -> AnalyzedMove {
    AnalyzedMove {
        ply,
        san: san.to_string(),
        uci: Some(format!("u{ply}")),
        color: color.to_string(),
        fen_before: format!("before{ply}"),
        fen_after: format!("after{ply}"),
        classification: class.to_string(),
        loss_cp: loss,
        eval_played_text: Some(format!("+0.{ply}")),
        eval_before_best_text: Some("+0.5".to_string()),
        eval_white_best: None,
        eval_white_played: None,
        best_moves: vec![BestMove {
            uci: Some(format!("b{ply}")),
            san: Some("Nf3".to_string()),
            eval_text: Some("+0.6".to_string()),
            pv_san: Some(words(&["Nf3", "Nc6", "Bb5", "a6", "Ba4", "Nf6", "O-O", "Be7", "Re1"])),
        }],
        teaching: None,
        ideal_after_played: Some(PlayedLine { pv_san: Some(vec![]) }),
    }
}

fn game(moves: Vec<AnalyzedMove>) -> Game {
    Game {
        id: "1".to_string(),
        game_type: "live".to_string(),
        url: None,
        white: "me".to_string(),
        black: "rival".to_string(),
        white_elo: Some(1500),
        black_elo: Some(1480),
        result: Some("1-0".to_string()),
        time_control: None,
        eco: None,
        termination: None,
        played_at: Some(UtcTime { secs: 86400 * 40, nanos: 0 }),
        user_color: Some("white".to_string()),
        opponent: Some("rival".to_string()),
        my_username: None,
        pgn: "1. e4 e5 2. Nf3 Nc6 *".to_string(),
        end_fen: None,
        end_ply: None,
        end_uci: None,
        has_analysis: !moves.is_empty(),
        reviewed: false,
        analysis: if moves.is_empty() {
            None
        } else {
            Some(GameAnalysis { engine: None, depth: None, analyzed_at: None, moves })
        },
    }
}

fn analysed() -> Game {
    game(vec![
        mv(1, "e4", "white", "best", Some(0)),
        mv(2, "e5", "black", "blunder", Some(300)),
        mv(3, "Qh5", "white", "mistake", Some(150)),
        mv(4, "Nc6", "black", "best", Some(0)),
        mv(5, "Bc4", "white", "inaccuracy", Some(60)),
    ])
}

#[test]
fn insight_lines_show_at_most_eight_moves() {
    let m = mv(3, "Qh5", "white", "mistake", Some(150));
    let ins = insight_of(&m, Some("white"));
    assert!(ins.mine);
    assert_eq!(ins.best_pv.as_deref(), Some("Nf3 Nc6 Bb5 a6 Ba4 Nf6 O-O Be7"));
    assert_eq!(ins.best_pv_sans.as_ref().unwrap().len(), 9);
    // An empty line counts as none.
    assert_eq!(ins.played_continuation, None);
    assert_eq!(ins.punished_pv_sans, None);
    assert_eq!(ins.best_uci.as_deref(), Some("b3"));
    assert!(!insight_of(&m, Some("black")).mine);
    assert_eq!(ply_insights(&game(vec![])).len(), 0);
}

#[test]
fn playback_from_analysis() {
    let g = analysed();
    let pb = build_playback(&g);
    assert_eq!(pb.fens, words(&["before1", "after1", "after2", "after3", "after4", "after5"]));
    assert_eq!(pb.ucis[0].as_deref(), Some("u1"));
    assert_eq!(pb.ply, 0);
    assert_eq!(pb.insights.len(), 5);
    // The user's pivotal moments: the mistake at ply 3 and the inaccuracy at ply 5.
    assert_eq!(pb.pivotal_moments, vec![3, 5]);
    assert!(pb.white_at_bottom);
}

#[test]
fn playback_from_pgn_replays_until_a_move_fails() {
    let g = game(vec![]);
    let pb = build_playback(&g);
    assert_eq!(pb.fens.len(), 5);
    assert_eq!(pb.fens[0], start_fen());
    let ucis: Vec<String> = pb.ucis.iter().map(|u| u.clone().unwrap()).collect();
    assert_eq!(ucis, words(&["e2e4", "e7e5", "g1f3", "b8c6"]));
    assert!(pb.pivotal_moments.is_empty());
    let (fens, ucis) = replay_pgn("1. e4 e5 2. Ke3 Nc6 *");
    // The illegal king move ends the replay.
    assert_eq!(fens.len(), 3);
    assert_eq!(ucis.len(), 2);
}

#[test]
fn goto_step_and_pivotal_jumps() {
    let mut pb = build_playback(&analysed());
    let shown = pb.goto(3);
    assert_eq!(pb.ply, 3);
    assert_eq!(pb.pivotal_idx, Some(0));
    assert_eq!(shown.fen, "after3");
    assert_eq!(shown.last_uci.as_deref(), Some("u3"));
    assert_eq!(shown.arrow.as_deref(), Some("b3"));
    assert_eq!(shown.counter, "3/5");
    // Past the end the last ply is shown.
    let shown = pb.goto(99);
    assert_eq!(pb.ply, 5);
    assert_eq!(shown.counter, "5/5");
    assert_eq!(pb.step_target(1), None);
    assert_eq!(pb.step_target(-1), Some(4));
    // Pivotal jumps wrap around.
    assert_eq!(pb.pivotal_idx, Some(1));
    assert_eq!(pb.pivotal_target(1), Some(3));
    assert_eq!(pb.pivotal_target(-1), Some(3));
    pb.goto(4);
    assert_eq!(pb.pivotal_idx, None);
    assert_eq!(pb.pivotal_target(1), Some(5));
    assert_eq!(pb.pivotal_target(-1), Some(3));
    pb.goto(0);
    assert_eq!(pb.pivotal_target(-1), None);
}

#[test]
fn moment_text_at_a_pivotal_moment() {
    let mut g = analysed();
    if let Some(a) = g.analysis.as_mut() {
        a.moves[2].teaching = Some(Teaching {
            summary: Some("Qh5 is a mistake.".to_string()),
            why_played: Some(String::new()),
            why_best: Some("Nf3 develops".to_string()),
        });
    }
    let mut pb = build_playback(&g);
    let (head, body) = pb.moment_for_ply("1.5");
    assert_eq!(head, "Start");
    assert_eq!(body, "2 pivotal moments \u{b7} n / p jumps \u{b7} step through with \u{2190} \u{2192}");
    pb.goto(3);
    let (head, body) = pb.moment_for_ply("1.5");
    assert_eq!(
        head,
        "Pivotal Moment 1/2 \u{b7} You \u{b7} Mistake \u{b7} Qh5 \u{b7} \u{2212}1.5 \u{b7} +0.3"
    );
    assert_eq!(
        body,
        "Qh5 is a mistake.\n\nBetter: Nf3 develops\n\nBest line: Nf3 Nc6 Bb5 a6 Ba4 Nf6 O-O Be7"
    );
    // Without teaching text the best move is described.
    pb.goto(4);
    let (head, body) = pb.moment_for_ply("0.0");
    assert_eq!(head, "Opp \u{b7} Best \u{b7} Nc6 \u{b7} \u{2212}0.0 \u{b7} +0.4");
    assert_eq!(body, "Best line: Nf3 Nc6 Bb5 a6 Ba4 Nf6 O-O Be7");
}

#[test]
fn moment_text_falls_back_to_facts() {
    let mut m = mv(1, "e4", "white", "blunder", None);
    m.best_moves[0].pv_san = None;
    m.eval_played_text = None;
    let mut pb = build_playback(&game(vec![m]));
    pb.goto(1);
    let (head, body) = pb.moment_for_ply("9");
    assert_eq!(head, "Pivotal Moment 1/1 \u{b7} You \u{b7} Blunder \u{b7} e4 \u{b7} \u{2014} \u{b7} +0.5");
    assert_eq!(body, "Best was Nf3 (+0.6); before-move best eval +0.5");
    let mut m = mv(1, "e4", "white", "best", Some(0));
    m.best_moves.clear();
    let mut pb = build_playback(&game(vec![m]));
    pb.goto(1);
    let (_, body) = pb.moment_for_ply("0.0");
    assert_eq!(body, "You played e4. Classification: best (\u{2212}0.0 pawns).");
}

#[test]
fn title_case_and_meta_line() {
    assert_eq!(title_case("blunder"), "Blunder");
    assert_eq!(title_case(""), "");
    assert_eq!(title_case("\u{e9}cole"), "\u{c9}cole");
    let g = analysed();
    assert_eq!(game_meta_line(&g), "10 Feb \u{b7} You 1500 \u{b7} rival 1480 \u{b7} 1-0");
    let mut g2 = game(vec![]);
    g2.user_color = Some("black".to_string());
    g2.black_elo = None;
    g2.played_at = None;
    g2.result = Some(String::new());
    assert_eq!(game_meta_line(&g2), "rival 1500");
    g2.white_elo = None;
    assert_eq!(game_meta_line(&g2), "vs rival");
    g2.opponent = None;
    assert_eq!(game_meta_line(&g2), "");
}

#[test]
fn variation_lines_replay_from_the_moment() {
    let mut m = mv(1, "d4", "white", "mistake", Some(120));
    m.fen_before = START.to_string();
    m.best_moves[0].pv_san = Some(words(&["e4", "e5", "Nf3"]));
    let ins = insight_of(&m, Some("white"));
    let line = variation_line_from_insight(&ins, VariationKind::Best).unwrap();
    assert_eq!(line.fens.len(), 4);
    let ucis: Vec<String> = line.ucis.iter().map(|u| u.clone().unwrap()).collect();
    assert_eq!(ucis, words(&["e2e4", "e7e5", "g1f3"]));
    assert!(variation_line_from_insight(&ins, VariationKind::Punished).is_none());
    assert_eq!(VariationKind::Best.title(), "Best line");

    let mut pb = build_playback(&game(vec![m]));
    assert!(!pb.enter_variation(VariationKind::Best));
    pb.goto(1);
    assert!(pb.enter_variation(VariationKind::Best));
    assert_eq!(pb.variation.as_ref().unwrap().ply, 1);
    assert_eq!(pb.step_target(1), Some(2));
    let shown = pb.goto_variation(7).unwrap();
    assert_eq!(shown.counter, "3/3");
    assert_eq!(shown.last_uci.as_deref(), Some("g1f3"));
    assert_eq!(shown.arrow, None);
}

#[test]
fn agent_prompt_describes_the_board() {
    let mut pb = build_playback(&analysed());
    pb.goto(2);
    let p = agent_prompt(&analysed(), &pb, "3.0");
    assert!(p.starts_with("Analyze this move and describe why it is good or bad and how it can be improved.\n\n"));
    assert!(p.contains("  game:     10 Feb \u{b7} You 1500 \u{b7} rival 1480 \u{b7} 1-0\n"));
    assert!(p.contains("  opponent: rival\n  my color: white\n  result:   1-0\n  ply:      2/5\n  FEN:      after2\n"));
    assert!(p.contains("\nMoment text above the board:\n  Opp \u{b7} Blunder \u{b7} e5 \u{b7} \u{2212}3.0 \u{b7} +0.2\n"));
    assert!(p.ends_with("  Best line: Nf3 Nc6 Bb5 a6 Ba4 Nf6 O-O Be7\n"));
}

#[test]
fn games_open_at_their_first_pivotal_moment() {
    let (pb, shown, show_moment) = present_playback(&analysed(), true);
    assert_eq!(pb.ply, 3);
    assert_eq!(pb.pivotal_idx, Some(0));
    assert_eq!(shown.fen, "after3");
    assert!(show_moment);
    let (pb, _, show_moment) = present_playback(&analysed(), false);
    assert_eq!(pb.ply, 0);
    assert!(show_moment);
    let (pb, shown, show_moment) = present_playback(&game(vec![]), true);
    assert_eq!(pb.ply, 0);
    assert_eq!(shown.counter, "0/4");
    assert!(!show_moment);
}

#[test]
fn board_plan_while_analysis_loads() {
    let mut lib = empty_library("db.json".to_string());
    assert!(matches!(board_plan(&lib, &None), BoardPlan::Empty));
    let mut a = game(vec![]);
    a.id = "a".to_string();
    a.has_analysis = true;
    a.end_fen = Some("end".to_string());
    a.end_ply = Some(3);
    a.end_uci = Some("g1f3".to_string());
    let mut b = game(vec![]);
    b.id = "b".to_string();
    lib.games = vec![a, b];
    match board_plan(&lib, &None) {
        BoardPlan::Loading { game, fen, last_uci, counter } => {
            assert_eq!(game, 0);
            assert_eq!(fen, "end");
            assert_eq!(last_uci.as_deref(), Some("g1f3"));
            assert_eq!(counter.as_deref(), Some("3/3"));
        }
        other => panic!("unexpected {other:?}"),
    }
    let b_key = Some(("b".to_string(), "live".to_string()));
    assert!(matches!(board_plan(&lib, &b_key), BoardPlan::Present { game: 1 }));
    let gone = Some(("z".to_string(), "live".to_string()));
    assert!(matches!(board_plan(&lib, &gone), BoardPlan::Loading { game: 0, .. }));
    lib.games[0].end_fen = None;
    match board_plan(&lib, &None) {
        BoardPlan::Loading { fen, counter, .. } => {
            assert_eq!(fen, START);
            assert_eq!(counter.as_deref(), Some("\u{2026}"));
        }
        other => panic!("unexpected {other:?}"),
    }
}
