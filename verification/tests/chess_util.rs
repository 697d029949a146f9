use reprise::chess_util::piece_key;
use reprise::chess_util::{
    apply_san_line, apply_san_line_with_ucis, best_move_squares, board_from_fen, display_to_square,
    end_fen_from_pgn, movetext_is_defined, pgn_sans, pgn_tail, pieces_from_fen, replay_pgn_board,
    role_from_fen_char, square_to_display, squares_from_uci, start_fen, Color, Role, Square,
};

const START: &str = "rnbqkbnr/pppppppp/8/8/8/8/PPPPPPPP/RNBQKBNR w KQkq - 0 1";

fn sq(file: u8, rank: u8) -> Square {
    Square { file, rank }
}

#[test]
fn squares_from_names_and_coords() {
    assert_eq!(Square::from_coords(4, 3), Some(sq(4, 3)));
    assert_eq!(Square::from_coords(8, 0), None);
    assert_eq!(Square::from_algebraic("e4"), Some(sq(4, 3)));
    assert_eq!(Square::from_algebraic("H8"), Some(sq(7, 7)));
    assert_eq!(Square::from_algebraic("i1"), None);
    assert_eq!(Square::from_algebraic("e44"), None);
}

#[test]
fn display_cells_round_trip() {
    for &white in &[true, false] {
        for f in 0..8u8 {
            for r in 0..8u8 {
                let (x, y) = square_to_display(sq(f, r), white);
                assert_eq!(display_to_square(x, y, white), Some(sq(f, r)));
            }
        }
    }
    assert_eq!(display_to_square(0, 0, false), Some(sq(7, 7)));
    assert_eq!(display_to_square(8, 0, true), None);
}

#[test]
fn fen_pieces() {
    assert_eq!(role_from_fen_char('n'), Some((Role::Knight, Color::Black)));
    assert_eq!(role_from_fen_char('Q'), Some((Role::Queen, Color::White)));
    assert_eq!(role_from_fen_char('x'), None);
    let ps = pieces_from_fen(START);
    assert_eq!(ps.len(), 32);
    assert!(ps.iter().any(|p| p.square == sq(4, 0) && p.role == Role::King && p.color == Color::White));
    assert!(ps.iter().any(|p| p.square == sq(3, 7) && p.role == Role::Queen && p.color == Color::Black));
}

#[test]
fn pgn_moves_and_tail() {
    // Only the first word of a variation is recognised as such.
    let with_variation = "[Event \"x\"]\n\n1. e4 e5 2. Nf3 (2. Nc3) Nc6 *";
    assert_eq!(pgn_sans(with_variation), vec!["e4", "e5", "Nf3", "Nc3)", "Nc6"]);
    let pgn = "[Event \"x\"]\n[Site \"y\"]\n\n1. e4 {[%clk 0:10:00]} e5!? 2. Nf3 $1 Nc6 1-0";
    assert!(movetext_is_defined(pgn));
    assert_eq!(pgn_sans(pgn), vec!["e4", "e5", "Nf3", "Nc6"]);
    let t = pgn_tail(pgn).unwrap();
    assert_eq!(t.ply, 4);
    assert_eq!(t.last_uci.as_deref(), Some("b8c6"));
    assert_eq!(end_fen_from_pgn(pgn), Some(t.fen.clone()));
    assert_eq!(start_fen(), START);
    // A move that does not play ends the replay.
    let t = pgn_tail("1. e4 e5 2. Ke2 Ke7 3. Ke4 *").unwrap();
    assert_eq!(t.ply, 4);
}

#[test]
fn board_replay_word_by_word() {
    let b = replay_pgn_board("[Event \"x\"] 1. e4 e5 2. Zz9 Nf3+ {note} Nc6 1-0 3. Bb5").unwrap();
    let after = apply_san_line(START, &["e4".to_string(), "e5".to_string(), "Nf3".to_string(), "Nc6".to_string()]).unwrap();
    assert_eq!(reprise::chess_util::position_fen(&b), after[4]);
}

#[test]
fn san_lines_and_squares() {
    let line = vec!["d4".to_string(), "d5".to_string()];
    let (fens, ucis) = apply_san_line_with_ucis(START, &line).unwrap();
    assert_eq!(fens.len(), 3);
    assert_eq!(fens[0], START);
    assert_eq!(ucis, vec![Some("d2d4".to_string()), Some("d7d5".to_string())]);
    assert!(apply_san_line(START, &["Ke2".to_string()]).is_none());
    assert!(apply_san_line("not a fen", &line).is_none());
    assert!(board_from_fen(START).is_some());
    assert_eq!(best_move_squares(START, "Nf3"), Some((sq(6, 0), sq(5, 2))));
    assert_eq!(best_move_squares(START, "Nf6"), None);
    assert_eq!(squares_from_uci("e7e8q"), Some((sq(4, 6), sq(4, 7))));
    assert_eq!(squares_from_uci("e9e8"), None);
}

#[test]
fn piece_pictures_named_by_colour_and_piece() {
    assert_eq!(piece_key(Role::King, Color::White), "wK");
    assert_eq!(piece_key(Role::Knight, Color::Black), "bN");
    assert_eq!(piece_key(Role::Pawn, Color::Black), "bP");
}

#[test]
fn non_ascii_move_and_fen_text_is_refused() {
    assert!(squares_from_uci("éé").is_none());
    assert!(board_from_fen("4k3/8/8/8/8/8/8/4K3 w - é 0 1").is_none());
    assert!(board_from_fen("4k3/8/8/8/8/8/8/4K3 w - - 0 1").is_some());
    // Unicode white space around the text is trimmed as rschess trims it.
    assert!(board_from_fen("4k3/8/8/8/8/8/8/4K3 w - - 0 1\u{a0}").is_some());
    let line = apply_san_line(&format!("{START}\u{a0}"), &["e4".to_string(), "e5".to_string()]);
    assert_eq!(line.map(|f| f.len()), Some(3));
    // A king with a castling right off the e-file is not read: castling and a king step
    // would share their UCI text there.
    assert!(board_from_fen("5k2/8/8/8/8/8/8/5K1R w K - 0 1").is_none());
    assert!(board_from_fen("5k2/8/8/8/8/8/8/5K1R w - - 0 1").is_some());
    assert!(best_move_squares("4k3/8/8/8/8/8/8/4K3 w - é 0 1", "Kd1").is_none());
}
