//! Chess helpers: squares, FEN piece placement, PGN movetext, and move replay.
//!
//! Move legality, SAN and FEN output come from `rschess` through the trusted items
//! in `crate::rules`; everything here is verified against their contracts.
use vstd::prelude::*;

use crate::rules::{lemma_uci_accepted_ascii, 
    board_fen, board_make_move, board_san_move, fen_readable, start_fen_spec, ChessMove, Position,
};
use vstd::string::StringSliceAdditionalSpecFns;

use crate::text::{
    bytes_len, char_index_of_byte, lemma_chars_in_bytes_le, chars_eq, chars_in_bytes, find, find_first, is_digit, slice_chars,
    strip_brace_chars, strip_braces, text_bytes, trim, trim_chars, char_width,
    chars_of, copy_chars, digit_value, is_upper, lower, split_whitespace, split_ws, string_from_chars,
    to_ascii_lower, ws_state, strip_cr, trim_end_in, trim_end_in_chars, trim_start_in, trim_start_in_chars,
};

verus! {

#[derive(Debug, Clone, Copy, PartialEq, Eq, Structural)]
pub enum Color {
    White,
    Black,
}

#[derive(Debug, Clone, Copy, PartialEq, Eq, Structural)]
pub enum Role {
    King,
    Queen,
    Rook,
    Bishop,
    Knight,
    Pawn,
}

/// A board square; `file` 0 is the a-file, `rank` 0 is the first rank.
#[derive(Debug, Clone, Copy, PartialEq, Eq, Structural)]
pub struct Square {
    pub file: u8,
    pub rank: u8,
}

#[derive(Debug, Clone, Copy, PartialEq, Eq, Structural)]
pub struct PlacedPiece {
    pub square: Square,
    pub role: Role,
    pub color: Color,
}

pub open spec fn square_at(file: u8, rank: u8) -> Option<Square> {
    if file < 8 && rank < 8 {
        Some(Square { file, rank })
    } else {
        None
    }
}

/// ASCII lowercase of a byte.
pub open spec fn lower_byte(b: u8) -> u8 {
    if 65 <= b <= 90 {
        (b + 32) as u8
    } else {
        b
    }
}

/// The square named by two bytes (`e4`, `E4`), as `Square::from_algebraic` reads them.
pub open spec fn square_from_name_bytes(b: Seq<u8>) -> Option<Square> {
    if b.len() != 2 {
        None
    } else {
        square_at(
            lower_byte(b[0]).wrapping_sub(97u8),
            b[1].wrapping_sub(49u8),
        )
    }
}

impl Square {
    pub fn from_coords(file: u8, rank: u8) -> (r: Option<Self>)
        ensures
            r == square_at(file, rank),
    {
        if file < 8 && rank < 8 {
            Some(Self { file, rank })
        } else {
            None
        }
    }

    pub fn from_algebraic(s: &str) -> (r: Option<Self>)
        ensures
            r == square_from_name_bytes(s.spec_bytes()),
    {
        let b = s.as_bytes();
        if b.len() != 2 {
            return None;
        }
        let b0 = b[0];
        let low = if 65 <= b0 && b0 <= 90 {
            b0 + 32
        } else {
            b0
        };
        let file = low.wrapping_sub(97u8);
        let rank = b[1].wrapping_sub(49u8);
        Self::from_coords(file, rank)
    }
}

/// The square named by a file character `a`..`h` and a rank character `1`..`8`.
pub open spec fn square_named(f: char, r: char) -> Square {
    Square { file: ((f as u32) - 97) as u8, rank: ((r as u32) - 49) as u8 }
}

pub open spec fn is_file_char(c: char) -> bool {
    'a' <= c && c <= 'h'
}

pub open spec fn is_rank_char(c: char) -> bool {
    '1' <= c && c <= '8'
}

/// `Square::from_algebraic` of the two-character name `f r`.
fn square_from_chars(f: char, r: char) -> (sq: Option<Square>)
    requires
        is_file_char(f),
        is_rank_char(r),
    ensures
        sq == Some(square_named(f, r)),
{
    let cs = [f, r];
    let name = string_from_chars(&cs);
    let nm: &str = name.as_str();
    proof {
        assert(nm@ =~= seq![f, r]);
        assert(vstd::string::is_ascii(nm));
        vstd::string::is_ascii_spec_bytes(nm);
        assert(nm.spec_bytes() =~= seq![f as u8, r as u8]);
    }
    Square::from_algebraic(nm)
}

// ---------------------------------------------------------------------------
// FEN piece placement
// ---------------------------------------------------------------------------

pub open spec fn role_of_lower(c: char) -> Option<Role> {
    if c == 'k' {
        Some(Role::King)
    } else if c == 'q' {
        Some(Role::Queen)
    } else if c == 'r' {
        Some(Role::Rook)
    } else if c == 'b' {
        Some(Role::Bishop)
    } else if c == 'n' {
        Some(Role::Knight)
    } else if c == 'p' {
        Some(Role::Pawn)
    } else {
        None
    }
}

/// The piece a FEN letter stands for: upper case is White.
pub open spec fn fen_piece(c: char) -> Option<(Role, Color)> {
    match role_of_lower(lower(c)) {
        Some(role) => Some((role, if is_upper(c) { Color::White } else { Color::Black })),
        None => None,
    }
}

pub fn role_from_fen_char(c: char) -> (r: Option<(Role, Color)>)
    ensures
        r == fen_piece(c),
{
    let color = if 'A' <= c && c <= 'Z' {
        Color::White
    } else {
        Color::Black
    };
    let l = to_ascii_lower(c);
    let role = if l == 'k' {
        Role::King
    } else if l == 'q' {
        Role::Queen
    } else if l == 'r' {
        Role::Rook
    } else if l == 'b' {
        Role::Bishop
    } else if l == 'n' {
        Role::Knight
    } else if l == 'p' {
        Role::Pawn
    } else {
        return None;
    };
    Some((role, color))
}

/// The first whitespace-separated field of a FEN (empty when there is none).
pub open spec fn placement_field(fen: Seq<char>) -> Seq<char> {
    if split_ws(fen).len() > 0 {
        split_ws(fen)[0]
    } else {
        Seq::empty()
    }
}

/// Reading a placement field left to right: the rank and file reached (starting at
/// rank 7, file 0) and the pieces found so far. Squares off the board are skipped.
pub open spec fn placement_scan(s: Seq<char>) -> (int, int, Seq<PlacedPiece>)
    decreases s.len(),
{
    if s.len() == 0 {
        (7, 0, Seq::empty())
    } else {
        let (rank, file, out) = placement_scan(s.drop_last());
        let c = s.last();
        if c == '/' {
            (rank - 1, 0, out)
        } else if '1' <= c && c <= '8' {
            (rank, file + digit_value(c), out)
        } else {
            let out2 = match fen_piece(c) {
                Some((role, color)) => match square_at(file as u8, rank as u8) {
                    Some(square) => out.push(PlacedPiece { square, role, color }),
                    None => out,
                },
                None => out,
            };
            (rank, file + 1, out2)
        }
    }
}

/// The pieces that a FEN's placement field puts on the board, in reading order.
pub open spec fn fen_pieces(fen: Seq<char>) -> Seq<PlacedPiece> {
    placement_scan(placement_field(fen)).2
}

proof fn lemma_scan_bounds(s: Seq<char>)
    ensures
        7 - s.len() <= placement_scan(s).0 <= 7,
        0 <= placement_scan(s).1 <= 8 * s.len(),
    decreases s.len(),
{
    if s.len() > 0 {
        lemma_scan_bounds(s.drop_last());
    }
}

/// The castling field of a FEN: its third word.
pub open spec fn castling_field(fen: Seq<char>) -> Seq<char> {
    if split_ws(fen).len() > 2 {
        split_ws(fen)[2]
    } else {
        Seq::empty()
    }
}

/// The FEN's placement puts a king of this color on the square.
pub open spec fn has_king_at(fen: Seq<char>, color: Color, file: u8, rank: u8) -> bool {
    exists|k: int|
        0 <= k < fen_pieces(fen).len() && (#[trigger] fen_pieces(fen)[k]).role == Role::King && fen_pieces(fen)[k].color
            == color && fen_pieces(fen)[k].square == (Square { file, rank })
}

/// Castling as in standard chess: where the castling field holds a right of White (an
/// upper-case letter), White's king is on e1; of Black (lower case), Black's on e8.
pub open spec fn standard_castling(fen: Seq<char>) -> bool {
    let rights = castling_field(fen);
    &&& (exists|i: int| 0 <= i < rights.len() && 'A' <= #[trigger] rights[i] <= 'Z') ==> has_king_at(
        fen,
        Color::White,
        4,
        0,
    )
    &&& (exists|i: int| 0 <= i < rights.len() && 'a' <= #[trigger] rights[i] <= 'z') ==> has_king_at(
        fen,
        Color::Black,
        4,
        7,
    )
}

fn has_letter_in(s: &Vec<char>, lo: char, hi: char) -> (r: bool)
    ensures
        r == exists|i: int| 0 <= i < s@.len() && lo <= #[trigger] s@[i] <= hi,
{
    let mut i: usize = 0;
    while i < s.len()
        invariant
            0 <= i <= s@.len(),
            forall|j: int| 0 <= j < i ==> !(lo <= #[trigger] s@[j] <= hi),
        decreases s@.len() - i,
    {
        if lo <= s[i] && s[i] <= hi {
            return true;
        }
        i = i + 1;
    }
    false
}

fn king_placed_at(ps: &Vec<PlacedPiece>, white: bool, file: u8, rank: u8) -> (r: bool)
    ensures
        r == exists|k: int|
            0 <= k < ps@.len() && (#[trigger] ps@[k]).role == Role::King && ps@[k].color == (if white {
                Color::White
            } else {
                Color::Black
            }) && ps@[k].square == (Square { file, rank }),
{
    let mut k: usize = 0;
    while k < ps.len()
        invariant
            0 <= k <= ps@.len(),
            forall|j: int|
                0 <= j < k ==> !((#[trigger] ps@[j]).role == Role::King && ps@[j].color == (if white {
                    Color::White
                } else {
                    Color::Black
                }) && ps@[j].square == (Square { file, rank })),
        decreases ps@.len() - k,
    {
        let p = &ps[k];
        let is_king = match p.role {
            Role::King => true,
            _ => false,
        };
        let right_color = match p.color {
            Color::White => white,
            Color::Black => !white,
        };
        if is_king && right_color && p.square.file == file && p.square.rank == rank {
            return true;
        }
        k = k + 1;
    }
    false
}

/// Whether a FEN (of fewer than 2^28 characters) has standard castling.
pub fn castling_is_standard(fen: &str) -> (r: bool)
    ensures
        r == crate::rules::castling_ok(fen@),
{
    let cs = chars_of(fen);
    if cs.len() >= 0x1000_0000 {
        return false;
    }
    let words = split_whitespace(&cs);
    let empty: Vec<char> = Vec::new();
    let rights: &Vec<char> = if words.len() > 2 {
        &words[2]
    } else {
        &empty
    };
    assert(rights@ == castling_field(fen@));
    let ps = pieces_from_fen(fen);
    let white_ok = !has_letter_in(rights, 'A', 'Z') || king_placed_at(&ps, true, 4, 0);
    let black_ok = !has_letter_in(rights, 'a', 'z') || king_placed_at(&ps, false, 4, 7);
    white_ok && black_ok
}

/// Parse piece placement from a FEN string (first field only is enough).
pub fn pieces_from_fen(fen: &str) -> (out: Vec<PlacedPiece>)
    requires
        fen@.len() < 0x1000_0000_0000,
    ensures
        out@ == fen_pieces(fen@),
{
    let cs = chars_of(fen);
    let words = split_whitespace(&cs);
    let placement: Vec<char> = if words.len() > 0 {
        copy_chars(&words[0])
    } else {
        Vec::new()
    };
    proof {
        if words.len() > 0 {
            assert(words.deep_view()[0] == words@[0]@);
        }
        assert(placement@ == placement_field(fen@));
        lemma_split_ws_word_len(cs@);
    }
    let mut out: Vec<PlacedPiece> = Vec::new();
    let mut rank: i64 = 7;
    let mut file: i64 = 0;
    let mut i: usize = 0;
    while i < placement.len()
        invariant
            0 <= i <= placement@.len(),
            placement@.len() <= fen@.len(),
            fen@.len() < 0x1000_0000_0000,
            (rank as int, file as int, out@) == placement_scan(placement@.take(i as int)),
        decreases placement@.len() - i,
    {
        let ch = placement[i];
        proof {
            assert(placement@.take(i + 1).drop_last() == placement@.take(i as int));
            assert(placement@.take(i + 1).last() == ch);
            lemma_scan_bounds(placement@.take(i as int));
        }
        if ch == '/' {
            rank = rank - 1;
            file = 0;
        } else if '1' <= ch && ch <= '8' {
            let d: i64 = ((ch as u32) - 48) as i64;
            file = file + d;
        } else {
            match role_from_fen_char(ch) {
                Some((role, color)) => {
                    match Square::from_coords(file as u8, rank as u8) {
                        Some(square) => {
                            out.push(PlacedPiece { square, role, color });
                        },
                        None => {},
                    }
                },
                None => {},
            }
            file = file + 1;
        }
        i = i + 1;
    }
    assert(placement@.take(placement@.len() as int) == placement@);
    out
}

/// Each word of a whitespace split is no longer than the text.
pub proof fn lemma_split_ws_word_len(s: Seq<char>)
    ensures
        forall|k: int| 0 <= k < split_ws(s).len() ==> #[trigger] split_ws(s)[k].len() <= s.len(),
{
    lemma_ws_state_len(s);
}

proof fn lemma_ws_state_len(s: Seq<char>)
    ensures
        forall|k: int| 0 <= k < ws_state(s).0.len() ==> #[trigger] ws_state(s).0[k].len() <= s.len(),
        ws_state(s).1.len() <= s.len(),
    decreases s.len(),
{
    if s.len() > 0 {
        lemma_ws_state_len(s.drop_last());
    }
}

// ---------------------------------------------------------------------------
// Display coordinates
// ---------------------------------------------------------------------------

/// The name of a piece's picture: colour letter, then piece letter (`wK`, `bN`).
pub open spec fn piece_name(role: Role, color: Color) -> Seq<char> {
    let c = match color {
        Color::White => 'w',
        Color::Black => 'b',
    };
    let r = match role {
        Role::King => 'K',
        Role::Queen => 'Q',
        Role::Rook => 'R',
        Role::Bishop => 'B',
        Role::Knight => 'N',
        Role::Pawn => 'P',
    };
    seq![c, r]
}

pub fn piece_key(role: Role, color: Color) -> (k: &'static str)
    ensures
        k@ == piece_name(role, color),
{
    let k = match (color, role) {
        (Color::White, Role::King) => "wK",
        (Color::White, Role::Queen) => "wQ",
        (Color::White, Role::Rook) => "wR",
        (Color::White, Role::Bishop) => "wB",
        (Color::White, Role::Knight) => "wN",
        (Color::White, Role::Pawn) => "wP",
        (Color::Black, Role::King) => "bK",
        (Color::Black, Role::Queen) => "bQ",
        (Color::Black, Role::Rook) => "bR",
        (Color::Black, Role::Bishop) => "bB",
        (Color::Black, Role::Knight) => "bN",
        (Color::Black, Role::Pawn) => "bP",
    };
    proof {
        reveal_strlit("wK");
        reveal_strlit("wQ");
        reveal_strlit("wR");
        reveal_strlit("wB");
        reveal_strlit("wN");
        reveal_strlit("wP");
        reveal_strlit("bK");
        reveal_strlit("bQ");
        reveal_strlit("bR");
        reveal_strlit("bB");
        reveal_strlit("bN");
        reveal_strlit("bP");
    }
    k
}

/// The square under display cell (`file`, `rank_from_bottom`); the board is turned
/// when Black is at the bottom.
pub open spec fn display_square(file: int, rank_from_bottom: int, white_at_bottom: bool) -> Option<
    Square,
> {
    if !(0 <= file < 8) || !(0 <= rank_from_bottom < 8) {
        None
    } else if white_at_bottom {
        Some(Square { file: file as u8, rank: rank_from_bottom as u8 })
    } else {
        Some(Square { file: (7 - file) as u8, rank: (7 - rank_from_bottom) as u8 })
    }
}

/// Map board coords (0..8 from bottom-left of *display*).
pub fn display_to_square(file: i32, rank_from_bottom: i32, white_at_bottom: bool) -> (r: Option<
    Square,
>)
    ensures
        r == display_square(file as int, rank_from_bottom as int, white_at_bottom),
{
    if !(0 <= file && file < 8) || !(0 <= rank_from_bottom && rank_from_bottom < 8) {
        return None;
    }
    let (f, r) = if white_at_bottom {
        (file as u8, rank_from_bottom as u8)
    } else {
        ((7 - file) as u8, (7 - rank_from_bottom) as u8)
    };
    Square::from_coords(f, r)
}

/// The display cell (file, rank from bottom) where `square` is drawn.
pub open spec fn square_display(square: Square, white_at_bottom: bool) -> (int, int) {
    if white_at_bottom {
        (square.file as int, square.rank as int)
    } else {
        (7 - square.file, 7 - square.rank)
    }
}

pub fn square_to_display(square: Square, white_at_bottom: bool) -> (r: (i32, i32))
    requires
        square.file < 8,
        square.rank < 8,
    ensures
        (r.0 as int, r.1 as int) == square_display(square, white_at_bottom),
{
    if white_at_bottom {
        (square.file as i32, square.rank as i32)
    } else {
        (7 - square.file as i32, 7 - square.rank as i32)
    }
}

/// Drawing a square and reading back the cell it was drawn in gives the square again,
/// whichever side is at the bottom.
pub proof fn law_display_round_trip(square: Square, white_at_bottom: bool)
    requires
        square.file < 8,
        square.rank < 8,
    ensures
        display_square(
            square_display(square, white_at_bottom).0,
            square_display(square, white_at_bottom).1,
            white_at_bottom,
        ) == Some(square),
{
}

/// Reading the square under a cell and drawing it lands on the same cell.
pub proof fn law_cell_round_trip(file: int, rank_from_bottom: int, white_at_bottom: bool)
    requires
        0 <= file < 8,
        0 <= rank_from_bottom < 8,
    ensures
        display_square(file, rank_from_bottom, white_at_bottom) matches Some(sq) && square_display(
            sq,
            white_at_bottom,
        ) == (file, rank_from_bottom),
{
}

// ---------------------------------------------------------------------------
// PGN movetext
// ---------------------------------------------------------------------------


/// A PGN tag line: `[` first once trimmed.
pub open spec fn is_header_line(l: Seq<char>) -> bool {
    trim(l).len() > 0 && trim(l)[0] == '['
}

/// Reading a PGN left to right, counting the bytes of the leading tag lines as the
/// header skip does (`line.len() + 1` each, the line without its terminator): whether a
/// non-tag line has ended the header, the bytes counted, and the line being read.
pub open spec fn header_scan(s: Seq<char>) -> (bool, int, Seq<char>)
    decreases s.len(),
{
    if s.len() == 0 {
        (false, 0, Seq::empty())
    } else {
        let (done, bytes, cur) = header_scan(s.drop_last());
        let c = s.last();
        if done {
            (done, bytes, cur)
        } else if c == '\n' {
            if is_header_line(strip_cr(cur)) {
                (false, bytes + text_bytes(strip_cr(cur)) + 1, Seq::empty())
            } else {
                (true, bytes, cur)
            }
        } else {
            (false, bytes, cur.push(c))
        }
    }
}

/// The byte offset at which the header skip places the movetext (before clamping).
pub open spec fn header_bytes(s: Seq<char>) -> int {
    let (done, bytes, cur) = header_scan(s);
    if !done && cur.len() > 0 && is_header_line(cur) {
        bytes + text_bytes(cur) + 1
    } else {
        bytes
    }
}

pub open spec fn min_int(a: int, b: int) -> int {
    if a < b {
        a
    } else {
        b
    }
}

pub open spec fn blank_line() -> Seq<char> {
    seq!['\n', '\n']
}

/// Without a blank line, where the header skip lands must be the start of a character
/// (`pgn_sans` slices the text there).
pub open spec fn movetext_defined(pgn: Seq<char>) -> bool {
    find_first(pgn, blank_line()) is None ==> chars_in_bytes(
        pgn,
        min_int(header_bytes(pgn), text_bytes(pgn) as int),
    ) is Some
}

/// The movetext: everything after the first blank line, or else everything after the
/// leading tag lines.
pub open spec fn movetext(pgn: Seq<char>) -> Seq<char> {
    match find_first(pgn, blank_line()) {
        Some(i) => pgn.subrange(i + 2, pgn.len() as int),
        None => pgn.subrange(
            chars_in_bytes(pgn, min_int(header_bytes(pgn), text_bytes(pgn) as int))->0,
            pgn.len() as int,
        ),
    }
}

/// `t` without trailing `!`, `?`, `#`, `+`.
pub open spec fn trim_marks(t: Seq<char>) -> Seq<char>
    decreases t.len(),
{
    if t.len() > 0 && (t.last() == '!' || t.last() == '?' || t.last() == '#' || t.last() == '+') {
        trim_marks(t.drop_last())
    } else {
        t
    }
}

pub open spec fn is_result_token(t: Seq<char>) -> bool {
    ||| t == seq!['1', '-', '0']
    ||| t == seq!['0', '-', '1']
    ||| t == seq!['1', '/', '2', '-', '1', '/', '2']
    ||| t == seq!['*']
}

/// Move numbers such as `12.` or `12...`: digits and dots only.
pub open spec fn is_number_token(t: Seq<char>) -> bool {
    forall|i: int| 0 <= i < t.len() ==> is_digit(#[trigger] t[i]) || t[i] == '.'
}

/// Going through movetext tokens in order: whether a result token has ended the moves,
/// and the SAN moves collected.
pub open spec fn san_scan(tokens: Seq<Seq<char>>) -> (bool, Seq<Seq<char>>)
    decreases tokens.len(),
{
    if tokens.len() == 0 {
        (false, Seq::empty())
    } else {
        let (stopped, sans) = san_scan(tokens.drop_last());
        let t = trim_marks(tokens.last());
        if stopped || t.len() == 0 {
            (stopped, sans)
        } else if is_result_token(t) {
            (true, sans)
        } else if is_number_token(t) || t[0] == '(' || t[0] == '$' {
            (false, sans)
        } else {
            (false, sans.push(t))
        }
    }
}

/// The SAN moves of a PGN: movetext tokens outside comments, without move numbers,
/// annotation marks, variations starts or NAGs, up to the result.
pub open spec fn pgn_san_moves(pgn: Seq<char>) -> Seq<Seq<char>> {
    san_scan(split_ws(strip_braces(movetext(pgn)))).1
}

/// The byte offset the header skip reaches.
fn header_skip(cs: &[char]) -> (b: usize)
    requires
        text_bytes(cs@) < usize::MAX,
    ensures
        b == min_int(header_bytes(cs@), text_bytes(cs@) as int),
{
    let total = bytes_len(cs);
    let mut done = false;
    let mut bytes: usize = 0;
    let mut cur: Vec<char> = Vec::new();
    let mut i: usize = 0;
    while i < cs.len()
        invariant
            0 <= i <= cs@.len(),
            total == text_bytes(cs@),
            total < usize::MAX,
            (done, bytes as int, cur@) == header_scan(cs@.take(i as int)),
            bytes + text_bytes(cur@) <= text_bytes(cs@.take(i as int)),
        decreases cs@.len() - i,
    {
        let c = cs[i];
        proof {
            assert(cs@.take(i + 1).drop_last() == cs@.take(i as int));
            assert(cs@.take(i + 1).last() == c);
            lemma_text_bytes_push(cs@.take(i as int), c);
            lemma_text_bytes_push(cur@, c);
            lemma_text_bytes_prefix(cs@, i + 1);
            lemma_text_bytes_strip_cr(cur@);
        }
        if !done {
            if c == '\n' {
                let line = strip_cr_chars(&cur);
                let t = trim_chars(&line);
                if t.len() > 0 && t[0] == '[' {
                    let lb = bytes_len(&line);
                    bytes = bytes + lb + 1;
                    cur = Vec::new();
                } else {
                    done = true;
                }
            } else {
                cur.push(c);
            }
        }
        i = i + 1;
    }
    assert(cs@.take(cs@.len() as int) == cs@);
    if !done && cur.len() > 0 {
        let t = trim_chars(&cur);
        if t.len() > 0 && t[0] == '[' {
            let cb = bytes_len(&cur);
            let sum = bytes + cb;
            if sum >= total {
                return total;
            }
            return sum + 1;
        }
    }
    if bytes < total {
        bytes
    } else {
        total
    }
}

proof fn lemma_text_bytes_push(s: Seq<char>, c: char)
    ensures
        text_bytes(s.push(c)) == text_bytes(s) + char_width(c),
{
    assert(s.push(c).drop_last() == s);
}

proof fn lemma_text_bytes_prefix(s: Seq<char>, p: int)
    requires
        0 <= p <= s.len(),
    ensures
        text_bytes(s.take(p)) <= text_bytes(s),
    decreases s.len() - p,
{
    if p < s.len() {
        assert(s.take(p + 1).drop_last() == s.take(p));
        lemma_text_bytes_prefix(s, p + 1);
    } else {
        assert(s.take(p) == s);
    }
}

proof fn lemma_text_bytes_strip_cr(l: Seq<char>)
    ensures
        text_bytes(strip_cr(l)) <= text_bytes(l),
{
    if l.len() > 0 && l.last() == '\r' {
        assert(l.drop_last().push(l.last()) == l);
        lemma_text_bytes_push(l.drop_last(), l.last());
    }
}

fn strip_cr_chars(l: &[char]) -> (r: Vec<char>)
    ensures
        r@ == strip_cr(l@),
{
    if l.len() > 0 && l[l.len() - 1] == '\r' {
        slice_chars(l, 0, l.len() - 1)
    } else {
        copy_chars(l)
    }
}

/// The movetext of a PGN (see `movetext`).
fn movetext_chars(cs: &[char]) -> (r: Vec<char>)
    requires
        text_bytes(cs@) < usize::MAX,
        movetext_defined(cs@),
    ensures
        r@ == movetext(cs@),
{
    let nl2 = ['\n', '\n'];
    assert(nl2@ == blank_line());
    match find(cs, &nl2) {
        Some(i) => {
            let n = cs.len();
            assert(i + 2 <= n);
            slice_chars(cs, i + 2, n)
        },
        None => {
            let b = header_skip(cs);
            match char_index_of_byte(cs, b) {
                Some(p) => {
                    proof {
                        lemma_chars_in_bytes_le(cs@, b as int);
                    }
                    slice_chars(cs, p, cs.len())
                },
                None => Vec::new(),
            }
        },
    }
}

fn is_result_chars(t: &[char]) -> (r: bool)
    ensures
        r == is_result_token(t@),
{
    let a = ['1', '-', '0'];
    let b = ['0', '-', '1'];
    let c = ['1', '/', '2', '-', '1', '/', '2'];
    let d = ['*'];
    assert(a@ == seq!['1', '-', '0']);
    assert(b@ == seq!['0', '-', '1']);
    assert(c@ == seq!['1', '/', '2', '-', '1', '/', '2']);
    assert(d@ == seq!['*']);
    chars_eq(t, &a) || chars_eq(t, &b) || chars_eq(t, &c) || chars_eq(t, &d)
}

fn is_number_chars(t: &[char]) -> (r: bool)
    ensures
        r == is_number_token(t@),
{
    let mut i: usize = 0;
    while i < t.len()
        invariant
            0 <= i <= t@.len(),
            forall|j: int| 0 <= j < i ==> is_digit(#[trigger] t@[j]) || t@[j] == '.',
        decreases t@.len() - i,
    {
        let c = t[i];
        if !(('0' <= c && c <= '9') || c == '.') {
            return false;
        }
        i = i + 1;
    }
    true
}

fn trim_marks_chars(t: &[char]) -> (r: Vec<char>)
    ensures
        r@ == trim_marks(t@),
{
    let mut n: usize = t.len();
    assert(t@.take(t@.len() as int) == t@);
    while n > 0 && (t[n - 1] == '!' || t[n - 1] == '?' || t[n - 1] == '#' || t[n - 1] == '+')
        invariant
            0 <= n <= t@.len(),
            trim_marks(t@) == trim_marks(t@.take(n as int)),
        decreases n,
    {
        assert(t@.take(n as int).drop_last() == t@.take(n - 1));
        n = n - 1;
    }
    assert(t@.take(t@.len() as int) == t@);
    slice_chars(t, 0, n)
}

/// Extract SAN tokens from a PGN, skipping headers, clocks, move numbers, and results.
pub fn pgn_sans(pgn: &str) -> (sans: Vec<String>)
    requires
        text_bytes(pgn@) < usize::MAX,
        movetext_defined(pgn@),
    ensures
        sans.deep_view() == pgn_san_moves(pgn@),
{
    let cs = chars_of(pgn);
    let mt = movetext_chars(&cs);
    let cleaned = strip_brace_chars(&mt);
    let tokens = split_whitespace(&cleaned);
    let mut sans: Vec<String> = Vec::new();
    let mut i: usize = 0;
    let ghost toks = tokens.deep_view();
    while i < tokens.len()
        invariant
            0 <= i <= tokens@.len(),
            toks == tokens.deep_view(),
            toks == split_ws(strip_braces(movetext(pgn@))),
            san_scan(toks.take(i as int)) == (false, sans.deep_view()),
        decreases tokens@.len() - i,
    {
        proof {
            assert(toks.take(i + 1).drop_last() == toks.take(i as int));
            assert(toks.take(i + 1).last() == tokens@[i as int]@);
        }
        let t = trim_marks_chars(&tokens[i]);
        if t.len() == 0 {
            i = i + 1;
            continue;
        }
        if is_result_chars(&t) {
            proof {
                lemma_san_scan_stopped(toks, i + 1);
            }
            return sans;
        }
        if !(is_number_chars(&t) || t[0] == '(' || t[0] == '$') {
            let ghost before = sans.deep_view();
            let st = string_from_chars(&t);
            sans.push(st);
            assert(sans.deep_view() =~= before.push(t@));
        }
        i = i + 1;
    }
    assert(toks.take(toks.len() as int) == toks);
    sans
}

/// Once a result token has been met, later tokens change nothing.
proof fn lemma_san_scan_stopped(toks: Seq<Seq<char>>, k: int)
    requires
        0 <= k <= toks.len(),
        san_scan(toks.take(k)).0,
    ensures
        san_scan(toks) == san_scan(toks.take(k)),
    decreases toks.len() - k,
{
    if k < toks.len() {
        assert(toks.take(k + 1).drop_last() == toks.take(k));
        lemma_san_scan_stopped(toks, k + 1);
    } else {
        assert(toks.take(k) == toks);
    }
}

/// Whether `pgn_sans` can read this PGN: without a blank line the header skip must land
/// at the start of a character.
pub fn movetext_is_defined(pgn: &str) -> (ok: bool)
    requires
        text_bytes(pgn@) < usize::MAX,
    ensures
        ok == movetext_defined(pgn@),
{
    let cs = chars_of(pgn);
    let nl2 = ['\n', '\n'];
    assert(nl2@ == blank_line());
    match find(&cs, &nl2) {
        Some(_) => true,
        None => {
            let b = header_skip(&cs);
            char_index_of_byte(&cs, b).is_some()
        },
    }
}

// ---------------------------------------------------------------------------
// Replaying moves
// ---------------------------------------------------------------------------

/// Playing the SAN moves in order on the board built from `start` after `played`,
/// stopping at the first that cannot be read or made: the moves made, as UCI text.
pub open spec fn tail_moves(start: Seq<char>, played: Seq<Seq<char>>, sans: Seq<Seq<char>>) -> Seq<
    Seq<char>,
>
    decreases sans.len(),
{
    if sans.len() == 0 {
        played
    } else {
        match board_san_move(start, played, sans[0]) {
            Some(u) => if board_make_move(start, played, u) {
                tail_moves(start, played.push(u), sans.drop_first())
            } else {
                played
            },
            None => played,
        }
    }
}

/// Playing all the SAN moves in order, or `None` as soon as one cannot be read or
/// made: the moves made, as UCI text.
pub open spec fn line_moves(start: Seq<char>, played: Seq<Seq<char>>, sans: Seq<Seq<char>>) -> Option<
    Seq<Seq<char>>,
>
    decreases sans.len(),
{
    if sans.len() == 0 {
        Some(Seq::empty())
    } else {
        match board_san_move(start, played, sans[0]) {
            Some(u) => if board_make_move(start, played, u) {
                match line_moves(start, played.push(u), sans.drop_first()) {
                    Some(rest) => Some(seq![u] + rest),
                    None => None,
                }
            } else {
                None
            },
            None => None,
        }
    }
}

/// The FEN after each prefix of `moves` made on the board built from `start`.
pub open spec fn fens_along(start: Seq<char>, moves: Seq<Seq<char>>) -> Seq<Seq<char>> {
    Seq::new((moves.len() + 1) as nat, |k: int| board_fen(start, moves.take(k)))
}

/// Final position after replaying a PGN (ply count + last move UCI for highlights).
#[derive(Debug, Clone)]
pub struct PgnTail {
    pub fen: String,
    pub ply: usize,
    pub last_uci: Option<String>,
}

/// A PGN word as the board replay reads it: without `;`, `{`, `}` at either end, then
/// without `!`, `?`, `#`, `+`, `.` at its end.
pub open spec fn replay_token(t: Seq<char>) -> Seq<char> {
    let w = seq![';', '{', '}'];
    trim_end_in(trim_end_in(trim_start_in(t, w), w), seq!['!', '?', '#', '+', '.'])
}

/// Replaying PGN words on the board built from `start` after `played`: words that are
/// empty, tags or move numbers are passed over, a result ends the replay, and a move
/// that does not read or play is passed over.
pub open spec fn replay_scan(start: Seq<char>, played: Seq<Seq<char>>, tokens: Seq<Seq<char>>) -> Seq<Seq<char>>
    decreases tokens.len(),
{
    if tokens.len() == 0 {
        played
    } else {
        let t = replay_token(tokens[0]);
        if t.len() == 0 || t[0] == '[' || is_number_token(t) {
            replay_scan(start, played, tokens.drop_first())
        } else if is_result_token(t) {
            played
        } else {
            match board_san_move(start, played, t) {
                Some(u) => if board_make_move(start, played, u) {
                    replay_scan(start, played.push(u), tokens.drop_first())
                } else {
                    replay_scan(start, played, tokens.drop_first())
                },
                None => replay_scan(start, played, tokens.drop_first()),
            }
        }
    }
}

fn replay_token_chars(t: &[char]) -> (r: Vec<char>)
    ensures
        r@ == replay_token(t@),
{
    let w = [';', '{', '}'];
    let marks = ['!', '?', '#', '+', '.'];
    assert(w@ == seq![';', '{', '}']);
    assert(marks@ == seq!['!', '?', '#', '+', '.']);
    let a = trim_start_in_chars(t, &w);
    let b = trim_end_in_chars(&a, &w);
    trim_end_in_chars(&b, &marks)
}

/// The board after replaying a whole PGN text word by word from the start, passing over
/// what does not read or play.
pub fn replay_pgn_board(pgn: &str) -> (r: Option<Position>)
    ensures
        r matches Some(p) && p.start() == start_fen_spec() && p.played() == replay_scan(
            start_fen_spec(),
            Seq::empty(),
            split_ws(pgn@),
        ),
{
    let mut board = Position::initial();
    let cs = chars_of(pgn);
    let tokens = split_whitespace(&cs);
    let ghost all = tokens.deep_view();
    let mut i: usize = 0;
    assert(all.skip(0) == all);
    while i < tokens.len()
        invariant
            board.castles_standard(),
            0 <= i <= tokens@.len(),
            all == tokens.deep_view(),
            all == split_ws(pgn@),
            board.start() == start_fen_spec(),
            replay_scan(start_fen_spec(), Seq::empty(), all) == replay_scan(
                start_fen_spec(),
                board.played(),
                all.skip(i as int),
            ),
        decreases tokens@.len() - i,
    {
        proof {
            assert(all.skip(i as int)[0] == tokens@[i as int]@);
            assert(all.skip(i as int).drop_first() == all.skip(i + 1));
        }
        let t = replay_token_chars(&tokens[i]);
        if t.len() == 0 || t[0] == '[' || is_number_chars(&t) {
            i = i + 1;
            continue;
        }
        if is_result_chars(&t) {
            return Some(board);
        }
        let san = string_from_chars(&t);
        let _ = board.make_move_san(san.as_str());
        i = i + 1;
    }
    assert(all.skip(i as int).len() == 0);
    Some(board)
}

/// The moves of a PGN that replay from the starting position.
pub open spec fn pgn_moves(pgn: Seq<char>) -> Seq<Seq<char>> {
    tail_moves(start_fen_spec(), Seq::empty(), pgn_san_moves(pgn))
}

pub open spec fn last_of(ms: Seq<Seq<char>>) -> Option<Seq<char>> {
    if ms.len() == 0 {
        None
    } else {
        Some(ms.last())
    }
}

pub fn start_fen() -> (s: String)
    ensures
        s@ == board_fen(start_fen_spec(), Seq::empty()),
{
    Position::initial().fen()
}

pub fn pgn_tail(pgn: &str) -> (r: Option<PgnTail>)
    requires
        text_bytes(pgn@) < usize::MAX,
        movetext_defined(pgn@),
    ensures
        r matches Some(t) && {
            let ms = pgn_moves(pgn@);
            &&& t.fen@ == board_fen(start_fen_spec(), ms)
            &&& t.ply == ms.len()
            &&& t.last_uci.deep_view() == last_of(ms)
        },
{
    let mut board = Position::initial();
    let mut ply: usize = 0;
    let mut last_uci: Option<String> = None;
    let sans = pgn_sans(pgn);
    let ghost all = sans.deep_view();
    let mut i: usize = 0;
    let mut done = false;
    assert(all.skip(0) == all);
    while i < sans.len() && !done
        invariant
            board.castles_standard(),
            0 <= i <= sans@.len(),
            all == sans.deep_view(),
            all == pgn_san_moves(pgn@),
            ply <= i,
            board.start() == start_fen_spec(),
            done ==> pgn_moves(pgn@) == board.played(),
            !done ==> pgn_moves(pgn@) == tail_moves(
                start_fen_spec(),
                board.played(),
                all.skip(i as int),
            ),
            ply == board.played().len(),
            last_uci.deep_view() == last_of(board.played()),
        decreases sans@.len() - i + (if done { 0int } else { 1int }),
    {
        proof {
            assert(all.skip(i as int)[0] == sans@[i as int]@);
            assert(all.skip(i as int).drop_first() == all.skip(i + 1));
        }
        match board.san_to_move(sans[i].as_str()) {
            Some(mv) => {
                let uci = mv.to_uci();
                if board.make_move(&mv) {
                    last_uci = Some(uci);
                    ply = ply + 1;
                    i = i + 1;
                } else {
                    done = true;
                }
            },
            None => {
                done = true;
            },
        }
    }
    proof {
        if !done {
            assert(all.skip(i as int).len() == 0);
        }
    }
    Some(PgnTail { fen: board.fen(), ply, last_uci })
}

pub fn end_fen_from_pgn(pgn: &str) -> (r: Option<String>)
    requires
        text_bytes(pgn@) < usize::MAX,
        movetext_defined(pgn@),
    ensures
        r matches Some(f) && f@ == board_fen(start_fen_spec(), pgn_moves(pgn@)),
{
    Some(pgn_tail(pgn)?.fen)
}

/// The FEN text of a board.
pub fn position_fen(p: &Position) -> (s: String)
    ensures
        s@ == board_fen(p.start(), p.played()),
{
    p.fen()
}

fn has_lone_two_byte_field(t: &Vec<char>) -> (r: bool)
    ensures
        r == crate::rules::lone_two_byte_field(t@),
{
    let n = t.len();
    if n < 3 {
        return false;
    }
    let mut i: usize = 1;
    while i < n - 1
        invariant
            n == t@.len(),
            1 <= i <= n,
            forall|j: int|
                1 <= j < i && j < n - 1 ==> !(t@[j - 1] == ' ' && t@[j + 1] == ' ' && 0x80 <= (#[trigger] t@[j]) as u32
                    && (t@[j] as u32) < 0x800),
        decreases n - i,
    {
        let c = t[i];
        if t[i - 1] == ' ' && t[i + 1] == ' ' && (c as u32) >= 0x80 && (c as u32) < 0x800 {
            return true;
        }
        i = i + 1;
    }
    false
}

/// The board the FEN describes, if `rschess` accepts it.
pub fn board_from_fen(fen: &str) -> (r: Option<Position>)
    ensures
        r is Some <==> fen_readable(fen@),
        r matches Some(p) ==> p.start() == fen@ && p.played() == Seq::<Seq<char>>::empty() && p.castles_standard(),
{
    let cs = chars_of(fen);
    let sp: Vec<char> = vec![
        '\u{9}', '\u{a}', '\u{b}', '\u{c}', '\u{d}', ' ', '\u{85}', '\u{a0}', '\u{1680}', '\u{2000}',
        '\u{2001}', '\u{2002}', '\u{2003}', '\u{2004}', '\u{2005}', '\u{2006}', '\u{2007}', '\u{2008}',
        '\u{2009}', '\u{200a}', '\u{2028}', '\u{2029}', '\u{202f}', '\u{205f}', '\u{3000}',
    ];
    assert(sp@ =~= crate::rules::unicode_white_space());
    let e = trim_end_in_chars(cs.as_slice(), sp.as_slice());
    let t = trim_start_in_chars(e.as_slice(), sp.as_slice());
    if has_lone_two_byte_field(&t) {
        return None;
    }
    match Position::from_fen(fen) {
        Some(p) => {
            let f = p.fen();
            if castling_is_standard(f.as_str()) {
                Some(p)
            } else {
                None
            }
        },
        None => None,
    }
}

pub fn apply_san_line(fen_before: &str, sans: &[String]) -> (r: Option<Vec<String>>)
    ensures
        r is Some <==> (fen_readable(fen_before@) && line_moves(
            fen_before@,
            Seq::empty(),
            sans.deep_view(),
        ) is Some),
        r matches Some(fens) ==> fens.deep_view() == fens_along(
            fen_before@,
            line_moves(fen_before@, Seq::empty(), sans.deep_view())->0,
        ),
{
    match apply_san_line_with_ucis(fen_before, sans) {
        Some((fens, _)) => Some(fens),
        None => None,
    }
}

/// Replay a SAN PV from `fen_before`. Returns FENs (starting with `fen_before`)
/// and the UCI of each applied move.
pub fn apply_san_line_with_ucis(fen_before: &str, sans: &[String]) -> (r: Option<
    (Vec<String>, Vec<Option<String>>),
>)
    ensures
        r is Some <==> (fen_readable(fen_before@) && line_moves(
            fen_before@,
            Seq::empty(),
            sans.deep_view(),
        ) is Some),
        r matches Some((fens, ucis)) ==> {
            let ms = line_moves(fen_before@, Seq::empty(), sans.deep_view())->0;
            &&& fens.deep_view() == fens_along(fen_before@, ms)
            &&& ucis.deep_view() == ms.map_values(|u: Seq<char>| Some(u))
        },
{
    let mut board = match board_from_fen(fen_before) {
        Some(b) => b,
        None => return None,
    };
    let ghost all = sans.deep_view();
    let ghost start = fen_before@;
    let mut fens: Vec<String> = Vec::new();
    fens.push(board.fen());
    let mut ucis: Vec<Option<String>> = Vec::new();
    let mut i: usize = 0;
    proof {
        assert(all.skip(0) == all);
        assert(board.played().take(0) == board.played());
    }
    while i < sans.len()
        invariant
            board.castles_standard(),
            0 <= i <= sans@.len(),
            all == sans.deep_view(),
            fen_readable(start),
            start == fen_before@,
            board.start() == start,
            board.played().len() == i,
            line_moves(start, Seq::empty(), all) == match line_moves(
                start,
                board.played(),
                all.skip(i as int),
            ) {
                Some(rest) => Some(board.played() + rest),
                None => None,
            },
            fens.deep_view() == fens_along(start, board.played()),
            ucis.deep_view() == board.played().map_values(|u: Seq<char>| Some(u)),
        decreases sans@.len() - i,
    {
        proof {
            assert(all.skip(i as int)[0] == sans@[i as int]@);
            assert(all.skip(i as int).drop_first() == all.skip(i + 1));
        }
        let mv = match board.san_to_move(sans[i].as_str()) {
            Some(m) => m,
            None => {
                assert(line_moves(start, board.played(), all.skip(i as int)) is None);
                return None;
            },
        };
        let uci = mv.to_uci();
        let ghost before = board.played();
        if !board.make_move(&mv) {
            assert(line_moves(start, board.played(), all.skip(i as int)) is None);
            return None;
        }
        let ghost u = mv.uci();
        let ghost ub = ucis.deep_view();
        ucis.push(Some(uci));
        let ghost fb = fens.deep_view();
        fens.push(board.fen());
        proof {
            assert(ucis.deep_view() =~= ub.push(Some(u)));
            assert(board.played().map_values(|x: Seq<char>| Some(x)) =~= before.map_values(
                |x: Seq<char>| Some(x),
            ).push(Some(u)));
            let np = board.played();
            assert(np == before.push(u));
            assert(fens.deep_view() == fb.push(board_fen(start, np)));
            assert forall|k: int| 0 <= k < fb.len() implies #[trigger] np.take(k) == before.take(k) by {
                assert(np.take(k) =~= before.take(k));
            }
            assert(np.take(np.len() as int) == np);
            assert(fens.deep_view() =~= fens_along(start, np));
            let rest_after = line_moves(start, board.played(), all.skip(i + 1));
            if rest_after is Some {
                assert(before + (seq![u] + rest_after->0) =~= board.played() + rest_after->0);
            }
        }
        i = i + 1;
    }
    proof {
        assert(all.skip(i as int).len() == 0);
        assert(board.played() + Seq::<Seq<char>>::empty() =~= board.played());
    }
    Some((fens, ucis))
}

/// The squares named by the first four characters of UCI text.
pub open spec fn uci_squares(u: Seq<char>) -> (Square, Square) {
    (square_named(u[0], u[1]), square_named(u[2], u[3]))
}

pub fn best_move_squares(fen_before: &str, san: &str) -> (r: Option<(Square, Square)>)
    ensures
        r is Some <==> (fen_readable(fen_before@) && board_san_move(
            fen_before@,
            Seq::empty(),
            san@,
        ) is Some),
        r matches Some(sq) ==> sq == uci_squares(
            board_san_move(fen_before@, Seq::empty(), san@)->0,
        ),
{
    let board = board_from_fen(fen_before)?;
    let mv = match board.san_to_move(san) {
        Some(m) => m,
        None => return None,
    };
    squares_from_move(&mv)
}

pub fn squares_from_uci(uci: &str) -> (r: Option<(Square, Square)>)
    ensures
        r is Some <==> crate::rules::uci_accepted(uci@),
        r matches Some(sq) ==> sq == uci_squares(uci@),
{
    if !uci.is_ascii() {
        proof {
            lemma_uci_accepted_ascii(uci@);
        }
        return None;
    }
    let mv = match ChessMove::from_uci(uci) {
        Some(m) => m,
        None => return None,
    };
    squares_from_move(&mv)
}

fn squares_from_move(mv: &ChessMove) -> (r: Option<(Square, Square)>)
    ensures
        r == Some(uci_squares(mv.uci())),
{
    let from = mv.from_square();
    let to = mv.to_square();
    let a = square_from_chars(from.file, from.rank)?;
    let b = square_from_chars(to.file, to.rank)?;
    Some((a, b))
}

} // verus!
