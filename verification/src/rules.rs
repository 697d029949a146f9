//! The chess rules, as `rschess` implements them: the trusted items of the library.
//!
//! A `Position` holds an `rschess::Board` together with a ghost record of how the board
//! came to be: the FEN text it was built from and the moves (as UCI text) played on it
//! since. Every query of the board is named by a spec function of that record, so the
//! verified code above can state exactly which board answer its results rest on.
use vstd::prelude::*;

use crate::chess_util::Role;

verus! {

#[verifier::external_type_specification]
#[verifier::external_body]
pub struct ExBoard(rschess::Board);

#[verifier::external_type_specification]
#[verifier::external_body]
pub struct ExMove(rschess::Move);

/// Whether `Fen::try_from` accepts the text.
pub uninterp spec fn fen_accepted(fen: Seq<char>) -> bool;

/// `Board::to_fen` (as text) of the board built from `start` with `played` made on it.
pub uninterp spec fn board_fen(start: Seq<char>, played: Seq<Seq<char>>) -> Seq<char>;

/// `Board::side_to_move().is_white()` on that board.
pub uninterp spec fn board_white_to_move(start: Seq<char>, played: Seq<Seq<char>>) -> bool;

/// `Board::san_to_move` on that board: the UCI text of the move, or `None` on an error.
pub uninterp spec fn board_san_move(start: Seq<char>, played: Seq<Seq<char>>, san: Seq<char>) -> Option<Seq<char>>;

/// Whether `Board::make_move` accepts the move with this UCI text on that board: a
/// move read from the text, or one that board gave (on a board with standard castling
/// the two are the same legal move, or both refused).
pub uninterp spec fn board_make_move(start: Seq<char>, played: Seq<Seq<char>>, uci: Seq<char>) -> bool;

/// `Board::move_to_san` of the move with this UCI text on that board (read from the
/// text, or given by that board, as for `board_make_move`).
pub uninterp spec fn board_move_san(start: Seq<char>, played: Seq<Seq<char>>, uci: Seq<char>) -> Option<Seq<char>>;

/// `Board::gen_legal_moves` on that board, each move as its UCI text.
pub uninterp spec fn board_legal_moves(start: Seq<char>, played: Seq<Seq<char>>) -> Seq<Seq<char>>;

/// `Board::is_capture` of the move with this UCI text on that board (read from the text,
/// or given by that board, as for `board_make_move`; `None` on an error).
pub uninterp spec fn board_is_capture(start: Seq<char>, played: Seq<Seq<char>>, uci: Seq<char>) -> Option<bool>;

/// `Board::occupant_of_square`: `None` on an error, else the role of the piece there, if any.
pub uninterp spec fn board_occupant(start: Seq<char>, played: Seq<Seq<char>>, file: char, rank: char) -> Option<Option<Role>>;

/// The characters with the Unicode `White_Space` property, which `str::trim` removes.
pub open spec fn unicode_white_space() -> Seq<char> {
    seq![
        '\u{9}', '\u{a}', '\u{b}', '\u{c}', '\u{d}', ' ', '\u{85}', '\u{a0}', '\u{1680}', '\u{2000}',
        '\u{2001}', '\u{2002}', '\u{2003}', '\u{2004}', '\u{2005}', '\u{2006}', '\u{2007}', '\u{2008}',
        '\u{2009}', '\u{200a}', '\u{2028}', '\u{2029}', '\u{202f}', '\u{205f}', '\u{3000}',
    ]
}

/// The text as `str::trim` leaves it.
pub open spec fn fen_trim(s: Seq<char>) -> Seq<char> {
    crate::text::trim_start_in(crate::text::trim_end_in(s, unicode_white_space()), unicode_white_space())
}

/// A space-separated field inside the text made of one character that takes two bytes
/// in UTF-8. As the en passant field such a field makes `Fen::try_from` panic: it checks
/// the field is two bytes long, then takes its second character by `unwrap`.
pub open spec fn lone_two_byte_field(t: Seq<char>) -> bool {
    exists|i: int|
        0 < i < t.len() - 1 && t[i - 1] == ' ' && t[i + 1] == ' ' && 0x80 <= (#[trigger] t[i]) as u32
            && (t[i] as u32) < 0x800
}

/// A FEN that `Board::to_fen` gave, read as standard chess castling: each side with a
/// castling right has its king on e1 or e8 (see `standard_castling`). Where a king
/// with a right stands elsewhere, a castling move and a king step can share their UCI
/// text, and the moves made would no longer say which board they made; the library
/// reads no such board. (The length bound holds of every FEN `to_fen` writes.)
pub open spec fn castling_ok(fen: Seq<char>) -> bool {
    fen.len() < 0x1000_0000 && crate::chess_util::standard_castling(fen)
}

/// FEN text that the library hands to `rschess`: without a lone two-byte field once
/// trimmed (where `Fen::try_from` could panic; it rejects such text as it is in any
/// other field), accepted by `Fen::try_from`, and with standard castling on the board
/// it describes.
pub open spec fn fen_readable(fen: Seq<char>) -> bool {
    !lone_two_byte_field(fen_trim(fen)) && fen_accepted(fen) && castling_ok(board_fen(fen, Seq::empty()))
}

/// The FEN of the standard starting position, from which `Board::default` is built.
pub open spec fn start_fen_spec() -> Seq<char> {
    seq![
        'r', 'n', 'b', 'q', 'k', 'b', 'n', 'r', '/', 'p', 'p', 'p', 'p', 'p', 'p', 'p', 'p', '/',
        '8', '/', '8', '/', '8', '/', '8', '/', 'P', 'P', 'P', 'P', 'P', 'P', 'P', 'P', '/', 'R',
        'N', 'B', 'Q', 'K', 'B', 'N', 'R', ' ', 'w', ' ', 'K', 'Q', 'k', 'q', ' ', '-', ' ', '0',
        ' ', '1',
    ]
}

pub open spec fn is_promotion_char(c: char) -> bool {
    c == 'q' || c == 'b' || c == 'n' || c == 'r' || c == 'p' || c == 'Q' || c == 'B' || c == 'N'
        || c == 'R' || c == 'P'
}

pub open spec fn promotion_lower(c: char) -> char {
    if 'A' <= c && c <= 'Z' {
        ((c as u32) + 32) as char
    } else {
        c
    }
}

/// Text that `Move::from_uci` accepts: two square names, then at most one promotion
/// letter (any of `qbnrp` in either case).
pub open spec fn uci_accepted(u: Seq<char>) -> bool {
    &&& u.len() == 4 || (u.len() == 5 && is_promotion_char(u[4]))
    &&& 'a' <= u[0] <= 'h' && '1' <= u[1] <= '8'
    &&& 'a' <= u[2] <= 'h' && '1' <= u[3] <= '8'
}

/// Accepted UCI text is ASCII.
pub proof fn lemma_uci_accepted_ascii(u: Seq<char>)
    ensures
        uci_accepted(u) ==> vstd::utf8::is_ascii_chars(u),
{
}

/// `Move::to_uci` of the move `Move::from_uci` reads from accepted text: the same text
/// with a lower-case promotion letter.
pub open spec fn uci_normalized(u: Seq<char>) -> Seq<char> {
    if u.len() == 5 {
        u.take(4).push(promotion_lower(u[4]))
    } else {
        u.take(4)
    }
}

/// A square as its file and rank characters (`e`, `4`).
#[derive(Debug, Clone, Copy, PartialEq, Eq, Structural)]
pub struct SquareName {
    pub file: char,
    pub rank: char,
}

/// A chess board and how it came to be.
pub struct Position {
    board: rschess::Board,
    start: Ghost<Seq<char>>,
    played: Ghost<Seq<Seq<char>>>,
}

/// A move, with the UCI text `Move::to_uci` gives for it.
pub struct ChessMove {
    mv: rschess::Move,
    uci: Ghost<Seq<char>>,
    origin: Ghost<Option<(Seq<char>, Seq<Seq<char>>)>>,
}

impl ChessMove {
    pub closed spec fn uci(&self) -> Seq<char> {
        self.uci@
    }

    /// The board record (start FEN and moves played) of the board that gave the move, or
    /// `None` for a move read from UCI text. A board's own move carries its kind (castling,
    /// en passant, promotion), which `rschess` matches exactly against the legal moves of
    /// the board it is made on; a move read from text is matched by its squares.
    pub closed spec fn origin(&self) -> Option<(Seq<char>, Seq<Seq<char>>)> {
        self.origin@
    }

    /// `Move::from_uci`: the move that accepted UCI text names. The text must be ASCII:
    /// `Move::from_uci` checks the length in bytes, then takes characters by `unwrap`.
    #[verifier::external_body]
    pub(crate) fn from_uci(uci: &str) -> (r: Option<ChessMove>)
        requires
            vstd::utf8::is_ascii_chars(uci@),
        ensures
            r is Some <==> uci_accepted(uci@),
            r matches Some(m) ==> m.uci() == uci_normalized(uci@) && m.origin() is None,
    {
        match rschess::Move::from_uci(uci) {
            Ok(mv) => Some(ChessMove { mv, uci: Ghost(uci_normalized(uci@)), origin: Ghost(None) }),
            Err(_) => None,
        }
    }

    /// `Move::to_uci`.
    #[verifier::external_body]
    pub(crate) fn to_uci(&self) -> (s: String)
        ensures
            s@ == self.uci(),
    {
        self.mv.to_uci()
    }

    /// `Move::from_square`: the file and rank characters that begin the UCI text.
    #[verifier::external_body]
    pub(crate) fn from_square(&self) -> (sq: SquareName)
        ensures
            sq.file == self.uci()[0] && sq.rank == self.uci()[1],
            crate::chess_util::is_file_char(sq.file) && crate::chess_util::is_rank_char(sq.rank),
    {
        let (file, rank) = self.mv.from_square();
        SquareName { file, rank }
    }

    /// `Move::to_square`: the third and fourth characters of the UCI text.
    #[verifier::external_body]
    pub(crate) fn to_square(&self) -> (sq: SquareName)
        ensures
            sq.file == self.uci()[2] && sq.rank == self.uci()[3],
            crate::chess_util::is_file_char(sq.file) && crate::chess_util::is_rank_char(sq.rank),
    {
        let (file, rank) = self.mv.to_square();
        SquareName { file, rank }
    }
}

impl Position {
    /// The FEN text the board was built from.
    pub closed spec fn start(&self) -> Seq<char> {
        self.start@
    }

    /// The UCI text of the moves made on the board since, in order.
    pub closed spec fn played(&self) -> Seq<Seq<char>> {
        self.played@
    }

    /// Castling as in standard chess on this board (see `castling_ok`).
    pub open spec fn castles_standard(&self) -> bool {
        castling_ok(board_fen(self.start(), self.played()))
    }

    /// The move may be made or read on this board: it was read from text, or this board
    /// gave it.
    pub open spec fn owns(&self, m: &ChessMove) -> bool {
        m.origin() is None || m.origin() == Some((self.start(), self.played()))
    }

    /// `Board::default`: the starting position.
    #[verifier::external_body]
    pub(crate) fn initial() -> (p: Position)
        ensures
            p.start() == start_fen_spec(),
            p.played() == Seq::<Seq<char>>::empty(),
            p.castles_standard(),
    {
        Position {
            board: rschess::Board::default(),
            start: Ghost(start_fen_spec()),
            played: Ghost(Seq::empty()),
        }
    }

    /// `Board::from_fen` of the `Fen` that `Fen::try_from` reads from the text. The trimmed
/// text must have no lone two-byte field: `Fen::try_from` checks the en passant field's
/// length in bytes, then takes its second character by `unwrap`.
    #[verifier::external_body]
    pub(crate) fn from_fen(fen: &str) -> (r: Option<Position>)
        requires
            !lone_two_byte_field(fen_trim(fen@)),
        ensures
            r is Some <==> fen_accepted(fen@),
            r matches Some(p) ==> p.start() == fen@ && p.played() == Seq::<Seq<char>>::empty(),
    {
        match rschess::Fen::try_from(fen) {
            Ok(f) => Some(
                Position {
                    board: rschess::Board::from_fen(f),
                    start: Ghost(fen@),
                    played: Ghost(Seq::empty()),
                },
            ),
            Err(_) => None,
        }
    }

    /// `Board::to_fen`, as text.
    #[verifier::external_body]
    pub(crate) fn fen(&self) -> (s: String)
        ensures
            s@ == board_fen(self.start(), self.played()),
    {
        self.board.to_fen().to_string()
    }

    /// `Board::side_to_move`, as "is it White".
    #[verifier::external_body]
    pub(crate) fn white_to_move(&self) -> (w: bool)
        ensures
            w == board_white_to_move(self.start(), self.played()),
    {
        self.board.side_to_move().is_white()
    }

    /// `Board::san_to_move`.
    #[verifier::external_body]
    pub(crate) fn san_to_move(&self, san: &str) -> (r: Option<ChessMove>)
        ensures
            r matches Some(m) ==> board_san_move(self.start(), self.played(), san@) == Some(m.uci()) && m.origin()
                == Some((self.start(), self.played())),
            r is None ==> board_san_move(self.start(), self.played(), san@) is None,
    {
        match self.board.san_to_move(san) {
            Ok(mv) => {
                let ghost u = board_san_move(self.start(), self.played(), san@)->0;
                Some(ChessMove { mv, uci: Ghost(u), origin: Ghost(Some((self.start@, self.played@))) })
            },
            Err(_) => None,
        }
    }

    /// `Board::make_move`: on success the move joins the record, otherwise nothing changes.
    /// The move is read from text or given by this board (`owns`): `Board::make_move`
    /// matches a board's move by its kind, so a move of another board could name another
    /// move here. The board keeps standard castling: rights are only lost, and a king move
    /// loses its side's rights.
    #[verifier::external_body]
    pub(crate) fn make_move(&mut self, m: &ChessMove) -> (ok: bool)
        requires
            old(self).castles_standard(),
            old(self).owns(m),
        ensures
            final(self).castles_standard(),
            ok == board_make_move(old(self).start(), old(self).played(), m.uci()),
            ok ==> final(self).start() == old(self).start() && final(self).played() == old(
                self,
            ).played().push(m.uci()),
            !ok ==> *final(self) == *old(self),
    {
        match self.board.make_move(m.mv) {
            Ok(()) => {
                self.played = Ghost(self.played@.push(m.uci@));
                true
            },
            Err(_) => false,
        }
    }

    /// `Board::make_move_san`: the move read from standard notation is played, as
    /// `san_to_move` then `make_move` give it; on either error nothing changes. The board
    /// keeps standard castling, as for `make_move`.
    #[verifier::external_body]
    pub(crate) fn make_move_san(&mut self, san: &str) -> (ok: bool)
        requires
            old(self).castles_standard(),
        ensures
            final(self).castles_standard(),
            ok == (board_san_move(old(self).start(), old(self).played(), san@) matches Some(u) && board_make_move(
                old(self).start(),
                old(self).played(),
                u,
            )),
            ok ==> final(self).start() == old(self).start() && final(self).played() == old(self).played().push(
                board_san_move(old(self).start(), old(self).played(), san@)->0,
            ),
            !ok ==> *final(self) == *old(self),
    {
        let ghost u = board_san_move(self.start@, self.played@, san@)->0;
        match self.board.make_move_san(san) {
            Ok(()) => {
                self.played = Ghost(self.played@.push(u));
                true
            },
            Err(_) => false,
        }
    }

    /// `Board::move_to_san`, of a move read from text or given by this board.
    #[verifier::external_body]
    pub(crate) fn move_to_san(&self, m: &ChessMove) -> (r: Option<String>)
        requires
            self.castles_standard(),
            self.owns(m),
        ensures
            r matches Some(s) ==> board_move_san(self.start(), self.played(), m.uci()) == Some(s@),
            r is None ==> board_move_san(self.start(), self.played(), m.uci()) is None,
    {
        self.board.move_to_san(m.mv).ok()
    }

    /// `Board::gen_legal_moves`.
    #[verifier::external_body]
    pub(crate) fn legal_moves(&self) -> (v: Vec<ChessMove>)
        ensures
            v@.len() == board_legal_moves(self.start(), self.played()).len(),
            forall|i: int|
                0 <= i < v@.len() ==> #[trigger] v@[i].uci() == board_legal_moves(
                    self.start(),
                    self.played(),
                )[i] && v@[i].origin() == Some((self.start(), self.played())),
    {
        let ghost names = board_legal_moves(self.start(), self.played());
        let moves = self.board.gen_legal_moves();
        let mut out = Vec::new();
        for mv in moves {
            out.push(ChessMove { mv, uci: Ghost(names[out.len() as int]), origin: Ghost(Some((self.start@, self.played@))) });
        }
        out
    }

    /// `Board::is_capture` (`None` where it reports an error), of a move read from text or
    /// given by this board.
    #[verifier::external_body]
    pub(crate) fn is_capture(&self, m: &ChessMove) -> (r: Option<bool>)
        requires
            self.castles_standard(),
            self.owns(m),
        ensures
            r == board_is_capture(self.start(), self.played(), m.uci()),
    {
        self.board.is_capture(m.mv).ok()
    }

    /// `Board::occupant_of_square`: the role of the piece on the square, if any
    /// (`None` where it reports an error).
    #[verifier::external_body]
    pub(crate) fn occupant(&self, file: char, rank: char) -> (r: Option<Option<Role>>)
        ensures
            r == board_occupant(self.start(), self.played(), file, rank),
    {
        match self.board.occupant_of_square(file, rank) {
            Ok(Some(piece)) => Some(Some(match piece.piece_type() {
                rschess::PieceType::K => Role::King,
                rschess::PieceType::Q => Role::Queen,
                rschess::PieceType::R => Role::Rook,
                rschess::PieceType::B => Role::Bishop,
                rschess::PieceType::N => Role::Knight,
                rschess::PieceType::P => Role::Pawn,
            })),
            Ok(None) => Some(None),
            Err(_) => None,
        }
    }
}

} // verus!
