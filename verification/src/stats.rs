//! Progress figures: time-control labels, and what kind of mistake a blunder was.
use vstd::prelude::*;

use crate::chess_util::{board_from_fen, fen_pieces, pieces_from_fen, PlacedPiece, Role};
use crate::library::Library;
use crate::models::{color_mine, color_is_mine, opt_text, time_before, Game, UtcTime};
use crate::sync::{lemma_text_lt_total, lemma_text_lt_trans, text_less, text_lt};
use crate::rules::{board_is_capture, board_legal_moves, board_occupant, fen_readable};
use crate::text::{
    chars_of, contains_char, find_first, find_lit, nat_chars, nat_text, parse_u32, parse_u32_spec,
    push_chars, push_str, slice_chars, str_eq, string_from_chars, trim, trim_chars,
};

verus! {

// ---------------------------------------------------------------------------
// Time controls
// ---------------------------------------------------------------------------

/// Minutes when the base time is a whole number of minutes, else seconds with an `s`.
pub open spec fn base_text(secs: u32) -> Seq<char> {
    if secs % 60 == 0 {
        nat_text((secs / 60) as nat)
    } else {
        nat_text(secs as nat) + "s"@
    }
}

/// The label of a time control such as `900+10` (`15+10`) or `600` (`10 min`): the
/// text is trimmed; empty is "Unknown"; a base that is not a `u32` leaves the trimmed
/// text as it is; an increment after the first `+` is kept, trimmed, when not empty.
pub open spec fn time_control_label(tc: Seq<char>) -> Seq<char> {
    let t = trim(tc);
    if t.len() == 0 {
        "Unknown"@
    } else {
        let (base, inc) = match find_first(t, "+"@) {
            Some(p) => (trim(t.subrange(0, p)), Some(trim(t.subrange(p + 1, t.len() as int)))),
            None => (t, None),
        };
        match parse_u32_spec(base) {
            None => t,
            Some(secs) => match inc {
                Some(i) if i.len() > 0 => base_text(secs) + "+"@ + i,
                _ => if secs % 60 == 0 {
                    nat_text((secs / 60) as nat) + " min"@
                } else {
                    nat_text(secs as nat) + "s"@
                },
            },
        }
    }
}

fn base_chars(secs: u32) -> (r: Vec<char>)
    ensures
        r@ == base_text(secs),
{
    if secs % 60 == 0 {
        nat_chars((secs / 60) as u64)
    } else {
        let mut r = nat_chars(secs as u64);
        push_str(&mut r, "s");
        r
    }
}

/// Human label for a chess.com-style time control.
pub fn format_time_control(tc: &str) -> (r: String)
    ensures
        r@ == time_control_label(tc@),
{
    let all = chars_of(tc);
    let t = trim_chars(&all);
    if t.len() == 0 {
        proof {
            reveal_strlit("Unknown");
        }
        return "Unknown".to_owned();
    }
    let (base, inc): (Vec<char>, Option<Vec<char>>) = match find_lit(&t, "+") {
        Some(p) => {
            proof {
                reveal_strlit("+");
            }
            let b = slice_chars(&t, 0, p);
            let i = slice_chars(&t, p + 1, t.len());
            (trim_chars(&b), Some(trim_chars(&i)))
        },
        None => (t.clone(), None),
    };
    proof {
        reveal_strlit("+");
    }
    match parse_u32(&base) {
        None => {
            assert(base@ == t@ || find_first(t@, "+"@) is Some);
            string_from_chars(&t)
        },
        Some(secs) => {
            let mut out: Vec<char>;
            match inc {
                Some(i) if i.len() > 0 => {
                    out = base_chars(secs);
                    push_str(&mut out, "+");
                    push_chars(&mut out, &i);
                },
                _ => {
                    if secs % 60 == 0 {
                        out = nat_chars((secs / 60) as u64);
                        push_str(&mut out, " min");
                    } else {
                        out = nat_chars(secs as u64);
                        push_str(&mut out, "s");
                    }
                },
            }
            string_from_chars(&out)
        },
    }
}

/// The series key of a game's time control: its trimmed text, "unknown" when missing
/// or blank.
pub open spec fn time_control_key_text(raw: Option<Seq<char>>) -> Seq<char> {
    let s = match raw {
        Some(r) => trim(r),
        None => Seq::empty(),
    };
    if s.len() == 0 {
        "unknown"@
    } else {
        s
    }
}

pub fn time_control_key(raw: Option<&str>) -> (k: String)
    ensures
        k@ == time_control_key_text(match raw { Some(r) => Some(r@), None => None }),
{
    let s: Vec<char> = match raw {
        Some(r) => {
            let cs = chars_of(r);
            trim_chars(&cs)
        },
        None => Vec::new(),
    };
    if s.len() == 0 {
        proof {
            reveal_strlit("unknown");
        }
        "unknown".to_owned()
    } else {
        string_from_chars(&s)
    }
}

// ---------------------------------------------------------------------------
// Blunder motifs
// ---------------------------------------------------------------------------

#[derive(Debug, Clone)]
pub struct BlunderCategoryCount {
    pub label: String,
    pub count: usize,
}

/// A line of the blunder motifs: rank, label and count.
pub open spec fn category_line(i: nat, c: BlunderCategoryCount) -> Seq<char> {
    nat_text(i + 1) + ". "@ + c.label@ + " \u{2014} "@ + nat_text(c.count as nat)
}

/// The notice shown while no blunder has been sorted into a motif.
pub open spec fn no_categories_text() -> Seq<char> {
    "No blunders classified yet \u{2014} analyze some games."@
}

/// The lines of the blunder motifs, or the notice when there are none.
pub fn category_lines(rows: &Vec<BlunderCategoryCount>) -> (r: Vec<String>)
    requires
        rows@.len() < usize::MAX,
    ensures
        rows@.len() == 0 ==> r.deep_view() == seq![no_categories_text()],
        rows@.len() > 0 ==> r@.len() == rows@.len() && forall|k: int|
            0 <= k < r@.len() ==> #[trigger] r@[k]@ == category_line(k as nat, rows@[k]),
{
    let mut r: Vec<String> = Vec::new();
    if rows.len() == 0 {
        r.push("No blunders classified yet \u{2014} analyze some games.".to_string());
        assert(r.deep_view() =~= seq![no_categories_text()]);
        return r;
    }
    let mut i: usize = 0;
    while i < rows.len()
        invariant
            rows@.len() < usize::MAX,
            0 <= i <= rows@.len(),
            r@.len() == i,
            forall|k: int| 0 <= k < i ==> #[trigger] r@[k]@ == category_line(k as nat, rows@[k]),
        decreases rows@.len() - i,
    {
        let mut out = nat_chars((i + 1) as u64);
        push_str(&mut out, ". ");
        push_str(&mut out, rows[i].label.as_str());
        push_str(&mut out, " \u{2014} ");
        let c = nat_chars(rows[i].count as u64);
        push_chars(&mut out, &c);
        r.push(string_from_chars(&out));
        i = i + 1;
    }
    r
}

/// The value of a piece in centipawns (the king counts nothing).
pub open spec fn role_cp(r: Role) -> int {
    match r {
        Role::Pawn => 100,
        Role::Knight | Role::Bishop => 300,
        Role::Rook => 500,
        Role::Queen => 900,
        Role::King => 0,
    }
}

pub fn piece_type_cp(r: Role) -> (cp: i32)
    ensures
        cp == role_cp(r),
{
    match r {
        Role::Pawn => 100,
        Role::Knight | Role::Bishop => 300,
        Role::Rook => 500,
        Role::Queen => 900,
        Role::King => 0,
    }
}

/// How many of the pieces are neither kings nor pawns.
pub open spec fn officers(ps: Seq<PlacedPiece>) -> nat
    decreases ps.len(),
{
    if ps.len() == 0 {
        0
    } else {
        officers(ps.drop_last()) + if ps.last().role == Role::King || ps.last().role == Role::Pawn {
            0nat
        } else {
            1nat
        }
    }
}

/// An endgame: at most six pieces on the board besides kings and pawns.
pub open spec fn endgame_fen(fen: Seq<char>) -> bool {
    officers(fen_pieces(fen)) <= 6
}

/// A piece that counts toward the endgame limit: any piece but a king or a pawn.
pub open spec fn counts_toward_endgame(p: PlacedPiece) -> bool {
    p.role != Role::King && p.role != Role::Pawn
}

proof fn lemma_officers_filter(ps: Seq<PlacedPiece>)
    ensures
        officers(ps) == ps.filter(|p: PlacedPiece| counts_toward_endgame(p)).len(),
    decreases ps.len(),
{
    reveal(Seq::filter);
    if ps.len() > 0 {
        lemma_officers_filter(ps.drop_last());
    }
}

/// A FEN is an endgame exactly when its placement holds at most six pieces that are
/// neither kings nor pawns, however many kings and pawns there are.
pub proof fn law_endgame_counts_officers(fen: Seq<char>)
    ensures
        endgame_fen(fen) <==> fen_pieces(fen).filter(|p: PlacedPiece| counts_toward_endgame(p)).len() <= 6,
{
    lemma_officers_filter(fen_pieces(fen));
}

/// Adding a king or a pawn anywhere among the pieces never changes how many count
/// toward the endgame limit, so never changes whether a position is an endgame.
pub proof fn law_endgame_ignores_pawns(ps: Seq<PlacedPiece>, k: int, p: PlacedPiece)
    requires
        0 <= k <= ps.len(),
        p.role == Role::Pawn || p.role == Role::King,
    ensures
        officers(ps.insert(k, p)) == officers(ps),
    decreases ps.len(),
{
    if k == ps.len() {
        assert(ps.insert(k, p).drop_last() =~= ps);
    } else {
        assert(ps.insert(k, p).drop_last() =~= ps.drop_last().insert(k, p));
        assert(ps.insert(k, p).last() == ps.last());
        law_endgame_ignores_pawns(ps.drop_last(), k, p);
    }
}

pub fn is_endgame(fen: &str) -> (b: bool)
    requires
        fen@.len() < 0x1000_0000_0000,
    ensures
        b == endgame_fen(fen@),
{
    let pieces = pieces_from_fen(fen);
    let mut n: usize = 0;
    let mut i: usize = 0;
    while i < pieces.len()
        invariant
            0 <= i <= pieces@.len(),
            n == officers(pieces@.take(i as int)),
            n <= i,
        decreases pieces@.len() - i,
    {
        assert(pieces@.take(i + 1).drop_last() =~= pieces@.take(i as int));
        let r = pieces[i].role;
        if !(r == Role::King || r == Role::Pawn) {
            n = n + 1;
        }
        i = i + 1;
    }
    assert(pieces@.take(pieces@.len() as int) =~= pieces@);
    n <= 6
}

/// A capture that wins material: it takes a piece worth at least a minor piece, or
/// lands on a square the board reports as empty or cannot read (en passant).
pub open spec fn capture_hangs(fen: Seq<char>, u: Seq<char>) -> bool {
    &&& board_is_capture(fen, Seq::empty(), u) == Some(true)
    &&& match board_occupant(fen, Seq::empty(), u[2], u[3]) {
        Some(Some(role)) => role_cp(role) >= 300,
        _ => true,
    }
}

/// In the position, some legal capture wins material.
pub open spec fn hanging_after(fen: Seq<char>) -> bool {
    fen_readable(fen) && exists|i: int|
        0 <= i < board_legal_moves(fen, Seq::empty()).len() && capture_hangs(
            fen,
            #[trigger] board_legal_moves(fen, Seq::empty())[i],
        )
}

pub fn leaves_hanging_piece(fen_after: &str) -> (b: bool)
    ensures
        b == hanging_after(fen_after@),
{
    let board = match board_from_fen(fen_after) {
        Some(b) => b,
        None => return false,
    };
    let moves = board.legal_moves();
    let ghost names = board_legal_moves(fen_after@, Seq::empty());
    let mut i: usize = 0;
    while i < moves.len()
        invariant
            board.castles_standard(),
            board.start() == fen_after@,
            board.played() == Seq::<Seq<char>>::empty(),
            fen_readable(fen_after@),
            names == board_legal_moves(fen_after@, Seq::<Seq<char>>::empty()),
            moves@.len() == names.len(),
            forall|k: int|
                0 <= k < moves@.len() ==> #[trigger] moves@[k].uci() == names[k] && moves@[k].origin() == Some(
                    (fen_after@, Seq::<Seq<char>>::empty()),
                ),
            0 <= i <= moves@.len(),
            forall|k: int| 0 <= k < i ==> !capture_hangs(fen_after@, #[trigger] names[k]),
        decreases moves@.len() - i,
    {
        let m = &moves[i];
        assert(m.uci() == names[i as int]);
        assert(m.origin() == Some((fen_after@, Seq::<Seq<char>>::empty())));
        if board.is_capture(m) == Some(true) {
            let sq = m.to_square();
            match board.occupant(sq.file, sq.rank) {
                Some(Some(role)) => {
                    if piece_type_cp(role) >= 300 {
                        assert(capture_hangs(fen_after@, names[i as int]));
                        return true;
                    }
                },
                _ => {
                    assert(capture_hangs(fen_after@, names[i as int]));
                    return true;
                },
            }
        }
        i = i + 1;
    }
    false
}

/// What the stored analysis says about one move, for sorting blunders into motifs:
/// the value of the best and the played evaluation where it is a forced mate, the
/// positions before and after, and the engine's first choice in SAN.
#[derive(Debug, Clone)]
pub struct MoveFacts {
    pub color: String,
    pub classification: String,
    pub ply: u64,
    pub best_mate: Option<i64>,
    pub played_mate: Option<i64>,
    pub fen_before: String,
    pub fen_after: String,
    pub best_san: String,
}

/// A forced mate for the side to move was on the board.
pub fn score_is_mate_for(mate: Option<i64>) -> (b: bool)
    ensures
        b == (mate matches Some(v) && v > 0),
{
    match mate {
        Some(v) => v > 0,
        None => false,
    }
}

/// The move walked into a forced mate.
pub fn score_is_mate_against(mate: Option<i64>) -> (b: bool)
    ensures
        b == (mate matches Some(v) && v < 0),
{
    match mate {
        Some(v) => v < 0,
        None => false,
    }
}

/// The motif of a blunder, checked in this order: a missed mate, an allowed mate, a
/// piece left hanging, a missed capture, then the phase of the game (endgame, opening
/// up to ply 20, middlegame).
pub open spec fn blunder_category(m: MoveFacts) -> &'static str {
    if m.best_mate matches Some(v) && v > 0 {
        "Missed mate"
    } else if m.played_mate matches Some(v) && v < 0 {
        "Allowed mate"
    } else if m.fen_after@.len() > 0 && hanging_after(m.fen_after@) {
        "Hanging piece"
    } else if m.best_san@.contains('x') {
        "Missed capture"
    } else if endgame_fen(m.fen_before@) {
        "Endgame"
    } else if m.ply <= 20 {
        "Opening"
    } else {
        "Middlegame"
    }
}

pub fn categorize_blunder(m: &MoveFacts) -> (c: &'static str)
    requires
        m.fen_before@.len() < 0x1000_0000_0000,
    ensures
        c == blunder_category(*m),
{
    if score_is_mate_for(m.best_mate) {
        return "Missed mate";
    }
    if score_is_mate_against(m.played_mate) {
        return "Allowed mate";
    }
    if !m.fen_after.as_str().is_empty() && leaves_hanging_piece(m.fen_after.as_str()) {
        return "Hanging piece";
    }
    let best = chars_of(m.best_san.as_str());
    if contains_char(&best, 'x') {
        return "Missed capture";
    }
    if is_endgame(m.fen_before.as_str()) {
        return "Endgame";
    }
    if m.ply <= 20 {
        "Opening"
    } else {
        "Middlegame"
    }
}

// ---------------------------------------------------------------------------
// Series over time
// ---------------------------------------------------------------------------

/// The user's rating after a game.
#[derive(Debug, Clone, Copy)]
pub struct EloPoint {
    pub at: UtcTime,
    pub elo: i32,
}

/// The blunders of the user over the games of a window ending at `at`: their rolling
/// mean is `blunders / games`.
#[derive(Debug, Clone, Copy)]
pub struct BlunderMaPoint {
    pub at: UtcTime,
    pub blunders: u64,
    pub games: usize,
}

/// One time-control lane of the progress figures.
#[derive(Debug, Clone)]
pub struct TimeControlProgress {
    /// The raw time control (e.g. `900+10`, `600`).
    pub key: String,
    /// Its label (e.g. `15+10`, `10 min`).
    pub label: String,
    pub elo: Vec<EloPoint>,
    pub blunder_ma: Vec<BlunderMaPoint>,
}

#[derive(Debug, Clone)]
pub struct AnalysisProgressStats {
    pub by_time_control: Vec<TimeControlProgress>,
    pub categories: Vec<BlunderCategoryCount>,
}

/// `r` holds the entries of `s` reordered (`r[k]` is `s[perm[k]]`) from the earliest
/// instant to the latest, entries of the same instant keeping their order.
pub open spec fn oldest_first_by<T>(s: Seq<(UtcTime, T)>, r: Seq<(UtcTime, T)>, perm: Seq<int>) -> bool {
    &&& r.len() == s.len()
    &&& perm.len() == s.len()
    &&& forall|k: int| 0 <= k < r.len() ==> 0 <= #[trigger] perm[k] < s.len() && r[k] == s[perm[k]]
    &&& forall|k: int, l: int| 0 <= k < l < r.len() ==> #[trigger] perm[k] != #[trigger] perm[l]
    &&& forall|k: int, l: int| 0 <= k < l < r.len() ==> !time_before(#[trigger] r[l].0, #[trigger] r[k].0)
    &&& forall|k: int, l: int| 0 <= k < l < r.len() && #[trigger] r[k].0 == #[trigger] r[l].0 ==> perm[k] < perm[l]
}

pub open spec fn oldest_first<T>(s: Seq<(UtcTime, T)>, r: Seq<(UtcTime, T)>) -> bool {
    exists|perm: Seq<int>| oldest_first_by(s, r, perm)
}

fn is_before(a: UtcTime, b: UtcTime) -> (r: bool)
    ensures
        r == time_before(a, b),
{
    a.secs < b.secs || (a.secs == b.secs && a.nanos < b.nanos)
}

/// Entries from the earliest instant to the latest (stably).
pub fn sort_by_time<T>(v: Vec<(UtcTime, T)>) -> (r: Vec<(UtcTime, T)>)
    ensures
        oldest_first(v@, r@),
{
    let ghost g = v@;
    let n = v.len();
    let mut src = v;
    let mut out: Vec<(UtcTime, T)> = Vec::new();
    let ghost mut perm: Seq<int> = Seq::empty();
    while src.len() > 0
        invariant
            n == g.len(),
            src@.len() <= n,
            src@ == g.subrange(n - src@.len(), n as int),
            oldest_first_by(g.subrange(0, n - src@.len()), out@, perm),
        decreases src@.len(),
    {
        let ghost i: int = n - src@.len();
        let ghost o0 = out@;
        let ghost p0 = perm;
        let x = src.remove(0);
        assert(x == g[i]);
        let mut pos: usize = out.len();
        while pos > 0 && is_before(x.0, out[pos - 1].0)
            invariant
                out@ == o0,
                0 <= pos <= o0.len(),
                forall|l: int| pos <= l < o0.len() ==> time_before(x.0, #[trigger] o0[l].0),
            decreases pos,
        {
            pos = pos - 1;
        }
        out.insert(pos, x);
        proof {
            perm = p0.insert(pos as int, i);
            let gi = g.subrange(0, i + 1);
            let r = out@;
            assert(g.subrange(0, i) =~= gi.subrange(0, i));
            assert forall|k: int| 0 <= k < r.len() implies 0 <= #[trigger] perm[k] < gi.len() && r[k]
                == gi[perm[k]] by {
                if k < pos {
                    assert(perm[k] == p0[k] && r[k] == o0[k]);
                } else if k > pos {
                    assert(perm[k] == p0[k - 1] && r[k] == o0[k - 1]);
                }
            }
            assert forall|k: int, l: int| 0 <= k < l < r.len() implies #[trigger] perm[k]
                != #[trigger] perm[l] by {
                if k != pos && l != pos {
                    let k0 = if k < pos { k } else { k - 1 };
                    let l0 = if l < pos { l } else { l - 1 };
                    assert(perm[k] == p0[k0] && perm[l] == p0[l0]);
                } else if k == pos {
                    assert(perm[l] == p0[l - 1]);
                } else {
                    assert(perm[k] == p0[k]);
                }
            }
            assert forall|k: int, l: int| 0 <= k < l < r.len() implies !time_before(
                #[trigger] r[l].0,
                #[trigger] r[k].0,
            ) by {
                if k != pos && l != pos {
                    let k0 = if k < pos { k } else { k - 1 };
                    let l0 = if l < pos { l } else { l - 1 };
                    assert(r[k] == o0[k0] && r[l] == o0[l0]);
                } else if k == pos {
                    assert(r[l] == o0[l - 1]);
                    assert(time_before(x.0, o0[l - 1].0));
                } else {
                    assert(r[k] == o0[k]);
                    assert(!time_before(x.0, o0[pos - 1].0));
                    if k < pos - 1 {
                        assert(!time_before(o0[pos - 1].0, o0[k].0));
                    }
                }
            }
            assert forall|k: int, l: int|
                0 <= k < l < r.len() && #[trigger] r[k].0 == #[trigger] r[l].0 implies perm[k] < perm[l] by {
                if k != pos && l != pos {
                    let k0 = if k < pos { k } else { k - 1 };
                    let l0 = if l < pos { l } else { l - 1 };
                    assert(r[k] == o0[k0] && r[l] == o0[l0]);
                    assert(perm[k] == p0[k0] && perm[l] == p0[l0]);
                } else if k == pos {
                    assert(r[l] == o0[l - 1]);
                    assert(time_before(x.0, o0[l - 1].0));
                } else {
                    assert(perm[k] == p0[k]);
                    assert(0 <= p0[k] < i);
                }
            }
            assert(src@ =~= g.subrange(n - src@.len(), n as int));
        }
    }
    proof {
        assert(g.subrange(0, n as int) =~= g);
    }
    out
}

/// How many points a lane has: the longer of its two series.
pub open spec fn lane_size(s: TimeControlProgress) -> int {
    if s.elo@.len() >= s.blunder_ma@.len() {
        s.elo@.len() as int
    } else {
        s.blunder_ma@.len() as int
    }
}

/// Lanes are shown the fullest first, then by label, then by key.
pub open spec fn lane_before(a: TimeControlProgress, b: TimeControlProgress) -> bool {
    lane_size(a) > lane_size(b) || (lane_size(a) == lane_size(b) && text_lt(a.label@, b.label@)) || (
    lane_size(a) == lane_size(b) && a.label@ == b.label@ && text_lt(a.key@, b.key@))
}

proof fn lemma_lane_order(a: TimeControlProgress, b: TimeControlProgress, c: TimeControlProgress)
    ensures
        a.key@ != b.key@ ==> lane_before(a, b) || lane_before(b, a),
        !(lane_before(a, b) && lane_before(b, a)),
        lane_before(a, b) && lane_before(b, c) ==> lane_before(a, c),
{
    lemma_text_lt_total(a.label@, b.label@);
    lemma_text_lt_total(a.key@, b.key@);
    lemma_text_lt_total(b.label@, c.label@);
    lemma_text_lt_total(b.key@, c.key@);
    lemma_text_lt_total(a.label@, c.label@);
    lemma_text_lt_total(a.key@, c.key@);
    if text_lt(a.label@, b.label@) && text_lt(b.label@, c.label@) {
        lemma_text_lt_trans(a.label@, b.label@, c.label@);
    }
    if text_lt(a.key@, b.key@) && text_lt(b.key@, c.key@) {
        lemma_text_lt_trans(a.key@, b.key@, c.key@);
    }
}

fn lane_len(s: &TimeControlProgress) -> (n: usize)
    ensures
        n == lane_size(*s),
{
    if s.elo.len() >= s.blunder_ma.len() {
        s.elo.len()
    } else {
        s.blunder_ma.len()
    }
}

fn lane_is_before(a: &TimeControlProgress, b: &TimeControlProgress) -> (r: bool)
    ensures
        r == lane_before(*a, *b),
{
    let sa = lane_len(a);
    let sb = lane_len(b);
    if sa != sb {
        return sa > sb;
    }
    let la = chars_of(a.label.as_str());
    let lb = chars_of(b.label.as_str());
    if text_less(&la, &lb) {
        return true;
    }
    if !crate::text::chars_eq(&la, &lb) {
        return false;
    }
    let ka = chars_of(a.key.as_str());
    let kb = chars_of(b.key.as_str());
    text_less(&ka, &kb)
}

/// No two lanes share a key.
pub open spec fn distinct_keys(s: Seq<TimeControlProgress>) -> bool {
    forall|i: int, j: int| 0 <= i < j < s.len() ==> #[trigger] s[i].key@ != #[trigger] s[j].key@
}

/// `r` holds the lanes of `s` (`r[k]` is `s[perm[k]]`) in the order they are shown.
pub open spec fn lanes_ordered_by(s: Seq<TimeControlProgress>, r: Seq<TimeControlProgress>, perm: Seq<int>) -> bool {
    &&& r.len() == s.len()
    &&& perm.len() == s.len()
    &&& forall|k: int| 0 <= k < r.len() ==> 0 <= #[trigger] perm[k] < s.len() && r[k] == s[perm[k]]
    &&& forall|k: int, l: int| 0 <= k < l < r.len() ==> #[trigger] perm[k] != #[trigger] perm[l]
    &&& forall|k: int, l: int| 0 <= k < l < r.len() ==> lane_before(#[trigger] r[k], #[trigger] r[l])
}

pub open spec fn lanes_ordered(s: Seq<TimeControlProgress>, r: Seq<TimeControlProgress>) -> bool {
    exists|perm: Seq<int>| lanes_ordered_by(s, r, perm)
}

/// Puts lanes (with distinct keys) in the order they are shown.
pub fn sort_time_control_series(series: &mut Vec<TimeControlProgress>)
    requires
        distinct_keys(old(series)@),
    ensures
        lanes_ordered(old(series)@, final(series)@),
{
    let ghost g = series@;
    let mut src: Vec<TimeControlProgress> = Vec::new();
    std::mem::swap(&mut src, series);
    let n = src.len();
    let mut out: Vec<TimeControlProgress> = Vec::new();
    let ghost mut perm: Seq<int> = Seq::empty();
    while src.len() > 0
        invariant
            n == g.len(),
            distinct_keys(g),
            src@.len() <= n,
            src@ == g.subrange(n - src@.len(), n as int),
            lanes_ordered_by(g.subrange(0, n - src@.len()), out@, perm),
        decreases src@.len(),
    {
        let ghost i: int = n - src@.len();
        let ghost o0 = out@;
        let ghost p0 = perm;
        let x = src.remove(0);
        assert(x == g[i]);
        let mut pos: usize = out.len();
        while pos > 0 && lane_is_before(&x, &out[pos - 1])
            invariant
                out@ == o0,
                0 <= pos <= o0.len(),
                forall|l: int| pos <= l < o0.len() ==> lane_before(x, #[trigger] o0[l]),
            decreases pos,
        {
            pos = pos - 1;
        }
        out.insert(pos, x);
        proof {
            perm = p0.insert(pos as int, i);
            let gi = g.subrange(0, i + 1);
            let r = out@;
            assert(g.subrange(0, i) =~= gi.subrange(0, i));
            assert forall|k: int| 0 <= k < r.len() implies 0 <= #[trigger] perm[k] < gi.len() && r[k]
                == gi[perm[k]] by {
                if k < pos {
                    assert(perm[k] == p0[k] && r[k] == o0[k]);
                } else if k > pos {
                    assert(perm[k] == p0[k - 1] && r[k] == o0[k - 1]);
                }
            }
            assert forall|k: int, l: int| 0 <= k < l < r.len() implies #[trigger] perm[k]
                != #[trigger] perm[l] by {
                if k != pos && l != pos {
                    let k0 = if k < pos { k } else { k - 1 };
                    let l0 = if l < pos { l } else { l - 1 };
                    assert(perm[k] == p0[k0] && perm[l] == p0[l0]);
                } else if k == pos {
                    assert(perm[l] == p0[l - 1]);
                } else {
                    assert(perm[k] == p0[k]);
                }
            }
            assert forall|k: int, l: int| 0 <= k < l < r.len() implies lane_before(#[trigger] r[k], #[trigger] r[l]) by {
                if k != pos && l != pos {
                    let k0 = if k < pos { k } else { k - 1 };
                    let l0 = if l < pos { l } else { l - 1 };
                    assert(r[k] == o0[k0] && r[l] == o0[l0]);
                } else if k == pos {
                    assert(r[l] == o0[l - 1]);
                } else {
                    assert(r[k] == o0[k]);
                    let pk = p0[k];
                    assert(0 <= pk < i && o0[k] == g[pk]);
                    assert(g[pk].key@ != g[i].key@);
                    lemma_lane_order(o0[k], x, o0[pos - 1]);
                    if k < pos - 1 {
                        assert(lane_before(o0[k], o0[pos - 1]));
                        lemma_lane_order(o0[k], o0[pos - 1], x);
                        lemma_lane_order(o0[pos - 1], x, o0[k]);
                        let pq = p0[pos - 1];
                        assert(0 <= pq < i && o0[pos - 1] == g[pq]);
                        assert(g[pq].key@ != g[i].key@);
                    } else {
                        let pq = p0[pos - 1];
                        assert(0 <= pq < i && o0[pos - 1] == g[pq]);
                        assert(g[pq].key@ != g[i].key@);
                    }
                }
            }
            assert(src@ =~= g.subrange(n - src@.len(), n as int));
        }
    }
    proof {
        assert(g.subrange(0, n as int) =~= g);
    }
    *series = out;
}

/// The entries of series `key`, in order.
pub open spec fn with_key<T>(ps: Seq<(Seq<char>, T)>, key: Seq<char>) -> Seq<T>
    decreases ps.len(),
{
    if ps.len() == 0 {
        Seq::empty()
    } else if ps.last().0 == key {
        with_key(ps.drop_last(), key).push(ps.last().1)
    } else {
        with_key(ps.drop_last(), key)
    }
}

pub open spec fn keyed_view<T>(ps: Seq<(String, T)>) -> Seq<(Seq<char>, T)> {
    ps.map_values(|p: (String, T)| (p.0@, p.1))
}

/// `groups` holds, once for each key of `ps` and in no other, the entries of that key.
pub open spec fn grouped<T>(ps: Seq<(Seq<char>, T)>, groups: Seq<(String, Vec<T>)>) -> bool {
    &&& forall|i: int, j: int| 0 <= i < j < groups.len() ==> #[trigger] groups[i].0@ != #[trigger] groups[j].0@
    &&& forall|q: int| 0 <= q < groups.len() ==> (#[trigger] groups[q]).1@ == with_key(ps, groups[q].0@) && groups[q].1@.len() > 0
    &&& forall|j: int| 0 <= j < ps.len() ==> exists|q: int| 0 <= q < groups.len() && #[trigger] groups[q].0@ == (#[trigger] ps[j]).0
}

proof fn lemma_with_key_push<T>(ps: Seq<(Seq<char>, T)>, p: (Seq<char>, T), key: Seq<char>)
    ensures
        with_key(ps.push(p), key) == if p.0 == key {
            with_key(ps, key).push(p.1)
        } else {
            with_key(ps, key)
        },
{
    assert(ps.push(p).drop_last() =~= ps);
}

proof fn lemma_with_key_absent<T>(ps: Seq<(Seq<char>, T)>, key: Seq<char>)
    requires
        forall|j: int| 0 <= j < ps.len() ==> (#[trigger] ps[j]).0 != key,
    ensures
        with_key(ps, key) == Seq::<T>::empty(),
    decreases ps.len(),
{
    if ps.len() > 0 {
        lemma_with_key_absent(ps.drop_last(), key);
    }
}

/// Groups keyed entries by key, keys in the order they first come.
pub fn group_by_key<T>(ps: Vec<(String, T)>) -> (groups: Vec<(String, Vec<T>)>)
    ensures
        grouped(keyed_view(ps@), groups@),
{
    let ghost all = keyed_view(ps@);
    let n = ps.len();
    let mut src = ps;
    let mut groups: Vec<(String, Vec<T>)> = Vec::new();
    let mut i: usize = 0;
    while src.len() > 0
        invariant
            n == all.len(),
            i + src@.len() == n,
            keyed_view(src@) == all.subrange(i as int, n as int),
            grouped(all.take(i as int), groups@),
        decreases src@.len(),
    {
        let ghost pre = all.take(i as int);
        let ghost g0 = groups@;
        let ghost sv = keyed_view(src@);
        let ghost s0 = src@;
        let x = src.remove(0);
        let ghost xv = (x.0@, x.1);
        assert(xv == all[i as int]) by {
            assert(sv[0] == all[i as int]);
        }
        assert(all.take(i + 1) =~= pre.push(xv));
        let mut q: usize = 0;
        let mut at: Option<usize> = None;
        while q < groups.len() && at.is_none()
            invariant
                groups@ == g0,
                xv.0 == x.0@,
                0 <= q <= g0.len(),
                at matches Some(p) ==> p < g0.len() && g0[p as int].0@ == xv.0,
                at is None ==> forall|p: int| 0 <= p < q ==> #[trigger] g0[p].0@ != xv.0,
            decreases g0.len() - q,
        {
            if crate::text::str_eq(groups[q].0.as_str(), x.0.as_str()) {
                at = Some(q);
            }
            q = q + 1;
        }
        match at {
            Some(p) => {
                let ghost old_vals = groups@[p as int].1@;
                groups[p].1.push(x.1);
                proof {
                    let r = groups@;
                    let nall = all.take(i + 1);
                    assert forall|a: int, b: int| 0 <= a < b < r.len() implies #[trigger] r[a].0@ != #[trigger] r[b].0@ by {
                        assert(r[a].0 == g0[a].0 && r[b].0 == g0[b].0);
                    }
                    assert forall|k: int| 0 <= k < r.len() implies (#[trigger] r[k]).1@ == with_key(nall, r[k].0@) && r[k].1@.len() > 0 by {
                        lemma_with_key_push(pre, xv, r[k].0@);
                        if k != p {
                            assert(r[k] == g0[k]);
                        }
                    }
                    assert forall|j: int| 0 <= j < nall.len() implies exists|k: int| 0 <= k < r.len() && #[trigger] r[k].0@ == (#[trigger] nall[j]).0 by {
                        if j < i {
                            assert(nall[j] == pre[j]);
                            let k = choose|k: int| 0 <= k < g0.len() && #[trigger] g0[k].0@ == pre[j].0;
                            assert(r[k].0 == g0[k].0);
                        } else {
                            assert(r[p as int].0 == g0[p as int].0);
                        }
                    }
                }
            },
            None => {
                let mut vals: Vec<T> = Vec::new();
                vals.push(x.1);
                let key = x.0;
                groups.push((key, vals));
                proof {
                    let r = groups@;
                    let nall = all.take(i + 1);
                    let p = g0.len() as int;
                    assert forall|j: int| 0 <= j < pre.len() implies (#[trigger] pre[j]).0 != xv.0 by {
                        let k = choose|k: int| 0 <= k < g0.len() && #[trigger] g0[k].0@ == pre[j].0;
                    }
                    lemma_with_key_absent(pre, xv.0);
                    assert forall|a: int, b: int| 0 <= a < b < r.len() implies #[trigger] r[a].0@ != #[trigger] r[b].0@ by {
                        if b == p {
                            assert(r[a] == g0[a]);
                        } else {
                            assert(r[a] == g0[a] && r[b] == g0[b]);
                        }
                    }
                    assert forall|k: int| 0 <= k < r.len() implies (#[trigger] r[k]).1@ == with_key(nall, r[k].0@) && r[k].1@.len() > 0 by {
                        lemma_with_key_push(pre, xv, r[k].0@);
                        if k != p {
                            assert(r[k] == g0[k]);
                        } else {
                            assert(r[k].1@ =~= Seq::<T>::empty().push(xv.1));
                        }
                    }
                    assert forall|j: int| 0 <= j < nall.len() implies exists|k: int| 0 <= k < r.len() && #[trigger] r[k].0@ == (#[trigger] nall[j]).0 by {
                        if j < i {
                            assert(nall[j] == pre[j]);
                            let k = choose|k: int| 0 <= k < g0.len() && #[trigger] g0[k].0@ == pre[j].0;
                            assert(r[k] == g0[k]);
                        } else {
                            assert(r[p].0@ == xv.0);
                        }
                    }
                }
            },
        }
        i = i + 1;
        proof {
            assert(keyed_view(src@) =~= all.subrange(i as int, n as int)) by {
                assert forall|k: int| 0 <= k < src@.len() implies keyed_view(src@)[k] == all.subrange(i as int, n as int)[k] by {
                    assert(src@[k] == s0[k + 1]);
                    assert(sv[k + 1] == keyed_view(s0)[k + 1]);
                }
            }
        }
    }
    proof {
        assert(all.take(n as int) =~= all);
    }
    groups
}

/// Some entry of `perm` is `q`.
pub open spec fn names_position(perm: Seq<int>, q: int) -> bool {
    exists|k: int| 0 <= k < perm.len() && perm[k] == q
}

/// A list of distinct positions `0..n` (in some order) names every position.
pub proof fn lemma_perm_onto(perm: Seq<int>, n: int)
    requires
        perm.len() == n,
        forall|k: int| 0 <= k < n ==> 0 <= #[trigger] perm[k] < n,
        forall|k: int, l: int| 0 <= k < l < n ==> #[trigger] perm[k] != #[trigger] perm[l],
    ensures
        forall|q: int| 0 <= q < n ==> #[trigger] names_position(perm, q),
{
    assert(perm.no_duplicates()) by {
        assert forall|i: int, j: int| 0 <= i < perm.len() && 0 <= j < perm.len() && i != j implies perm[i] != perm[j] by {
            if i < j {
            } else {
            }
        }
    }
    perm.unique_seq_to_set();
    vstd::set_lib::lemma_int_range(0, n);
    let range = vstd::set_lib::set_int_range(0, n);
    assert(perm.to_set().subset_of(range));
    vstd::set_lib::lemma_subset_equality(perm.to_set(), range);
    assert forall|q: int| 0 <= q < n implies #[trigger] names_position(perm, q) by {
        assert(range.contains(q));
        assert(perm.to_set().contains(q));
    }
}

/// The rating a game gives the user: Black's when the user played Black, else White's.
pub open spec fn user_elo(g: Game) -> Option<i32> {
    if opt_text(g.user_color) == Some("black"@) {
        g.black_elo
    } else {
        g.white_elo
    }
}

/// The rating points of the games in order (a game needs a date and a rating), each
/// with the key of its time control.
pub open spec fn elo_points(games: Seq<Game>) -> Seq<(Seq<char>, (UtcTime, i32))>
    decreases games.len(),
{
    if games.len() == 0 {
        Seq::empty()
    } else {
        let r = elo_points(games.drop_last());
        let g = games.last();
        match (g.played_at, user_elo(g)) {
            (Some(at), Some(e)) => r.push((time_control_key_text(opt_text(g.time_control)), (at, e))),
            _ => r,
        }
    }
}

/// A game's rating point is the user's own rating: Black's for a game the user played
/// as Black, White's for one played as White; a dated game with that rating adds one
/// point at its date, one without adds none.
pub proof fn law_elo_point_is_users_rating(s: Seq<Game>, g: Game)
    ensures
        g.played_at is None ==> elo_points(s.push(g)) == elo_points(s),
        g.played_at matches Some(at) ==> (opt_text(g.user_color) == Some("black"@) ==> match g.black_elo {
            Some(e) => elo_points(s.push(g)).len() == elo_points(s).len() + 1 && elo_points(s.push(g)).last().1 == (
                at,
                e,
            ),
            None => elo_points(s.push(g)) == elo_points(s),
        }),
        g.played_at matches Some(at) ==> (opt_text(g.user_color) == Some("white"@) ==> match g.white_elo {
            Some(e) => elo_points(s.push(g)).len() == elo_points(s).len() + 1 && elo_points(s.push(g)).last().1 == (
                at,
                e,
            ),
            None => elo_points(s.push(g)) == elo_points(s),
        }),
{
    reveal_strlit("black");
    reveal_strlit("white");
    assert(s.push(g).drop_last() =~= s);
    assert(s.push(g).last() == g);
    assert("white"@ != "black"@) by {
        assert("white"@[0] != "black"@[0]);
    }
}

/// The label of a lane: "Unknown" for the unknown key, else the time control's label.
pub open spec fn series_label(key: Seq<char>) -> Seq<char> {
    if key == "unknown"@ {
        "Unknown"@
    } else {
        time_control_label(key)
    }
}

pub open spec fn elo_pairs(e: Seq<EloPoint>) -> Seq<(UtcTime, i32)> {
    e.map_values(|p: EloPoint| (p.at, p.elo))
}

/// Some lane has the key.
pub open spec fn has_lane(r: Seq<TimeControlProgress>, key: Seq<char>) -> bool {
    exists|i: int| 0 <= i < r.len() && r[i].key@ == key
}

/// `r` holds one lane per time control of the points, in the order lanes are shown,
/// each with its points from the earliest to the latest (stably) and no blunder series.
pub open spec fn elo_lanes(ps: Seq<(Seq<char>, (UtcTime, i32))>, r: Seq<TimeControlProgress>) -> bool {
    &&& distinct_keys(r)
    &&& forall|i: int, j: int| 0 <= i < j < r.len() ==> lane_before(#[trigger] r[i], #[trigger] r[j])
    &&& forall|j: int| 0 <= j < ps.len() ==> #[trigger] has_lane(r, ps[j].0)
    &&& forall|i: int| 0 <= i < r.len() ==> {
        &&& with_key(ps, (#[trigger] r[i]).key@).len() > 0
        &&& oldest_first(with_key(ps, r[i].key@), elo_pairs(r[i].elo@))
        &&& r[i].label@ == series_label(r[i].key@)
        &&& r[i].blunder_ma@.len() == 0
    }
}

fn lane_label(key: &str) -> (l: String)
    ensures
        l@ == series_label(key@),
{
    if crate::text::str_eq(key, "unknown") {
        proof {
            reveal_strlit("Unknown");
        }
        "Unknown".to_owned()
    } else {
        format_time_control(key)
    }
}

fn elo_points_of(games: &Vec<Game>) -> (ps: Vec<(String, (UtcTime, i32))>)
    ensures
        keyed_view(ps@) == elo_points(games@),
{
    let mut ps: Vec<(String, (UtcTime, i32))> = Vec::new();
    let mut i: usize = 0;
    while i < games.len()
        invariant
            0 <= i <= games@.len(),
            keyed_view(ps@) == elo_points(games@.take(i as int)),
        decreases games@.len() - i,
    {
        assert(games@.take(i + 1).drop_last() =~= games@.take(i as int));
        let g = &games[i];
        let black = match &g.user_color {
            Some(c) => crate::text::str_eq(c.as_str(), "black"),
            None => false,
        };
        let elo = if black {
            g.black_elo
        } else {
            g.white_elo
        };
        match (g.played_at, elo) {
            (Some(at), Some(e)) => {
                let tc: Option<&str> = match &g.time_control {
                    Some(t) => Some(t.as_str()),
                    None => None,
                };
                let key = time_control_key(tc);
                let ghost before = keyed_view(ps@);
                let ghost kv = key@;
                ps.push((key, (at, e)));
                assert(keyed_view(ps@) =~= before.push((kv, (at, e))));
            },
            _ => {},
        }
        i = i + 1;
    }
    assert(games@.take(games@.len() as int) =~= games@);
    ps
}

/// Lanes for grouped points: each group's points sorted, with its label.
fn lanes_of(groups: Vec<(String, Vec<(UtcTime, i32)>)>) -> (lanes: Vec<TimeControlProgress>)
    ensures
        lanes@.len() == groups@.len(),
        forall|q: int| 0 <= q < lanes@.len() ==> {
            &&& (#[trigger] lanes@[q]).key@ == groups@[q].0@
            &&& oldest_first(groups@[q].1@, elo_pairs(lanes@[q].elo@))
            &&& lanes@[q].label@ == series_label(lanes@[q].key@)
            &&& lanes@[q].blunder_ma@.len() == 0
            &&& lane_size(lanes@[q]) == groups@[q].1@.len()
        },
{
    let ghost g = groups@;
    let n = groups.len();
    let mut src = groups;
    let mut lanes: Vec<TimeControlProgress> = Vec::new();
    while src.len() > 0
        invariant
            n == g.len(),
            lanes@.len() + src@.len() == n,
            src@ == g.subrange(lanes@.len() as int, n as int),
            forall|q: int| 0 <= q < lanes@.len() ==> {
                &&& (#[trigger] lanes@[q]).key@ == g[q].0@
                &&& oldest_first(g[q].1@, elo_pairs(lanes@[q].elo@))
                &&& lanes@[q].label@ == series_label(lanes@[q].key@)
                &&& lanes@[q].blunder_ma@.len() == 0
                &&& lane_size(lanes@[q]) == g[q].1@.len()
            },
        decreases src@.len(),
    {
        let ghost k = lanes@.len() as int;
        let ghost s0 = src@;
        let (key, vals) = src.remove(0);
        assert(s0[0] == g[k]);
        let ghost vv = vals@;
        let sorted = sort_by_time(vals);
        let mut elo: Vec<EloPoint> = Vec::new();
        let mut j: usize = 0;
        while j < sorted.len()
            invariant
                0 <= j <= sorted@.len(),
                elo_pairs(elo@) == sorted@.take(j as int),
            decreases sorted@.len() - j,
        {
            let ghost before = elo@;
            elo.push(EloPoint { at: sorted[j].0, elo: sorted[j].1 });
            assert(elo_pairs(elo@) =~= elo_pairs(before).push(sorted@[j as int]));
            assert(sorted@.take(j + 1) =~= sorted@.take(j as int).push(sorted@[j as int]));
            j = j + 1;
        }
        assert(sorted@.take(sorted@.len() as int) =~= sorted@);
        let label = lane_label(key.as_str());
        let ghost before = lanes@;
        lanes.push(TimeControlProgress { key, label, elo, blunder_ma: Vec::new() });
        proof {
            assert forall|q: int| 0 <= q < lanes@.len() implies {
                &&& (#[trigger] lanes@[q]).key@ == g[q].0@
                &&& oldest_first(g[q].1@, elo_pairs(lanes@[q].elo@))
                &&& lanes@[q].label@ == series_label(lanes@[q].key@)
                &&& lanes@[q].blunder_ma@.len() == 0
                &&& lane_size(lanes@[q]) == g[q].1@.len()
            } by {
                if q < k {
                    assert(lanes@[q] == before[q]);
                }
            }
            assert(src@ =~= g.subrange(lanes@.len() as int, n as int));
        }
    }
    lanes
}

/// The user's rating over time, one lane per time control.
pub fn elo_by_time_control(library: &Library) -> (r: Vec<TimeControlProgress>)
    ensures
        elo_lanes(elo_points(library.games@), r@),
{
    let ps = elo_points_of(&library.games);
    let ghost pv = keyed_view(ps@);
    let groups = group_by_key(ps);
    let ghost gs = groups@;
    let mut lanes = lanes_of(groups);
    let ghost pre = lanes@;
    proof {
        assert forall|i: int, j: int| 0 <= i < j < pre.len() implies #[trigger] pre[i].key@ != #[trigger] pre[j].key@ by {
            assert(gs[i].0@ != gs[j].0@);
        }
    }
    sort_time_control_series(&mut lanes);
    proof {
        let r = lanes@;
        let perm = choose|perm: Seq<int>| lanes_ordered_by(pre, r, perm);
        assert(lanes_ordered_by(pre, r, perm));
        lemma_perm_onto(perm, pre.len() as int);
        assert forall|i: int, j: int| 0 <= i < j < r.len() implies #[trigger] r[i].key@ != #[trigger] r[j].key@ by {
            assert(r[i] == pre[perm[i]] && r[j] == pre[perm[j]]);
            assert(perm[i] != perm[j]);
            if perm[i] < perm[j] {
                assert(gs[perm[i]].0@ != gs[perm[j]].0@);
            } else {
                assert(gs[perm[j]].0@ != gs[perm[i]].0@);
            }
        }
        assert forall|j: int| 0 <= j < pv.len() implies #[trigger] has_lane(r, pv[j].0) by {
            let q = choose|q: int| 0 <= q < gs.len() && #[trigger] gs[q].0@ == pv[j].0;
            assert(pre[q].key@ == gs[q].0@);
            assert(names_position(perm, q));
            let k = choose|k: int| 0 <= k < perm.len() && perm[k] == q;
            assert(r[k] == pre[q]);
        }
        assert forall|i: int| 0 <= i < r.len() implies {
            &&& with_key(pv, (#[trigger] r[i]).key@).len() > 0
            &&& oldest_first(with_key(pv, r[i].key@), elo_pairs(r[i].elo@))
            &&& r[i].label@ == series_label(r[i].key@)
            &&& r[i].blunder_ma@.len() == 0
        } by {
            let q = perm[i];
            assert(r[i] == pre[q]);
            assert(gs[q].1@ == with_key(pv, gs[q].0@));
        }
        assert(elo_lanes(pv, r));
    }
    lanes
}

// ---------------------------------------------------------------------------
// Blunder figures from stored analyses
// ---------------------------------------------------------------------------

/// The instant an RFC 3339 text names, as chrono reads it and brings it to UTC.
pub uninterp spec fn rfc3339_instant(s: Seq<char>) -> Option<UtcTime>;

/// The instant a date-time text without offset names in format `fmt`, taken as UTC.
pub uninterp spec fn naive_instant(s: Seq<char>, fmt: Seq<char>) -> Option<UtcTime>;

/// `DateTime::parse_from_rfc3339(s)` brought to UTC, as seconds and nanoseconds.
#[verifier::external_body]
fn parse_rfc3339_utc(s: &str) -> (r: Option<UtcTime>)
    ensures
        r == rfc3339_instant(s@),
{
    chrono::DateTime::parse_from_rfc3339(s).ok().map(|dt| {
        let u = dt.with_timezone(&chrono::Utc);
        UtcTime { secs: u.timestamp(), nanos: u.timestamp_subsec_nanos() }
    })
}

/// `NaiveDateTime::parse_from_str(s, fmt)` taken as UTC, as seconds and nanoseconds.
#[verifier::external_body]
fn parse_naive_utc(s: &str, fmt: &str) -> (r: Option<UtcTime>)
    ensures
        r == naive_instant(s@, fmt@),
{
    chrono::NaiveDateTime::parse_from_str(s, fmt).ok().map(|n| {
        let u = n.and_utc();
        UtcTime { secs: u.timestamp(), nanos: u.timestamp_subsec_nanos() }
    })
}

/// When a game was played, from its stored text: RFC 3339, else a date-time without
/// offset (with or without fractional seconds) taken as UTC.
pub open spec fn played_at_text(s: Seq<char>) -> Option<UtcTime> {
    match rfc3339_instant(s) {
        Some(t) => Some(t),
        None => match naive_instant(s, "%Y-%m-%dT%H:%M:%S%.f"@) {
            Some(t) => Some(t),
            None => naive_instant(s, "%Y-%m-%dT%H:%M:%S"@),
        },
    }
}

pub fn parse_played_at(s: &str) -> (r: Option<UtcTime>)
    ensures
        r == played_at_text(s@),
{
    match parse_rfc3339_utc(s) {
        Some(t) => Some(t),
        None => match parse_naive_utc(s, "%Y-%m-%dT%H:%M:%S%.f") {
            Some(t) => Some(t),
            None => parse_naive_utc(s, "%Y-%m-%dT%H:%M:%S"),
        },
    }
}

/// What the progress figures read of a stored game that has an analysis: the user's
/// colour, when it was played (as stored), its time control, and its moves.
#[derive(Debug, Clone)]
pub struct AnalyzedGameFacts {
    pub user_color: Option<String>,
    pub played_at: Option<String>,
    pub time_control: Option<String>,
    pub moves: Vec<MoveFacts>,
}

/// The user's colour in a stored game (White when not said).
pub open spec fn facts_user_color(g: AnalyzedGameFacts) -> Seq<char> {
    match g.user_color {
        Some(c) => c@,
        None => "white"@,
    }
}

/// A move of the user graded a blunder.
pub open spec fn is_user_blunder(m: MoveFacts, user_color: Seq<char>) -> bool {
    color_mine(m.color@, Some(user_color)) && m.classification@ == "blunder"@
}

/// The user's blunders among the moves, in order.
pub open spec fn user_blunders(ms: Seq<MoveFacts>, user_color: Seq<char>) -> Seq<MoveFacts>
    decreases ms.len(),
{
    if ms.len() == 0 {
        Seq::empty()
    } else if is_user_blunder(ms.last(), user_color) {
        user_blunders(ms.drop_last(), user_color).push(ms.last())
    } else {
        user_blunders(ms.drop_last(), user_color)
    }
}

/// The blunder counts of the games that have a date, each with its time-control key.
pub open spec fn blunder_points(games: Seq<AnalyzedGameFacts>) -> Seq<(Seq<char>, (UtcTime, usize))>
    decreases games.len(),
{
    if games.len() == 0 {
        Seq::empty()
    } else {
        let r = blunder_points(games.drop_last());
        let g = games.last();
        let at = match g.played_at {
            Some(t) => played_at_text(t@),
            None => None,
        };
        match at {
            Some(t) => r.push((
                time_control_key_text(opt_text(g.time_control)),
                (t, user_blunders(g.moves@, facts_user_color(g)).len() as usize),
            )),
            None => r,
        }
    }
}

/// The sum of the counts of `s[a..b]`.
pub open spec fn count_sum(s: Seq<(UtcTime, usize)>, a: int, b: int) -> nat
    decreases b - a,
{
    if b <= a {
        0
    } else {
        count_sum(s, a, b - 1) + (s[b - 1].1 as nat)
    }
}

/// Where the window of `w` games ending at game `i` starts.
pub open spec fn window_start(i: int, w: int) -> int {
    if i - (w - 1) > 0 {
        i - (w - 1)
    } else {
        0
    }
}

/// The moving window at game `i` of the games `s` (oldest first).
pub open spec fn ma_point_is(p: BlunderMaPoint, s: Seq<(UtcTime, usize)>, i: int, w: int) -> bool {
    &&& p.at == s[i].0
    &&& p.blunders == count_sum(s, window_start(i, w), i + 1)
    &&& p.games == i + 1 - window_start(i, w)
}

proof fn lemma_count_sum_bound(s: Seq<(UtcTime, usize)>, a: int, b: int, m: nat)
    requires
        0 <= a <= b <= s.len(),
        forall|k: int| 0 <= k < s.len() ==> #[trigger] s[k].1 <= m,
    ensures
        count_sum(s, a, b) <= (b - a) * m,
    decreases b - a,
{
    if b > a {
        lemma_count_sum_bound(s, a, b - 1, m);
        assert(((b - 1 - a) * m) + m == (b - a) * m) by (nonlinear_arith);
    }
}

/// The moving-window points of games sorted oldest first.
fn window_points(s: &Vec<(UtcTime, usize)>, window: usize) -> (r: Vec<BlunderMaPoint>)
    requires
        window >= 1,
        s@.len() < 0x1_0000_0000,
        forall|k: int| 0 <= k < s@.len() ==> #[trigger] s@[k].1 < 0x1_0000_0000,
    ensures
        r@.len() == s@.len(),
        forall|i: int| 0 <= i < r@.len() ==> ma_point_is(#[trigger] r@[i], s@, i, window as int),
{
    let n = s.len();
    let mut r: Vec<BlunderMaPoint> = Vec::new();
    let mut i: usize = 0;
    while i < n
        invariant
            n == s@.len(),
            n < 0x1_0000_0000,
            window >= 1,
            forall|k: int| 0 <= k < s@.len() ==> #[trigger] s@[k].1 < 0x1_0000_0000,
            0 <= i <= n,
            r@.len() == i,
            forall|q: int| 0 <= q < i ==> ma_point_is(#[trigger] r@[q], s@, q, window as int),
        decreases n - i,
    {
        let start: usize = if i >= window - 1 {
            i - (window - 1)
        } else {
            0
        };
        assert(start as int == window_start(i as int, window as int));
        let mut sum: u64 = 0;
        let mut j: usize = start;
        while j <= i
            invariant
                n == s@.len(),
                n < 0x1_0000_0000,
                forall|k: int| 0 <= k < s@.len() ==> #[trigger] s@[k].1 < 0x1_0000_0000,
                start <= j <= i + 1,
                i < n,
                sum == count_sum(s@, start as int, j as int),
            decreases i + 1 - j,
        {
            proof {
                lemma_count_sum_bound(s@, start as int, j as int, 0xffff_ffff);
                assert((j - start) * 0xffff_ffffint <= 0x1_0000_0000int * 0xffff_ffffint) by (nonlinear_arith)
                    requires
                        j - start <= 0x1_0000_0000int,
                        j >= start;
                assert(s@[j as int].1 < 0x1_0000_0000);
            }
            sum = sum + s[j].1 as u64;
            j = j + 1;
        }
        proof {
            lemma_count_sum_bound(s@, start as int, i + 1, 0xffff_ffff);
            assert((i + 1 - start) * 0xffff_ffffint <= 0x1_0000_0000int * 0xffff_ffffint) by (nonlinear_arith)
                requires
                    i + 1 - start <= 0x1_0000_0000int,
                    i + 1 >= start;
        }
        r.push(BlunderMaPoint { at: s[i].0, blunders: sum, games: i + 1 - start });
        i = i + 1;
    }
    r
}

// ---------------------------------------------------------------------------
// Blunder motif counts
// ---------------------------------------------------------------------------

/// The motifs in the order the checks of `blunder_category` find them.
pub open spec fn category_labels() -> Seq<Seq<char>> {
    seq![
        "Missed mate"@,
        "Allowed mate"@,
        "Hanging piece"@,
        "Missed capture"@,
        "Endgame"@,
        "Opening"@,
        "Middlegame"@,
    ]
}

/// Which motif `blunder_category` gives, as a position in `category_labels`.
pub open spec fn blunder_category_index(m: MoveFacts) -> int {
    if m.best_mate matches Some(v) && v > 0 {
        0
    } else if m.played_mate matches Some(v) && v < 0 {
        1
    } else if m.fen_after@.len() > 0 && hanging_after(m.fen_after@) {
        2
    } else if m.best_san@.contains('x') {
        3
    } else if endgame_fen(m.fen_before@) {
        4
    } else if m.ply <= 20 {
        5
    } else {
        6
    }
}

/// The motif names are distinct.
pub proof fn lemma_category_labels()
    ensures
        forall|i: int, j: int| 0 <= i < j < 7 ==> #[trigger] category_labels()[i] != #[trigger] category_labels()[j],
        forall|m: MoveFacts| #[trigger] blunder_category(m)@ == category_labels()[blunder_category_index(m)],
{
    reveal_strlit("Missed mate");
    reveal_strlit("Allowed mate");
    reveal_strlit("Hanging piece");
    reveal_strlit("Missed capture");
    reveal_strlit("Endgame");
    reveal_strlit("Opening");
    reveal_strlit("Middlegame");
    let l = category_labels();
    assert(l[0] != l[1] && l[0] != l[2] && l[0] != l[3] && l[0] != l[4] && l[0] != l[5] && l[0] != l[6]) by {
        assert(l[0][1] != l[1][1] || l[0].len() != l[1].len());
    }
    assert(l[1] != l[2] && l[1] != l[3] && l[1] != l[4] && l[1] != l[5] && l[1] != l[6]) by {
        assert(l[1][0] != l[2][0] && l[1][0] != l[3][0] && l[1][0] != l[4][0] && l[1][0] != l[5][0]
            && l[1][0] != l[6][0]);
    }
    assert(l[2] != l[3] && l[2] != l[4] && l[2] != l[5] && l[2] != l[6]) by {
        assert(l[2][0] != l[3][0] && l[2][0] != l[4][0] && l[2][0] != l[5][0] && l[2][0] != l[6][0]);
    }
    assert(l[3] != l[4] && l[3] != l[5] && l[3] != l[6]) by {
        assert(l[3][0] != l[4][0] && l[3][0] != l[5][0] && l[3][2] != l[6][2]);
    }
    assert(l[4] != l[5] && l[4] != l[6]) by {
        assert(l[4][0] != l[5][0] && l[4][0] != l[6][0]);
    }
    assert(l[5] != l[6]) by {
        assert(l[5][0] != l[6][0]);
    }
}

/// How many of the moves fall under motif `k`.
pub open spec fn index_count(ms: Seq<MoveFacts>, k: int) -> nat
    decreases ms.len(),
{
    if ms.len() == 0 {
        0
    } else {
        index_count(ms.drop_last(), k) + if blunder_category_index(ms.last()) == k { 1nat } else { 0nat }
    }
}

/// How many of the user's blunders over the games fall under motif `k`.
pub open spec fn games_index_count(games: Seq<AnalyzedGameFacts>, k: int) -> nat
    decreases games.len(),
{
    if games.len() == 0 {
        0
    } else {
        games_index_count(games.drop_last(), k) + index_count(
            user_blunders(games.last().moves@, facts_user_color(games.last())),
            k,
        )
    }
}

/// All the moves of the games.
pub open spec fn total_moves(games: Seq<AnalyzedGameFacts>) -> nat
    decreases games.len(),
{
    if games.len() == 0 {
        0
    } else {
        total_moves(games.drop_last()) + games.last().moves@.len()
    }
}

/// What `categorize_blunder` needs of the user's blunders.
pub open spec fn facts_readable(games: Seq<AnalyzedGameFacts>) -> bool {
    forall|g: int, j: int|
        0 <= g < games.len() && 0 <= j < games[g].moves@.len() ==> (#[trigger] games[g].moves@[j]).fen_before@.len()
            < 0x1000_0000_0000
}

pub fn category_index(m: &MoveFacts) -> (k: usize)
    requires
        m.fen_before@.len() < 0x1000_0000_0000,
    ensures
        k == blunder_category_index(*m),
{
    if score_is_mate_for(m.best_mate) {
        return 0;
    }
    if score_is_mate_against(m.played_mate) {
        return 1;
    }
    if !m.fen_after.as_str().is_empty() && leaves_hanging_piece(m.fen_after.as_str()) {
        return 2;
    }
    let best = chars_of(m.best_san.as_str());
    if contains_char(&best, 'x') {
        return 3;
    }
    if is_endgame(m.fen_before.as_str()) {
        return 4;
    }
    if m.ply <= 20 {
        5
    } else {
        6
    }
}

fn is_user_blunder_move(m: &MoveFacts, user_color: &str) -> (b: bool)
    ensures
        b == is_user_blunder(*m, user_color@),
{
    crate::text::str_eq(m.classification.as_str(), "blunder") && color_is_mine(m.color.as_str(), Some(user_color))
}

proof fn lemma_user_blunders_len(ms: Seq<MoveFacts>, uc: Seq<char>)
    ensures
        user_blunders(ms, uc).len() <= ms.len(),
    decreases ms.len(),
{
    if ms.len() > 0 {
        lemma_user_blunders_len(ms.drop_last(), uc);
    }
}

proof fn lemma_index_count_le(ms: Seq<MoveFacts>, k: int)
    ensures
        index_count(ms, k) <= ms.len(),
    decreases ms.len(),
{
    if ms.len() > 0 {
        lemma_index_count_le(ms.drop_last(), k);
    }
}

/// One stored game's share of the figures: the user's blunders and, per motif, how
/// many of them fall under it.
fn tally_game(g: &AnalyzedGameFacts, counts: &mut Vec<usize>, before_total: Ghost<nat>) -> (blunders: usize)
    requires
        old(counts)@.len() == 7,
        forall|k: int| 0 <= k < 7 ==> #[trigger] old(counts)@[k] <= before_total@,
        before_total@ + g.moves@.len() < usize::MAX,
        forall|j: int| 0 <= j < g.moves@.len() ==> (#[trigger] g.moves@[j]).fen_before@.len() < 0x1000_0000_0000,
    ensures
        blunders == user_blunders(g.moves@, facts_user_color(*g)).len(),
        final(counts)@.len() == 7,
        forall|k: int| 0 <= k < 7 ==> #[trigger] final(counts)@[k] == old(counts)@[k] + index_count(
            user_blunders(g.moves@, facts_user_color(*g)),
            k,
        ),
        forall|k: int| 0 <= k < 7 ==> #[trigger] final(counts)@[k] <= before_total@ + g.moves@.len(),
{
    let uc: &str = match &g.user_color {
        Some(c) => c.as_str(),
        None => "white",
    };
    let ghost ucv = facts_user_color(*g);
    assert(uc@ == ucv);
    let ghost c0 = counts@;
    let ghost ms = g.moves@;
    let mut blunders: usize = 0;
    let mut j: usize = 0;
    while j < g.moves.len()
        invariant
            ms == g.moves@,
            uc@ == ucv,
            counts@.len() == 7,
            forall|k: int| 0 <= k < 7 ==> #[trigger] c0[k] <= before_total@,
            before_total@ + ms.len() < usize::MAX,
            forall|q: int| 0 <= q < ms.len() ==> (#[trigger] ms[q]).fen_before@.len() < 0x1000_0000_0000,
            0 <= j <= ms.len(),
            blunders == user_blunders(ms.take(j as int), ucv).len(),
            blunders <= j,
            forall|k: int| 0 <= k < 7 ==> #[trigger] counts@[k] == c0[k] + index_count(user_blunders(ms.take(j as int), ucv), k),
            forall|k: int| 0 <= k < 7 ==> #[trigger] counts@[k] <= before_total@ + j,
        decreases ms.len() - j,
    {
        assert(ms.take(j + 1).drop_last() =~= ms.take(j as int));
        assert(ms.take(j + 1).last() == ms[j as int]);
        let m = &g.moves[j];
        proof {
            lemma_user_blunders_len(ms.take(j as int), ucv);
        }
        if is_user_blunder_move(m, uc) {
            let k = category_index(m);
            let ghost cb = counts@;
            let ghost ub = user_blunders(ms.take(j as int), ucv);
            assert(user_blunders(ms.take(j + 1), ucv) == ub.push(ms[j as int]));
            assert(ub.push(ms[j as int]).drop_last() =~= ub);
            proof {
                lemma_index_count_le(ub, k as int);
            }
            let v = counts[k];
            counts.set(k, v + 1);
            blunders = blunders + 1;
        }
        j = j + 1;
    }
    assert(ms.take(ms.len() as int) =~= ms);
    blunders
}

/// `ma` is the moving window over a group of games once sorted oldest first.
pub open spec fn ma_series_of(group: Seq<(UtcTime, usize)>, w: int, ma: Seq<BlunderMaPoint>) -> bool {
    exists|sorted: Seq<(UtcTime, usize)>|
        oldest_first(group, sorted) && ma.len() == sorted.len() && forall|q: int|
            0 <= q < ma.len() ==> ma_point_is(#[trigger] ma[q], sorted, q, w)
}

/// `r` holds one lane per time control of the dated games, in the order lanes are
/// shown, each with the moving window of the user's blunders (window `w`) and no
/// rating series.
pub open spec fn blunder_lanes(ps: Seq<(Seq<char>, (UtcTime, usize))>, w: int, r: Seq<TimeControlProgress>) -> bool {
    &&& distinct_keys(r)
    &&& forall|i: int, j: int| 0 <= i < j < r.len() ==> lane_before(#[trigger] r[i], #[trigger] r[j])
    &&& forall|j: int| 0 <= j < ps.len() ==> #[trigger] has_lane(r, ps[j].0)
    &&& forall|i: int| 0 <= i < r.len() ==> {
        &&& with_key(ps, (#[trigger] r[i]).key@).len() > 0
        &&& ma_series_of(with_key(ps, r[i].key@), w, r[i].blunder_ma@)
        &&& r[i].label@ == series_label(r[i].key@)
        &&& r[i].elo@.len() == 0
    }
}

proof fn lemma_with_key_len<T>(ps: Seq<(Seq<char>, T)>, key: Seq<char>)
    ensures
        with_key(ps, key).len() <= ps.len(),
        forall|q: int| 0 <= q < with_key(ps, key).len() ==> exists|j: int| 0 <= j < ps.len() && ps[j].1 == #[trigger] with_key(ps, key)[q],
    decreases ps.len(),
{
    if ps.len() > 0 {
        let t = ps.drop_last();
        lemma_with_key_len(t, key);
        assert forall|q: int| 0 <= q < with_key(ps, key).len() implies exists|j: int| 0 <= j < ps.len() && ps[j].1 == #[trigger] with_key(ps, key)[q] by {
            if q < with_key(t, key).len() {
                let j = choose|j: int| 0 <= j < t.len() && t[j].1 == #[trigger] with_key(t, key)[q];
                assert(ps[j] == t[j]);
            } else {
                assert(ps[ps.len() - 1].1 == with_key(ps, key)[q]);
            }
        }
    }
}

proof fn lemma_blunder_points_bounds(games: Seq<AnalyzedGameFacts>)
    requires
        forall|g: int| 0 <= g < games.len() ==> (#[trigger] games[g]).moves@.len() < 0x1_0000_0000,
    ensures
        blunder_points(games).len() <= games.len(),
        forall|j: int| 0 <= j < blunder_points(games).len() ==> (#[trigger] blunder_points(games)[j]).1.1 < 0x1_0000_0000,
    decreases games.len(),
{
    if games.len() > 0 {
        let t = games.drop_last();
        assert forall|g: int| 0 <= g < t.len() implies (#[trigger] t[g]).moves@.len() < 0x1_0000_0000 by {
            assert(t[g] == games[g]);
        }
        lemma_blunder_points_bounds(t);
        let g = games.last();
        lemma_user_blunders_len(g.moves@, facts_user_color(g));
        assert(games[games.len() - 1] == g);
    }
}

fn blunder_lanes_of(groups: Vec<(String, Vec<(UtcTime, usize)>)>, window: usize) -> (lanes: Vec<TimeControlProgress>)
    requires
        window >= 1,
        forall|q: int| 0 <= q < groups@.len() ==> (#[trigger] groups@[q]).1@.len() < 0x1_0000_0000,
        forall|q: int, j: int| 0 <= q < groups@.len() && 0 <= j < groups@[q].1@.len() ==> (#[trigger] groups@[q].1@[j]).1 < 0x1_0000_0000,
    ensures
        lanes@.len() == groups@.len(),
        forall|q: int| 0 <= q < lanes@.len() ==> {
            &&& (#[trigger] lanes@[q]).key@ == groups@[q].0@
            &&& ma_series_of(groups@[q].1@, window as int, lanes@[q].blunder_ma@)
            &&& lanes@[q].label@ == series_label(lanes@[q].key@)
            &&& lanes@[q].elo@.len() == 0
        },
{
    let ghost g = groups@;
    let n = groups.len();
    let mut src = groups;
    let mut lanes: Vec<TimeControlProgress> = Vec::new();
    while src.len() > 0
        invariant
            n == g.len(),
            window >= 1,
            forall|q: int| 0 <= q < g.len() ==> (#[trigger] g[q]).1@.len() < 0x1_0000_0000,
            forall|q: int, j: int| 0 <= q < g.len() && 0 <= j < g[q].1@.len() ==> (#[trigger] g[q].1@[j]).1 < 0x1_0000_0000,
            lanes@.len() + src@.len() == n,
            src@ == g.subrange(lanes@.len() as int, n as int),
            forall|q: int| 0 <= q < lanes@.len() ==> {
                &&& (#[trigger] lanes@[q]).key@ == g[q].0@
                &&& ma_series_of(g[q].1@, window as int, lanes@[q].blunder_ma@)
                &&& lanes@[q].label@ == series_label(lanes@[q].key@)
                &&& lanes@[q].elo@.len() == 0
            },
        decreases src@.len(),
    {
        let ghost k = lanes@.len() as int;
        let ghost s0 = src@;
        let (key, vals) = src.remove(0);
        assert(s0[0] == g[k]);
        let ghost vv = vals@;
        let sorted = sort_by_time(vals);
        proof {
            let perm = choose|perm: Seq<int>| oldest_first_by(vv, sorted@, perm);
            assert(oldest_first_by(vv, sorted@, perm));
            assert forall|j: int| 0 <= j < sorted@.len() implies #[trigger] sorted@[j].1 < 0x1_0000_0000 by {
                assert(sorted@[j] == vv[perm[j]]);
                assert(g[k].1@[perm[j]].1 < 0x1_0000_0000);
            }
        }
        let ma = window_points(&sorted, window);
        let label = lane_label(key.as_str());
        let ghost before = lanes@;
        lanes.push(TimeControlProgress { key, label, elo: Vec::new(), blunder_ma: ma });
        proof {
            assert(ma_series_of(vv, window as int, ma@));
            assert forall|q: int| 0 <= q < lanes@.len() implies {
                &&& (#[trigger] lanes@[q]).key@ == g[q].0@
                &&& ma_series_of(g[q].1@, window as int, lanes@[q].blunder_ma@)
                &&& lanes@[q].label@ == series_label(lanes@[q].key@)
                &&& lanes@[q].elo@.len() == 0
            } by {
                if q < k {
                    assert(lanes@[q] == before[q]);
                }
            }
            assert(src@ =~= g.subrange(lanes@.len() as int, n as int));
        }
    }
    lanes
}

/// Motif counts are shown the largest first, then by name.
pub open spec fn cat_before(a: BlunderCategoryCount, b: BlunderCategoryCount) -> bool {
    a.count > b.count || (a.count == b.count && text_lt(a.label@, b.label@))
}

/// An entry of the motif counts: a motif with its count over the user's blunders.
pub open spec fn is_category_entry(games: Seq<AnalyzedGameFacts>, e: BlunderCategoryCount) -> bool {
    exists|k: int|
        0 <= k < 7 && e.label@ == category_labels()[k] && e.count == games_index_count(games, k) && e.count > 0
}

pub open spec fn has_category(full: Seq<BlunderCategoryCount>, label: Seq<char>) -> bool {
    exists|i: int| 0 <= i < full.len() && full[i].label@ == label
}

/// `full` lists every motif that some blunder of the user falls under, with its count,
/// the largest count first (then by name).
pub open spec fn categories_full(games: Seq<AnalyzedGameFacts>, full: Seq<BlunderCategoryCount>) -> bool {
    &&& forall|i: int, j: int| 0 <= i < j < full.len() ==> cat_before(#[trigger] full[i], #[trigger] full[j])
    &&& forall|i: int| 0 <= i < full.len() ==> is_category_entry(games, #[trigger] full[i])
    &&& forall|k: int| 0 <= k < 7 && games_index_count(games, k) > 0 ==> #[trigger] has_category(full, category_labels()[k])
}

fn cat_is_before(a: &BlunderCategoryCount, b: &BlunderCategoryCount) -> (r: bool)
    ensures
        r == cat_before(*a, *b),
{
    if a.count != b.count {
        return a.count > b.count;
    }
    let la = chars_of(a.label.as_str());
    let lb = chars_of(b.label.as_str());
    text_less(&la, &lb)
}

fn category_name(k: usize) -> (l: String)
    requires
        k < 7,
    ensures
        l@ == category_labels()[k as int],
{
    if k == 0 {
        "Missed mate".to_owned()
    } else if k == 1 {
        "Allowed mate".to_owned()
    } else if k == 2 {
        "Hanging piece".to_owned()
    } else if k == 3 {
        "Missed capture".to_owned()
    } else if k == 4 {
        "Endgame".to_owned()
    } else if k == 5 {
        "Opening".to_owned()
    } else {
        "Middlegame".to_owned()
    }
}

/// The motif counts, the largest first, keeping the first `limit`.
fn categories_from(counts: &Vec<usize>, limit: usize, games: Ghost<Seq<AnalyzedGameFacts>>) -> (r: Vec<BlunderCategoryCount>)
    requires
        counts@.len() == 7,
        forall|k: int| 0 <= k < 7 ==> #[trigger] counts@[k] == games_index_count(games@, k),
    ensures
        exists|full: Seq<BlunderCategoryCount>| {
            &&& categories_full(games@, full)
            &&& r@.len() == if full.len() < limit { full.len() as int } else { limit as int }
            &&& forall|i: int| 0 <= i < r@.len() ==> r@[i] == full[i]
        },
{
    proof {
        lemma_category_labels();
    }
    let mut out: Vec<BlunderCategoryCount> = Vec::new();
    let mut k: usize = 0;
    while k < 7
        invariant
            counts@.len() == 7,
            forall|q: int| 0 <= q < 7 ==> #[trigger] counts@[q] == games_index_count(games@, q),
            forall|i: int, j: int| 0 <= i < j < 7 ==> #[trigger] category_labels()[i] != #[trigger] category_labels()[j],
            0 <= k <= 7,
            forall|i: int, j: int| 0 <= i < j < out@.len() ==> cat_before(#[trigger] out@[i], #[trigger] out@[j]),
            forall|i: int| 0 <= i < out@.len() ==> exists|q: int|
                0 <= q < k && (#[trigger] out@[i]).label@ == category_labels()[q] && out@[i].count == games_index_count(games@, q)
                    && out@[i].count > 0,
            forall|q: int| 0 <= q < k && games_index_count(games@, q) > 0 ==> #[trigger] has_category(out@, category_labels()[q]),
        decreases 7 - k,
    {
        if counts[k] > 0 {
            let e = BlunderCategoryCount { label: category_name(k), count: counts[k] };
            let ghost o0 = out@;
            let mut pos: usize = out.len();
            while pos > 0 && cat_is_before(&e, &out[pos - 1])
                invariant
                    out@ == o0,
                    0 <= pos <= o0.len(),
                    forall|l: int| pos <= l < o0.len() ==> cat_before(e, #[trigger] o0[l]),
                decreases pos,
            {
                pos = pos - 1;
            }
            out.insert(pos, e);
            proof {
                let r = out@;
                assert forall|i: int| 0 <= i < r.len() implies exists|q: int|
                    0 <= q < k + 1 && (#[trigger] r[i]).label@ == category_labels()[q] && r[i].count == games_index_count(games@, q)
                        && r[i].count > 0 by {
                    if i < pos {
                        assert(r[i] == o0[i]);
                    } else if i > pos {
                        assert(r[i] == o0[i - 1]);
                    } else {
                        assert(r[i] == e);
                    }
                }
                assert forall|i: int, j: int| 0 <= i < j < r.len() implies cat_before(#[trigger] r[i], #[trigger] r[j]) by {
                    if i != pos && j != pos {
                        let i0 = if i < pos { i } else { i - 1 };
                        let j0 = if j < pos { j } else { j - 1 };
                        assert(r[i] == o0[i0] && r[j] == o0[j0]);
                    } else if i == pos {
                        assert(r[j] == o0[j - 1]);
                    } else {
                        assert(r[i] == o0[i]);
                        assert(!cat_before(e, o0[pos - 1]));
                        let qa = choose|q: int|
                            0 <= q < k && (#[trigger] o0[i]).label@ == category_labels()[q] && o0[i].count == games_index_count(games@, q)
                                && o0[i].count > 0;
                        let qb = choose|q: int|
                            0 <= q < k && (#[trigger] o0[pos - 1]).label@ == category_labels()[q] && o0[pos - 1].count == games_index_count(games@, q)
                                && o0[pos - 1].count > 0;
                        assert(category_labels()[qb] != category_labels()[k as int]);
                        lemma_text_lt_total(o0[pos - 1].label@, e.label@);
                        if i < pos - 1 {
                            assert(cat_before(o0[i], o0[pos - 1]));
                            if text_lt(o0[i].label@, o0[pos - 1].label@) && text_lt(o0[pos - 1].label@, e.label@) {
                                lemma_text_lt_trans(o0[i].label@, o0[pos - 1].label@, e.label@);
                            }
                        }
                    }
                }
                assert forall|q: int| 0 <= q < k + 1 && games_index_count(games@, q) > 0 implies #[trigger] has_category(
                    r,
                    category_labels()[q],
                ) by {
                    if q < k {
                        assert(has_category(o0, category_labels()[q]));
                        let i = choose|i: int| 0 <= i < o0.len() && o0[i].label@ == category_labels()[q];
                        if i < pos {
                            assert(r[i] == o0[i]);
                        } else {
                            assert(r[i + 1] == o0[i]);
                        }
                    } else {
                        assert(r[pos as int] == e);
                    }
                }
            }
        }
        k = k + 1;
    }
    let ghost full = out@;
    proof {
        assert forall|i: int| 0 <= i < full.len() implies is_category_entry(games@, #[trigger] full[i]) by {
            let q = choose|q: int|
                0 <= q < 7 && (#[trigger] full[i]).label@ == category_labels()[q] && full[i].count == games_index_count(games@, q)
                    && full[i].count > 0;
        }
        assert(categories_full(games@, full));
    }
    if out.len() > limit {
        out.truncate(limit);
    }
    out
}

/// The blunder figures of the stored analyses: per time control the moving window
/// (`ma_window` games, at least one) of the user's blunders over the dated games, and
/// the motif counts of all the user's blunders, the first `category_limit` kept.
pub fn analysis_progress_stats(games: &Vec<AnalyzedGameFacts>, ma_window: usize, category_limit: usize) -> (r: AnalysisProgressStats)
    requires
        facts_readable(games@),
        total_moves(games@) < usize::MAX,
        games@.len() < 0x1_0000_0000,
        forall|g: int| 0 <= g < games@.len() ==> (#[trigger] games@[g]).moves@.len() < 0x1_0000_0000,
    ensures
        blunder_lanes(blunder_points(games@), if ma_window >= 1 { ma_window as int } else { 1 }, r.by_time_control@),
        exists|full: Seq<BlunderCategoryCount>| {
            &&& categories_full(games@, full)
            &&& r.categories@.len() == if full.len() < category_limit { full.len() as int } else { category_limit as int }
            &&& forall|i: int| 0 <= i < r.categories@.len() ==> r.categories@[i] == full[i]
        },
{
    let ghost gs = games@;
    let mut counts: Vec<usize> = Vec::new();
    let mut z: usize = 0;
    while z < 7
        invariant
            0 <= z <= 7,
            counts@.len() == z,
            forall|k: int| 0 <= k < z ==> counts@[k] == 0,
        decreases 7 - z,
    {
        counts.push(0);
        z = z + 1;
    }
    let mut points: Vec<(String, (UtcTime, usize))> = Vec::new();
    let mut i: usize = 0;
    let ghost mut done_moves: nat = 0;
    while i < games.len()
        invariant
            gs == games@,
            facts_readable(gs),
            total_moves(gs) < usize::MAX,
            0 <= i <= gs.len(),
            done_moves == total_moves(gs.take(i as int)),
            counts@.len() == 7,
            forall|k: int| 0 <= k < 7 ==> #[trigger] counts@[k] == games_index_count(gs.take(i as int), k),
            forall|k: int| 0 <= k < 7 ==> #[trigger] counts@[k] <= done_moves,
            keyed_view(points@) == blunder_points(gs.take(i as int)),
        decreases gs.len() - i,
    {
        let g = &games[i];
        let ghost pre = gs.take(i as int);
        assert(gs.take(i + 1).drop_last() =~= pre);
        assert(gs.take(i + 1).last() == gs[i as int]);
        proof {
            lemma_total_moves_prefix(gs, i as int);
            assert forall|j: int| 0 <= j < g.moves@.len() implies (#[trigger] g.moves@[j]).fen_before@.len() < 0x1000_0000_0000 by {
                assert(gs[i as int].moves@[j] == g.moves@[j]);
            }
        }
        let blunders = tally_game(g, &mut counts, Ghost(done_moves));
        let at = match &g.played_at {
            Some(t) => parse_played_at(t.as_str()),
            None => None,
        };
        match at {
            Some(t) => {
                let tc: Option<&str> = match &g.time_control {
                    Some(x) => Some(x.as_str()),
                    None => None,
                };
                let key = time_control_key(tc);
                let ghost before = keyed_view(points@);
                let ghost kv = key@;
                points.push((key, (t, blunders)));
                assert(keyed_view(points@) =~= before.push((kv, (t, blunders))));
            },
            None => {},
        }
        proof {
            done_moves = done_moves + g.moves@.len();
        }
        i = i + 1;
    }
    assert(gs.take(gs.len() as int) =~= gs);
    let ghost pv = keyed_view(points@);
    proof {
        lemma_blunder_points_bounds(gs);
    }
    let groups = group_by_key(points);
    let ghost grs = groups@;
    proof {
        assert forall|q: int| 0 <= q < grs.len() implies (#[trigger] grs[q]).1@.len() < 0x1_0000_0000 by {
            lemma_with_key_len(pv, grs[q].0@);
        }
        assert forall|q: int, j: int| 0 <= q < grs.len() && 0 <= j < grs[q].1@.len() implies (#[trigger] grs[q].1@[j]).1 < 0x1_0000_0000 by {
            lemma_with_key_len(pv, grs[q].0@);
            let jj = choose|jj: int| 0 <= jj < pv.len() && pv[jj].1 == #[trigger] with_key(pv, grs[q].0@)[j];
            assert(pv[jj] == blunder_points(gs)[jj]);
        }
    }
    let window: usize = if ma_window >= 1 {
        ma_window
    } else {
        1
    };
    let mut lanes = blunder_lanes_of(groups, window);
    let ghost pre = lanes@;
    proof {
        assert forall|a: int, b: int| 0 <= a < b < pre.len() implies #[trigger] pre[a].key@ != #[trigger] pre[b].key@ by {
            assert(grs[a].0@ != grs[b].0@);
        }
    }
    sort_time_control_series(&mut lanes);
    proof {
        let r = lanes@;
        let perm = choose|perm: Seq<int>| lanes_ordered_by(pre, r, perm);
        assert(lanes_ordered_by(pre, r, perm));
        lemma_perm_onto(perm, pre.len() as int);
        assert forall|a: int, b: int| 0 <= a < b < r.len() implies #[trigger] r[a].key@ != #[trigger] r[b].key@ by {
            assert(r[a] == pre[perm[a]] && r[b] == pre[perm[b]]);
            if perm[a] < perm[b] {
                assert(grs[perm[a]].0@ != grs[perm[b]].0@);
            } else {
                assert(grs[perm[b]].0@ != grs[perm[a]].0@);
            }
        }
        assert forall|j: int| 0 <= j < pv.len() implies #[trigger] has_lane(r, pv[j].0) by {
            let q = choose|q: int| 0 <= q < grs.len() && #[trigger] grs[q].0@ == pv[j].0;
            assert(names_position(perm, q));
            let k = choose|k: int| 0 <= k < perm.len() && perm[k] == q;
            assert(r[k] == pre[q]);
        }
        assert forall|a: int| 0 <= a < r.len() implies {
            &&& with_key(pv, (#[trigger] r[a]).key@).len() > 0
            &&& ma_series_of(with_key(pv, r[a].key@), window as int, r[a].blunder_ma@)
            &&& r[a].label@ == series_label(r[a].key@)
            &&& r[a].elo@.len() == 0
        } by {
            let q = perm[a];
            assert(r[a] == pre[q]);
            assert(grs[q].1@ == with_key(pv, grs[q].0@));
        }
    }
    let categories = categories_from(&counts, category_limit, Ghost(gs));
    AnalysisProgressStats { by_time_control: lanes, categories }
}

proof fn lemma_total_moves_prefix(gs: Seq<AnalyzedGameFacts>, i: int)
    requires
        0 <= i < gs.len(),
    ensures
        total_moves(gs.take(i)) + gs[i].moves@.len() <= total_moves(gs),
    decreases gs.len() - i,
{
    if i + 1 < gs.len() {
        lemma_total_moves_prefix(gs, i + 1);
        assert(gs.take(i + 2).drop_last() =~= gs.take(i + 1));
        assert(gs.take(i + 1).drop_last() =~= gs.take(i));
    } else {
        assert(gs.take(i + 1) =~= gs);
        assert(gs.take(i + 1).drop_last() =~= gs.take(i));
    }
}

// ---------------------------------------------------------------------------
// Merging the rating and blunder lanes
// ---------------------------------------------------------------------------

/// Where the lane with the key is, if any.
pub open spec fn lane_position(m: Seq<TimeControlProgress>, key: Seq<char>) -> Option<int> {
    if exists|p: int| 0 <= p < m.len() && m[p].key@ == key {
        Some(choose|p: int| 0 <= p < m.len() && m[p].key@ == key)
    } else {
        None
    }
}

/// A rating lane joins: it takes the place of the lane with its key, if any.
pub open spec fn merge_elo(m: Seq<TimeControlProgress>, s: TimeControlProgress) -> Seq<TimeControlProgress> {
    match lane_position(m, s.key@) {
        Some(p) => m.update(p, s),
        None => m.push(s),
    }
}

/// A blunder lane joins: its blunder series goes to the lane with its key, or it is
/// added whole.
pub open spec fn merge_blunders(m: Seq<TimeControlProgress>, s: TimeControlProgress) -> Seq<TimeControlProgress> {
    match lane_position(m, s.key@) {
        Some(p) => m.update(p, TimeControlProgress { blunder_ma: s.blunder_ma, ..m[p] }),
        None => m.push(s),
    }
}

pub open spec fn fold_elo(m: Seq<TimeControlProgress>, ss: Seq<TimeControlProgress>) -> Seq<TimeControlProgress>
    decreases ss.len(),
{
    if ss.len() == 0 {
        m
    } else {
        fold_elo(merge_elo(m, ss[0]), ss.drop_first())
    }
}

pub open spec fn fold_blunders(m: Seq<TimeControlProgress>, ss: Seq<TimeControlProgress>) -> Seq<TimeControlProgress>
    decreases ss.len(),
{
    if ss.len() == 0 {
        m
    } else {
        fold_blunders(merge_blunders(m, ss[0]), ss.drop_first())
    }
}

/// The lanes by key after the rating lanes and then the blunder lanes have joined.
pub open spec fn merged_lanes(elo: Seq<TimeControlProgress>, blunders: Seq<TimeControlProgress>) -> Seq<TimeControlProgress> {
    fold_blunders(fold_elo(Seq::empty(), elo), blunders)
}

fn lane_index(m: &Vec<TimeControlProgress>, key: &str) -> (r: Option<usize>)
    requires
        distinct_keys(m@),
    ensures
        r matches Some(i) ==> i < m@.len() && m@[i as int].key@ == key@ && lane_position(m@, key@) == Some(i as int),
        r is None ==> lane_position(m@, key@) is None,
{
    let mut i: usize = 0;
    while i < m.len()
        invariant
            distinct_keys(m@),
            0 <= i <= m@.len(),
            forall|j: int| 0 <= j < i ==> #[trigger] m@[j].key@ != key@,
        decreases m@.len() - i,
    {
        if crate::text::str_eq(m[i].key.as_str(), key) {
            proof {
                let p = choose|p: int| 0 <= p < m@.len() && m@[p].key@ == key@;
                assert(m@[i as int].key@ == key@);
                if p != i {
                    if p < i {
                        assert(m@[p].key@ != m@[i as int].key@);
                    } else {
                        assert(m@[i as int].key@ != m@[p].key@);
                    }
                }
                assert(lane_position(m@, key@) == Some(i as int));
            }
            return Some(i);
        }
        i = i + 1;
    }
    None
}

/// The rating lanes and the blunder lanes as one set of lanes, by time control: a
/// blunder series joins the lane of its key (a lane is added for a key with no
/// rating lane); the lanes are then put in the order they are shown.
pub fn merge_progress_series(elo: Vec<TimeControlProgress>, blunders: Vec<TimeControlProgress>) -> (r: Vec<TimeControlProgress>)
    ensures
        lanes_ordered(merged_lanes(elo@, blunders@), r@),
{
    let ghost e = elo@;
    let ghost b = blunders@;
    let mut m: Vec<TimeControlProgress> = Vec::new();
    let mut src = elo;
    let ghost mut done: int = 0;
    assert(e.skip(0) =~= e);
    while src.len() > 0
        invariant
            distinct_keys(m@),
            0 <= done <= e.len(),
            src@ == e.skip(done),
            fold_elo(Seq::empty(), e) == fold_elo(m@, src@),
        decreases src@.len(),
    {
        let ghost s0 = src@;
        let x = src.remove(0);
        assert(src@ =~= s0.drop_first());
        let ghost m0 = m@;
        match lane_index(&m, x.key.as_str()) {
            Some(p) => {
                m.set(p, x);
                proof {
                    assert forall|a: int, c: int| 0 <= a < c < m@.len() implies #[trigger] m@[a].key@ != #[trigger] m@[c].key@ by {
                        if a != p && c != p {
                            assert(m@[a] == m0[a] && m@[c] == m0[c]);
                        } else if a == p {
                            assert(m@[c] == m0[c]);
                            assert(m0[p as int].key@ == s0[0].key@);
                        } else {
                            assert(m@[a] == m0[a]);
                            assert(m0[p as int].key@ == s0[0].key@);
                        }
                    }
                }
            },
            None => {
                m.push(x);
                proof {
                    assert forall|a: int, c: int| 0 <= a < c < m@.len() implies #[trigger] m@[a].key@ != #[trigger] m@[c].key@ by {
                        if c == m0.len() {
                            assert(m@[a] == m0[a]);
                        } else {
                            assert(m@[a] == m0[a] && m@[c] == m0[c]);
                        }
                    }
                }
            },
        }
        proof {
            assert(m@ == merge_elo(m0, s0[0]));
            done = done + 1;
            assert(src@ =~= e.skip(done));
        }
    }
    assert(fold_elo(m@, Seq::<TimeControlProgress>::empty()) == m@);
    let mut src = blunders;
    let ghost mut done2: int = 0;
    assert(b.skip(0) =~= b);
    while src.len() > 0
        invariant
            distinct_keys(m@),
            0 <= done2 <= b.len(),
            src@ == b.skip(done2),
            merged_lanes(e, b) == fold_blunders(m@, src@),
        decreases src@.len(),
    {
        let ghost s0 = src@;
        let x = src.remove(0);
        assert(src@ =~= s0.drop_first());
        let ghost m0 = m@;
        assert(x == s0[0]);
        match lane_index(&m, x.key.as_str()) {
            Some(p) => {
                m[p].blunder_ma = x.blunder_ma;
                proof {
                    assert forall|a: int, c: int| 0 <= a < c < m@.len() implies #[trigger] m@[a].key@ != #[trigger] m@[c].key@ by {
                        assert(m@[a].key == m0[a].key && m@[c].key == m0[c].key);
                    }
                    assert(m@ =~= m0.update(p as int, TimeControlProgress { blunder_ma: s0[0].blunder_ma, ..m0[p as int] }));
                    assert(lane_position(m0, s0[0].key@) == Some(p as int));
                    assert(m@ == merge_blunders(m0, s0[0]));
                }
            },
            None => {
                m.push(x);
                proof {
                    assert forall|a: int, c: int| 0 <= a < c < m@.len() implies #[trigger] m@[a].key@ != #[trigger] m@[c].key@ by {
                        if c == m0.len() {
                            assert(m@[a] == m0[a]);
                        } else {
                            assert(m@[a] == m0[a] && m@[c] == m0[c]);
                        }
                    }
                }
            },
        }
        proof {
            assert(m@ == merge_blunders(m0, s0[0]));
            done2 = done2 + 1;
            assert(src@ =~= b.skip(done2));
        }
    }
    assert(fold_blunders(m@, Seq::<TimeControlProgress>::empty()) == m@);
    sort_time_control_series(&mut m);
    m
}

} // verus!
