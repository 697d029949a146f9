//! Playing a game back on the board: the positions, what the analysis says at each ply,
//! the pivotal moments to jump between, and the lines that can be stepped through
//! beside the game.
use vstd::prelude::*;
use vstd::arithmetic::div_mod::{lemma_add_mod_noop, lemma_small_mod, lemma_sub_mod_noop};

use crate::chess_util::{
    apply_san_line_with_ucis, fens_along, line_moves, movetext_defined, pgn_moves, pgn_sans,
};
use crate::models::{
    color_is_mine, color_mine, opt_str, opt_text, pivotal_idx, AnalyzedMove, BestMove, Game, UtcTime,
};
use crate::library::{first_with_key, Library};
use crate::rules::{board_fen, fen_readable, start_fen_spec, Position};
use crate::text::{
    char_to_upper, chars_of, contains_text, int_chars, int_text, join_with, nat_chars, nat_text, push_chars,
    push_joined, push_str, str_eq, string_from_chars, text_bytes, text_contains, text_lines, upper_of,
    lines_of,
};

verus! {

/// What the board shows about one ply of an analysed game.
#[derive(Debug, Clone)]
pub struct PlyInsight {
    pub ply: usize,
    pub san: String,
    pub mine: bool,
    pub classification: String,
    pub loss_cp: Option<i32>,
    pub eval_played: Option<String>,
    pub eval_best_before: Option<String>,
    pub best_san: Option<String>,
    pub best_eval: Option<String>,
    pub best_uci: Option<String>,
    /// The engine's line, at most eight moves, as shown.
    pub best_pv: Option<String>,
    /// The accurate replies to the played move, at most eight, as shown.
    pub played_continuation: Option<String>,
    pub fen_before: String,
    pub fen_after: String,
    pub best_pv_sans: Option<Vec<String>>,
    pub punished_pv_sans: Option<Vec<String>>,
    pub summary: Option<String>,
    pub why_played: Option<String>,
    pub why_best: Option<String>,
}

/// A list of moves that has at least one.
pub open spec fn some_words(o: Option<Vec<String>>) -> Option<Seq<Seq<char>>> {
    match o {
        Some(v) => if v@.len() > 0 {
            Some(v.deep_view())
        } else {
            None
        },
        None => None,
    }
}

pub open spec fn opt_words(o: Option<Vec<String>>) -> Option<Seq<Seq<char>>> {
    match o {
        Some(v) => Some(v.deep_view()),
        None => None,
    }
}

/// At most the first eight moves, space separated.
pub open spec fn first_eight(ws: Seq<Seq<char>>) -> Seq<char> {
    join_with(ws.take(if ws.len() < 8 { ws.len() as int } else { 8 }), " "@)
}

pub open spec fn shown_line(o: Option<Seq<Seq<char>>>) -> Option<Seq<char>> {
    match o {
        Some(w) => Some(first_eight(w)),
        None => None,
    }
}

pub open spec fn best_of(m: AnalyzedMove) -> Option<BestMove> {
    if m.best_moves@.len() > 0 {
        Some(m.best_moves@[0])
    } else {
        None
    }
}

pub open spec fn best_line(m: AnalyzedMove) -> Option<Seq<Seq<char>>> {
    match best_of(m) {
        Some(b) => some_words(b.pv_san),
        None => None,
    }
}

pub open spec fn punished_line(m: AnalyzedMove) -> Option<Seq<Seq<char>>> {
    match m.ideal_after_played {
        Some(p) => some_words(p.pv_san),
        None => None,
    }
}

pub open spec fn best_san_of(m: AnalyzedMove) -> Option<Seq<char>> {
    match best_of(m) {
        Some(b) => opt_text(b.san),
        None => None,
    }
}

pub open spec fn best_eval_of(m: AnalyzedMove) -> Option<Seq<char>> {
    match best_of(m) {
        Some(b) => opt_text(b.eval_text),
        None => None,
    }
}

pub open spec fn best_uci_of(m: AnalyzedMove) -> Option<Seq<char>> {
    match best_of(m) {
        Some(b) => opt_text(b.uci),
        None => None,
    }
}

pub open spec fn summary_of(m: AnalyzedMove) -> Option<Seq<char>> {
    match m.teaching {
        Some(t) => opt_text(t.summary),
        None => None,
    }
}

pub open spec fn why_played_of(m: AnalyzedMove) -> Option<Seq<char>> {
    match m.teaching {
        Some(t) => opt_text(t.why_played),
        None => None,
    }
}

pub open spec fn why_best_of(m: AnalyzedMove) -> Option<Seq<char>> {
    match m.teaching {
        Some(t) => opt_text(t.why_best),
        None => None,
    }
}

/// `i` is what the board shows for the analysed move `m` of a game whose user plays
/// `uc`.
pub open spec fn insight_is(i: PlyInsight, m: AnalyzedMove, uc: Option<Seq<char>>) -> bool {
    &&& i.ply == m.ply as usize
    &&& i.san@ == m.san@
    &&& i.mine == color_mine(m.color@, uc)
    &&& i.classification@ == m.classification@
    &&& i.loss_cp == m.loss_cp
    &&& opt_text(i.eval_played) == opt_text(m.eval_played_text)
    &&& opt_text(i.eval_best_before) == opt_text(m.eval_before_best_text)
    &&& opt_text(i.best_san) == best_san_of(m)
    &&& opt_text(i.best_eval) == best_eval_of(m)
    &&& opt_text(i.best_uci) == best_uci_of(m)
    &&& opt_text(i.best_pv) == shown_line(best_line(m))
    &&& opt_text(i.played_continuation) == shown_line(punished_line(m))
    &&& i.fen_before@ == m.fen_before@
    &&& i.fen_after@ == m.fen_after@
    &&& opt_words(i.best_pv_sans) == best_line(m)
    &&& opt_words(i.punished_pv_sans) == punished_line(m)
    &&& opt_text(i.summary) == summary_of(m)
    &&& opt_text(i.why_played) == why_played_of(m)
    &&& opt_text(i.why_best) == why_best_of(m)
}

/// The insights of a game: one per analysed move, in order (none without analysis).
pub open spec fn insights_are(ins: Seq<PlyInsight>, g: Game) -> bool {
    match g.analysis {
        None => ins.len() == 0,
        Some(a) => {
            &&& ins.len() == a.moves@.len()
            &&& forall|k: int| 0 <= k < ins.len() ==> insight_is(#[trigger] ins[k], a.moves@[k], opt_text(g.user_color))
        },
    }
}

pub(crate) fn copy_text(o: &Option<String>) -> (r: Option<String>)
    ensures
        opt_text(r) == opt_text(*o),
{
    match o {
        Some(s) => Some(s.clone()),
        None => None,
    }
}

fn copy_moves(v: &Vec<String>) -> (r: Vec<String>)
    ensures
        r.deep_view() == v.deep_view(),
{
    let mut r: Vec<String> = Vec::new();
    let mut i: usize = 0;
    while i < v.len()
        invariant
            0 <= i <= v@.len(),
            r.deep_view() == v.deep_view().take(i as int),
        decreases v@.len() - i,
    {
        let ghost before = r.deep_view();
        r.push(v[i].clone());
        proof {
            assert(v@[i as int]@ == v.deep_view()[i as int]);
            assert(r.deep_view() =~= before.push(v.deep_view()[i as int]));
            assert(v.deep_view().take(i + 1) =~= v.deep_view().take(i as int).push(v.deep_view()[i as int]));
        }
        i = i + 1;
    }
    assert(v.deep_view().take(v@.len() as int) =~= v.deep_view());
    r
}

/// A copy of a line of moves, when it has at least one.
fn nonempty_line(o: &Option<Vec<String>>) -> (r: Option<Vec<String>>)
    ensures
        opt_words(r) == some_words(*o),
{
    match o {
        Some(v) => if v.len() > 0 {
            Some(copy_moves(v))
        } else {
            None
        },
        None => None,
    }
}

fn line_shown(o: &Option<Vec<String>>) -> (r: Option<String>)
    ensures
        opt_text(r) == shown_line(opt_words(*o)),
{
    match o {
        Some(v) => {
            let n: usize = if v.len() < 8 {
                v.len()
            } else {
                8
            };
            let mut out: Vec<char> = Vec::new();
            push_joined(&mut out, v, n, " ");
            assert(out@ =~= first_eight(v.deep_view()));
            Some(string_from_chars(&out))
        },
        None => None,
    }
}

/// What the board shows for one analysed move.
pub fn insight_of(m: &AnalyzedMove, user_color: Option<&str>) -> (i: PlyInsight)
    ensures
        insight_is(i, *m, opt_str(user_color)),
{
    let mine = color_is_mine(m.color.as_str(), user_color);
    let (best_san, best_eval, best_uci, best_pv_sans) = if m.best_moves.len() > 0 {
        let b = &m.best_moves[0];
        (copy_text(&b.san), copy_text(&b.eval_text), copy_text(&b.uci), nonempty_line(&b.pv_san))
    } else {
        (None, None, None, None)
    };
    let punished_pv_sans = match &m.ideal_after_played {
        Some(p) => nonempty_line(&p.pv_san),
        None => None,
    };
    let best_pv = line_shown(&best_pv_sans);
    let played_continuation = line_shown(&punished_pv_sans);
    let (summary, why_played, why_best) = match &m.teaching {
        Some(t) => (copy_text(&t.summary), copy_text(&t.why_played), copy_text(&t.why_best)),
        None => (None, None, None),
    };
    PlyInsight {
        ply: m.ply as usize,
        san: m.san.clone(),
        mine,
        classification: m.classification.clone(),
        loss_cp: m.loss_cp,
        eval_played: copy_text(&m.eval_played_text),
        eval_best_before: copy_text(&m.eval_before_best_text),
        best_san,
        best_eval,
        best_uci,
        best_pv,
        played_continuation,
        fen_before: m.fen_before.clone(),
        fen_after: m.fen_after.clone(),
        best_pv_sans,
        punished_pv_sans,
        summary,
        why_played,
        why_best,
    }
}

/// The insights of a game, one per analysed move.
pub fn ply_insights(game: &Game) -> (r: Vec<PlyInsight>)
    ensures
        insights_are(r@, *game),
{
    let mut r: Vec<PlyInsight> = Vec::new();
    match &game.analysis {
        None => r,
        Some(a) => {
            let uc = match &game.user_color {
                Some(u) => Some(u.as_str()),
                None => None,
            };
            assert(opt_str(uc) == opt_text(game.user_color));
            let mut i: usize = 0;
            while i < a.moves.len()
                invariant
                    game.analysis == Some(*a),
                    opt_str(uc) == opt_text(game.user_color),
                    0 <= i <= a.moves@.len(),
                    r@.len() == i,
                    forall|k: int| 0 <= k < i ==> insight_is(#[trigger] r@[k], a.moves@[k], opt_text(game.user_color)),
                decreases a.moves@.len() - i,
            {
                let ins = insight_of(&a.moves[i], uc);
                r.push(ins);
                i = i + 1;
            }
            r
        },
    }
}

/// Which line is stepped through beside the game.
#[derive(Debug, Clone, Copy, PartialEq, Eq, Structural)]
pub enum VariationKind {
    /// The engine's line from the position before the move.
    Best,
    /// The accurate replies after the move played.
    Punished,
}

pub open spec fn variation_title(k: VariationKind) -> Seq<char> {
    match k {
        VariationKind::Best => "Best line"@,
        VariationKind::Punished => "How it is punished"@,
    }
}

impl VariationKind {
    pub fn title(&self) -> (r: &'static str)
        ensures
            r@ == variation_title(*self),
    {
        match self {
            VariationKind::Best => "Best line",
            VariationKind::Punished => "How it is punished",
        }
    }
}

/// A line stepped through on a board of its own.
#[derive(Debug, Clone)]
pub struct VariationPlayback {
    pub kind: VariationKind,
    pub fens: Vec<String>,
    pub ucis: Vec<Option<String>>,
    pub ply: usize,
}

/// A game on the board: the position after each ply (the start first), the move of each
/// ply as UCI text, the ply shown, the insights, the plies of the pivotal moments and
/// which of them is shown, the orientation, and the line open beside the game.
#[derive(Debug, Clone)]
pub struct Playback {
    pub fens: Vec<String>,
    pub ucis: Vec<Option<String>>,
    pub ply: usize,
    pub insights: Vec<PlyInsight>,
    pub pivotal_moments: Vec<usize>,
    pub pivotal_idx: Option<usize>,
    pub white_at_bottom: bool,
    pub variation: Option<VariationPlayback>,
}

/// The game has analysed moves to play back from.
pub open spec fn has_moves(g: Game) -> bool {
    g.analysis matches Some(a) && a.moves@.len() > 0
}

/// The positions of the analysed moves: before the first, then after each.
pub open spec fn analysis_fens(moves: Seq<AnalyzedMove>) -> Seq<Seq<char>> {
    seq![moves[0].fen_before@] + Seq::new(moves.len(), |k: int| moves[k].fen_after@)
}

pub open spec fn analysis_ucis(moves: Seq<AnalyzedMove>) -> Seq<Option<Seq<char>>> {
    Seq::new(moves.len(), |k: int| opt_text(moves[k].uci))
}

pub open spec fn some_ucis(ms: Seq<Seq<char>>) -> Seq<Option<Seq<char>>> {
    ms.map_values(|u: Seq<char>| Some(u))
}

/// The positions a game is played back through: from its analysis when it has analysed
/// moves, else by replaying its PGN from the start until a move does not read or play.
pub open spec fn playback_fens(g: Game) -> Seq<Seq<char>> {
    if has_moves(g) {
        analysis_fens(g.analysis->0.moves@)
    } else {
        fens_along(start_fen_spec(), pgn_moves(g.pgn@))
    }
}

pub open spec fn playback_ucis(g: Game) -> Seq<Option<Seq<char>>> {
    if has_moves(g) {
        analysis_ucis(g.analysis->0.moves@)
    } else {
        some_ucis(pgn_moves(g.pgn@))
    }
}

/// The plies of a game's pivotal moments, in order.
pub open spec fn pivotal_plies(g: Game) -> Seq<usize> {
    match g.analysis {
        None => Seq::empty(),
        Some(a) => {
            let idx = pivotal_idx(a.moves@, opt_text(g.user_color));
            Seq::new(idx.len(), |k: int| a.moves@[idx[k] as int].ply as usize)
        },
    }
}

/// The PGN can be replayed: its movetext can be found (needed only without analysis).
pub open spec fn pgn_readable(g: Game) -> bool {
    !has_moves(g) ==> text_bytes(g.pgn@) < usize::MAX && movetext_defined(g.pgn@)
}

/// Replay the moves of a PGN from the start, stopping at the first that does not read
/// or play: the positions passed through and the moves made.
pub fn replay_pgn(pgn: &str) -> (r: (Vec<String>, Vec<Option<String>>))
    requires
        text_bytes(pgn@) < usize::MAX,
        movetext_defined(pgn@),
    ensures
        r.0.deep_view() == fens_along(start_fen_spec(), pgn_moves(pgn@)),
        r.1.deep_view() == some_ucis(pgn_moves(pgn@)),
{
    let mut board = Position::initial();
    let sans = pgn_sans(pgn);
    let ghost all = sans.deep_view();
    let ghost start = start_fen_spec();
    let mut fens: Vec<String> = Vec::new();
    fens.push(board.fen());
    let mut ucis: Vec<Option<String>> = Vec::new();
    let mut i: usize = 0;
    let mut done = false;
    proof {
        assert(all.skip(0) == all);
        assert(board.played().take(0) == board.played());
        assert(fens.deep_view() =~= fens_along(start, board.played()));
        assert(ucis.deep_view() =~= some_ucis(board.played()));
    }
    while i < sans.len() && !done
        invariant
            board.castles_standard(),
            0 <= i <= sans@.len(),
            all == sans.deep_view(),
            start == start_fen_spec(),
            board.start() == start,
            done ==> pgn_moves(pgn@) == board.played(),
            !done ==> pgn_moves(pgn@) == crate::chess_util::tail_moves(start, board.played(), all.skip(i as int)),
            fens.deep_view() == fens_along(start, board.played()),
            ucis.deep_view() == some_ucis(board.played()),
        decreases sans@.len() - i + (if done { 0int } else { 1int }),
    {
        proof {
            assert(all.skip(i as int)[0] == sans@[i as int]@);
            assert(all.skip(i as int).drop_first() == all.skip(i + 1));
        }
        match board.san_to_move(sans[i].as_str()) {
            Some(mv) => {
                let uci = mv.to_uci();
                let ghost before = board.played();
                if board.make_move(&mv) {
                    let ghost ub = ucis.deep_view();
                    let ghost fb = fens.deep_view();
                    ucis.push(Some(uci));
                    fens.push(board.fen());
                    proof {
                        let np = board.played();
                        assert(np == before.push(mv.uci()));
                        assert(ucis.deep_view() =~= ub.push(Some(mv.uci())));
                        assert(ucis.deep_view() =~= some_ucis(np));
                        assert(fens.deep_view() =~= fb.push(crate::rules::board_fen(start, np)));
                        assert forall|k: int| 0 <= k < fb.len() implies #[trigger] np.take(k) == before.take(k) by {
                            assert(np.take(k) =~= before.take(k));
                        }
                        assert(np.take(np.len() as int) == np);
                        assert(fens.deep_view() =~= fens_along(start, np));
                    }
                    i = i + 1;
                } else {
                    done = true;
                }
            },
            None => {
                done = true;
            },
        }
    }
    proof {
        if !done {
            assert(all.skip(i as int).len() == 0);
        }
    }
    (fens, ucis)
}

fn analysis_line(moves: &Vec<AnalyzedMove>) -> (r: (Vec<String>, Vec<Option<String>>))
    requires
        moves@.len() > 0,
    ensures
        r.0.deep_view() == analysis_fens(moves@),
        r.1.deep_view() == analysis_ucis(moves@),
{
    let mut fens: Vec<String> = Vec::new();
    fens.push(moves[0].fen_before.clone());
    let mut ucis: Vec<Option<String>> = Vec::new();
    let mut i: usize = 0;
    while i < moves.len()
        invariant
            moves@.len() > 0,
            0 <= i <= moves@.len(),
            fens.deep_view() == seq![moves@[0].fen_before@] + Seq::new(i as nat, |k: int| moves@[k].fen_after@),
            ucis.deep_view() == Seq::new(i as nat, |k: int| opt_text(moves@[k].uci)),
        decreases moves@.len() - i,
    {
        let ghost fb = fens.deep_view();
        let ghost ub = ucis.deep_view();
        fens.push(moves[i].fen_after.clone());
        ucis.push(copy_text(&moves[i].uci));
        assert(fens.deep_view() =~= fb.push(moves@[i as int].fen_after@));
        assert(ucis.deep_view() =~= ub.push(opt_text(moves@[i as int].uci)));
        assert(fens.deep_view() =~= seq![moves@[0].fen_before@] + Seq::new((i + 1) as nat, |k: int| moves@[k].fen_after@));
        assert(ucis.deep_view() =~= Seq::new((i + 1) as nat, |k: int| opt_text(moves@[k].uci)));
        i = i + 1;
    }
    (fens, ucis)
}

pub(crate) fn pivotal_plies_of(game: &Game) -> (r: Vec<usize>)
    ensures
        r@ == pivotal_plies(*game),
{
    let ms = game.pivotal_moments();
    let mut r: Vec<usize> = Vec::new();
    let mut k: usize = 0;
    while k < ms.len()
        invariant
            0 <= k <= ms@.len(),
            match game.analysis {
                None => ms@.len() == 0,
                Some(a) => {
                    let idx = pivotal_idx(a.moves@, opt_text(game.user_color));
                    &&& ms@.len() == idx.len()
                    &&& forall|q: int| 0 <= q < idx.len() ==> *ms@[q] == a.moves@[#[trigger] idx[q] as int]
                },
            },
            r@ == pivotal_plies(*game).take(k as int),
        decreases ms@.len() - k,
    {
        r.push(ms[k].ply as usize);
        assert(r@ =~= pivotal_plies(*game).take(k + 1));
        k = k + 1;
    }
    assert(r@ =~= pivotal_plies(*game));
    r
}

/// The board shows a game from White's side unless the user played Black.
pub open spec fn white_below(g: Game) -> bool {
    opt_text(g.user_color) != Some("black"@)
}

/// A game ready to play back from its first position.
pub fn build_playback(game: &Game) -> (pb: Playback)
    requires
        pgn_readable(*game),
    ensures
        pb.fens.deep_view() == playback_fens(*game),
        pb.ucis.deep_view() == playback_ucis(*game),
        pb.ply == 0,
        insights_are(pb.insights@, *game),
        pb.pivotal_moments@ == pivotal_plies(*game),
        pb.pivotal_idx is None,
        pb.white_at_bottom == white_below(*game),
        pb.variation is None,
{
    let white_at_bottom = match &game.user_color {
        Some(u) => !str_eq(u.as_str(), "black"),
        None => true,
    };
    let insights = ply_insights(game);
    let pivotal_moments = pivotal_plies_of(game);
    let (fens, ucis) = match &game.analysis {
        Some(a) if a.moves.len() > 0 => analysis_line(&a.moves),
        _ => replay_pgn(game.pgn.as_str()),
    };
    Playback { fens, ucis, ply: 0, insights, pivotal_moments, pivotal_idx: None, white_at_bottom, variation: None }
}

/// The first insight for a ply.
pub open spec fn find_insight(ins: Seq<PlyInsight>, ply: usize) -> Option<int>
    decreases ins.len(),
{
    if ins.len() == 0 {
        None
    } else {
        match find_insight(ins.drop_last(), ply) {
            Some(k) => Some(k),
            None => if ins.last().ply == ply {
                Some(ins.len() - 1)
            } else {
                None
            },
        }
    }
}

/// Where `x` first stands in `s`.
pub open spec fn first_pos(s: Seq<usize>, x: usize) -> Option<usize>
    decreases s.len(),
{
    if s.len() == 0 {
        None
    } else {
        match first_pos(s.drop_last(), x) {
            Some(k) => Some(k),
            None => if s.last() == x {
                Some((s.len() - 1) as usize)
            } else {
                None
            },
        }
    }
}

/// The move that led to a ply (none at the start).
pub open spec fn move_into(ucis: Seq<Option<Seq<char>>>, ply: int) -> Option<Seq<char>> {
    if ply == 0 || ply - 1 >= ucis.len() {
        None
    } else {
        ucis[ply - 1]
    }
}

/// The engine's move drawn as an arrow: when there is one and it is not the move played.
pub open spec fn arrow_for(best: Option<Seq<char>>, last: Option<Seq<char>>) -> Option<Seq<char>> {
    match best {
        Some(b) => if Some(b) != last {
            Some(b)
        } else {
            None
        },
        None => None,
    }
}

/// "ply/max".
pub open spec fn counter_text(ply: nat, max: nat) -> Seq<char> {
    nat_text(ply) + "/"@ + nat_text(max)
}

/// What the board shows at a ply: the position, the move that led to it, the engine's
/// move drawn as an arrow, and the ply counter.
#[derive(Debug, Clone)]
pub struct ShownPly {
    pub fen: String,
    pub last_uci: Option<String>,
    pub arrow: Option<String>,
    pub counter: String,
}

pub open spec fn max_ply(fens: Seq<String>) -> int {
    if fens.len() > 0 {
        fens.len() - 1
    } else {
        0
    }
}

/// A step of `dir` plies from `ply` that stays within `0 ..= max`.
pub open spec fn step_to(ply: int, max: int, dir: int) -> Option<usize> {
    if 0 <= ply + dir <= max {
        Some((ply + dir) as usize)
    } else {
        None
    }
}

/// The first pivotal ply after `ply`.
pub open spec fn first_after(pm: Seq<usize>, ply: usize) -> Option<usize>
    decreases pm.len(),
{
    if pm.len() == 0 {
        None
    } else {
        match first_after(pm.drop_last(), ply) {
            Some(p) => Some(p),
            None => if pm.last() > ply {
                Some(pm.last())
            } else {
                None
            },
        }
    }
}

/// The last pivotal ply before `ply`.
pub open spec fn last_before(pm: Seq<usize>, ply: usize) -> Option<usize>
    decreases pm.len(),
{
    if pm.len() == 0 {
        None
    } else if pm.last() < ply {
        Some(pm.last())
    } else {
        last_before(pm.drop_last(), ply)
    }
}

/// The pivotal moment `dir` jumps to: from the one shown, `dir` further round the
/// list; from elsewhere, the next one after (`dir` > 0) or the last one before the ply.
pub open spec fn pivotal_step(pm: Seq<usize>, idx: Option<usize>, ply: usize, dir: int) -> Option<usize> {
    if pm.len() == 0 {
        None
    } else {
        match idx {
            Some(i) => Some(pm[(i + dir) % (pm.len() as int)]),
            None => if dir > 0 {
                first_after(pm, ply)
            } else {
                last_before(pm, ply)
            },
        }
    }
}

fn counter(ply: usize, max: usize) -> (r: String)
    ensures
        r@ == counter_text(ply as nat, max as nat),
{
    let mut out = nat_chars(ply as u64);
    out.push('/');
    let m = nat_chars(max as u64);
    push_chars(&mut out, &m);
    proof {
        reveal_strlit("/");
    }
    assert(out@ =~= counter_text(ply as nat, max as nat));
    string_from_chars(&out)
}

/// `(i + dir)` taken round a cycle of `n`.
pub(crate) fn wrap(i: usize, dir: i32, n: usize) -> (r: usize)
    requires
        n > 0,
    ensures
        r == (i + dir) % (n as int),
{
    let a = i % n;
    proof {
        lemma_small_mod(a as nat, n as nat);
    }
    if dir >= 0 {
        let b = (dir as usize) % n;
        let r = if a >= n - b {
            a - (n - b)
        } else {
            a + b
        };
        proof {
            lemma_add_mod_noop(i as int, dir as int, n as int);
            if a >= n - b {
                assert((a + b) % (n as int) == ((a + b - n) as int) % (n as int)) by {
                    vstd::arithmetic::div_mod::lemma_mod_sub_multiples_vanish((a + b) as int, n as int);
                }
                lemma_small_mod((a + b - n) as nat, n as nat);
            } else {
                lemma_small_mod((a + b) as nat, n as nat);
            }
        }
        r
    } else {
        let d0: u64 = (-(dir as i64)) as u64;
        let d = (d0 % (n as u64)) as usize;
        let r = if a >= d {
            a - d
        } else {
            a + (n - d)
        };
        proof {
            assert(d0 == -dir);
            lemma_sub_mod_noop(i as int, d0 as int, n as int);
            if a >= d {
                lemma_small_mod((a - d) as nat, n as nat);
            } else {
                assert((a - d) % (n as int) == ((a - d + n) as int) % (n as int)) by {
                    vstd::arithmetic::div_mod::lemma_mod_add_multiples_vanish((a - d) as int, n as int);
                }
                lemma_small_mod((a - d + n) as nat, n as nat);
            }
        }
        r
    }
}

impl Playback {
    /// The insight for a ply, if the analysis has one.
    pub fn insight_at(&self, ply: usize) -> (r: Option<&PlyInsight>)
        ensures
            match find_insight(self.insights@, ply) {
                Some(k) => r == Some(&self.insights@[k]),
                None => r is None,
            },
    {
        let mut i: usize = 0;
        while i < self.insights.len()
            invariant
                0 <= i <= self.insights@.len(),
                find_insight(self.insights@.take(i as int), ply) is None,
            decreases self.insights@.len() - i,
        {
            assert(self.insights@.take(i + 1).drop_last() =~= self.insights@.take(i as int));
            assert(self.insights@.take(i + 1).last() == self.insights@[i as int]);
            if self.insights[i].ply == ply {
                proof {
                    self.lemma_find_prefix(ply, (i + 1) as int);
                }
                return Some(&self.insights[i]);
            }
            i = i + 1;
        }
        assert(self.insights@.take(i as int) =~= self.insights@);
        None
    }

    proof fn lemma_find_prefix(&self, ply: usize, j: int)
        requires
            0 < j <= self.insights@.len(),
            find_insight(self.insights@.take(j), ply) is Some,
        ensures
            find_insight(self.insights@, ply) == find_insight(self.insights@.take(j), ply),
        decreases self.insights@.len() - j,
    {
        if j < self.insights@.len() {
            assert(self.insights@.take(j + 1).drop_last() =~= self.insights@.take(j));
            self.lemma_find_prefix(ply, j + 1);
        } else {
            assert(self.insights@.take(j) =~= self.insights@);
        }
    }

    /// Show a ply (at most the last): the pivotal moment shown becomes the one at that
    /// ply, if any; the line beside the game stays as it is.
    pub fn goto(&mut self, ply: usize) -> (shown: ShownPly)
        requires
            old(self).fens@.len() > 0,
        ensures
            final(self).ply == if ply as int <= max_ply(old(self).fens@) { ply as int } else { max_ply(old(self).fens@) },
            final(self).pivotal_idx == first_pos(old(self).pivotal_moments@, final(self).ply),
            final(self).fens == old(self).fens,
            final(self).ucis == old(self).ucis,
            final(self).insights == old(self).insights,
            final(self).pivotal_moments == old(self).pivotal_moments,
            final(self).white_at_bottom == old(self).white_at_bottom,
            final(self).variation == old(self).variation,
            shown.fen@ == old(self).fens@[final(self).ply as int]@,
            opt_text(shown.last_uci) == move_into(old(self).ucis.deep_view(), final(self).ply as int),
            opt_text(shown.arrow) == arrow_for(
                match find_insight(old(self).insights@, final(self).ply) {
                    Some(k) => opt_text(old(self).insights@[k].best_uci),
                    None => None,
                },
                move_into(old(self).ucis.deep_view(), final(self).ply as int),
            ),
            shown.counter@ == counter_text(final(self).ply as nat, max_ply(old(self).fens@) as nat),
    {
        let max = self.fens.len() - 1;
        let ply = if ply < max {
            ply
        } else {
            max
        };
        self.ply = ply;
        let pos = first_index(&self.pivotal_moments, ply);
        self.pivotal_idx = pos;
        let fen = self.fens[ply].clone();
        let last_uci: Option<String> = if ply == 0 || ply - 1 >= self.ucis.len() {
            None
        } else {
            copy_text(&self.ucis[ply - 1])
        };
        let best = match self.insight_at(ply) {
            Some(ins) => copy_text(&ins.best_uci),
            None => None,
        };
        let arrow = match best {
            Some(b) => {
                let same = match &last_uci {
                    Some(u) => str_eq(b.as_str(), u.as_str()),
                    None => false,
                };
                if same {
                    None
                } else {
                    Some(b)
                }
            },
            None => None,
        };
        ShownPly { fen, last_uci, arrow, counter: counter(ply, max) }
    }

    /// The ply a step of `dir` reaches, on the line beside the game when one is open, else
    /// on the game; none past either end.
    pub fn step_target(&self, dir: i32) -> (r: Option<usize>)
        ensures
            r == match self.variation {
                Some(vp) => step_to(vp.ply as int, max_ply(vp.fens@), dir as int),
                None => step_to(self.ply as int, max_ply(self.fens@), dir as int),
            },
    {
        let (ply, n) = match &self.variation {
            Some(vp) => (vp.ply, vp.fens.len()),
            None => (self.ply, self.fens.len()),
        };
        let max: usize = if n > 0 {
            n - 1
        } else {
            0
        };
        if dir >= 0 {
            let d = dir as usize;
            if ply <= max && d <= max - ply {
                Some(ply + d)
            } else {
                None
            }
        } else {
            let d: u64 = (-(dir as i64)) as u64;
            if (ply as u64) >= d {
                let next = ply - (d as usize);
                if next <= max {
                    Some(next)
                } else {
                    None
                }
            } else {
                None
            }
        }
    }

    /// The ply of the pivotal moment a jump of `dir` reaches.
    pub fn pivotal_target(&self, dir: i32) -> (r: Option<usize>)
        ensures
            r == pivotal_step(self.pivotal_moments@, self.pivotal_idx, self.ply, dir as int),
    {
        let n = self.pivotal_moments.len();
        if n == 0 {
            return None;
        }
        match self.pivotal_idx {
            Some(i) => {
                let next = wrap(i, dir, n);
                Some(self.pivotal_moments[next])
            },
            None => {
                if dir > 0 {
                    let mut k: usize = 0;
                    while k < n
                        invariant
                            n == self.pivotal_moments@.len(),
                            n > 0,
                            self.pivotal_idx is None,
                            dir > 0,
                            0 <= k <= n,
                            first_after(self.pivotal_moments@.take(k as int), self.ply) is None,
                        decreases n - k,
                    {
                        assert(self.pivotal_moments@.take(k + 1).drop_last() =~= self.pivotal_moments@.take(k as int));
                        if self.pivotal_moments[k] > self.ply {
                            proof {
                                assert(self.pivotal_moments@.take(k + 1).last() == self.pivotal_moments@[k as int]);
                                lemma_first_after_prefix(self.pivotal_moments@, self.ply, (k + 1) as int);
                            }
                            return Some(self.pivotal_moments[k]);
                        }
                        k = k + 1;
                    }
                    assert(self.pivotal_moments@.take(k as int) =~= self.pivotal_moments@);
                    None
                } else {
                    let mut k: usize = n;
                    assert(self.pivotal_moments@.take(n as int) =~= self.pivotal_moments@);
                    while k > 0
                        invariant
                            n == self.pivotal_moments@.len(),
                            n > 0,
                            self.pivotal_idx is None,
                            dir <= 0,
                            0 <= k <= n,
                            last_before(self.pivotal_moments@, self.ply) == last_before(
                                self.pivotal_moments@.take(k as int),
                                self.ply,
                            ),
                        decreases k,
                    {
                        assert(self.pivotal_moments@.take(k as int).drop_last() =~= self.pivotal_moments@.take(k - 1));
                        assert(self.pivotal_moments@.take(k as int).last() == self.pivotal_moments@[k - 1]);
                        if self.pivotal_moments[k - 1] < self.ply {
                            return Some(self.pivotal_moments[k - 1]);
                        }
                        k = k - 1;
                    }
                    None
                }
            },
        }
    }
}

/// Where `x` first stands in `v`.
pub fn first_index(v: &Vec<usize>, x: usize) -> (r: Option<usize>)
    ensures
        r == first_pos(v@, x),
{
    let mut k: usize = 0;
    while k < v.len()
        invariant
            0 <= k <= v@.len(),
            first_pos(v@.take(k as int), x) is None,
        decreases v@.len() - k,
    {
        assert(v@.take(k + 1).drop_last() =~= v@.take(k as int));
        assert(v@.take(k + 1).last() == v@[k as int]);
        if v[k] == x {
            proof {
                lemma_first_pos_prefix(v@, x, (k + 1) as int);
            }
            return Some(k);
        }
        k = k + 1;
    }
    assert(v@.take(k as int) =~= v@);
    None
}

proof fn lemma_first_pos_prefix(s: Seq<usize>, x: usize, j: int)
    requires
        0 < j <= s.len(),
        first_pos(s.take(j), x) is Some,
    ensures
        first_pos(s, x) == first_pos(s.take(j), x),
    decreases s.len() - j,
{
    if j < s.len() {
        assert(s.take(j + 1).drop_last() =~= s.take(j));
        lemma_first_pos_prefix(s, x, j + 1);
    } else {
        assert(s.take(j) =~= s);
    }
}

proof fn lemma_first_after_prefix(s: Seq<usize>, x: usize, j: int)
    requires
        0 < j <= s.len(),
        first_after(s.take(j), x) is Some,
    ensures
        first_after(s, x) == first_after(s.take(j), x),
    decreases s.len() - j,
{
    if j < s.len() {
        assert(s.take(j + 1).drop_last() =~= s.take(j));
        lemma_first_after_prefix(s, x, j + 1);
    } else {
        assert(s.take(j) =~= s);
    }
}

/// Where a line beside the game starts and its moves: the engine's line from before the
/// move, or the replies that punish it from after.
pub open spec fn variation_fen(ins: PlyInsight, kind: VariationKind) -> Seq<char> {
    match kind {
        VariationKind::Best => ins.fen_before@,
        VariationKind::Punished => ins.fen_after@,
    }
}

pub open spec fn variation_sans(ins: PlyInsight, kind: VariationKind) -> Option<Seq<Seq<char>>> {
    match kind {
        VariationKind::Best => opt_words(ins.best_pv_sans),
        VariationKind::Punished => opt_words(ins.punished_pv_sans),
    }
}

/// The line can be stepped through: it has moves and all of them play from its start.
pub open spec fn variation_playable(ins: PlyInsight, kind: VariationKind) -> bool {
    &&& variation_sans(ins, kind) matches Some(pv)
    &&& pv.len() > 0
    &&& fen_readable(variation_fen(ins, kind))
    &&& line_moves(variation_fen(ins, kind), Seq::empty(), pv) is Some
}

/// `vp` is the line of kind `kind` for `ins`, at ply `ply`.
pub open spec fn variation_is(vp: VariationPlayback, ins: PlyInsight, kind: VariationKind, ply: usize) -> bool {
    let start = variation_fen(ins, kind);
    let ms = line_moves(start, Seq::empty(), variation_sans(ins, kind)->0)->0;
    &&& vp.kind == kind
    &&& vp.fens.deep_view() == fens_along(start, ms)
    &&& vp.ucis.deep_view() == some_ucis(ms)
    &&& vp.ply == ply
}

/// All the moves of a line that plays are made: one per move.
pub proof fn lemma_line_moves_len(start: Seq<char>, played: Seq<Seq<char>>, sans: Seq<Seq<char>>)
    requires
        line_moves(start, played, sans) is Some,
    ensures
        line_moves(start, played, sans)->0.len() == sans.len(),
    decreases sans.len(),
{
    if sans.len() > 0 {
        let u = crate::rules::board_san_move(start, played, sans[0])->0;
        lemma_line_moves_len(start, played.push(u), sans.drop_first());
    }
}

/// The line of kind `kind` for an insight, from its first position.
pub fn variation_line_from_insight(ins: &PlyInsight, kind: VariationKind) -> (r: Option<VariationPlayback>)
    ensures
        r is Some <==> variation_playable(*ins, kind),
        r matches Some(vp) ==> variation_is(vp, *ins, kind, 0),
{
    let (fen, pv) = match kind {
        VariationKind::Best => (ins.fen_before.as_str(), &ins.best_pv_sans),
        VariationKind::Punished => (ins.fen_after.as_str(), &ins.punished_pv_sans),
    };
    let pv = match pv {
        Some(v) => v,
        None => return None,
    };
    if pv.len() == 0 {
        return None;
    }
    let line = pv.as_slice();
    assert(line.deep_view() =~= pv.deep_view());
    let (fens, ucis) = match apply_san_line_with_ucis(fen, line) {
        Some(r) => r,
        None => return None,
    };
    proof {
        lemma_line_moves_len(fen@, Seq::empty(), pv.deep_view());
        assert(fens@.len() == fens.deep_view().len());
    }
    if fens.len() < 2 {
        return None;
    }
    Some(VariationPlayback { kind, fens, ucis, ply: 0 })
}

impl Playback {
    /// Open the line of kind `kind` for the insight at the ply shown, one move in. Nothing
    /// changes (and `false` comes back) when that ply has no insight or the line does not
    /// play.
    pub fn enter_variation(&mut self, kind: VariationKind) -> (ok: bool)
        ensures
            ok == (find_insight(old(self).insights@, old(self).ply) matches Some(k) && variation_playable(
                old(self).insights@[k],
                kind,
            )),
            ok ==> (final(self).variation matches Some(vp) && variation_is(
                vp,
                old(self).insights@[find_insight(old(self).insights@, old(self).ply)->0],
                kind,
                1,
            )),
            !ok ==> final(self).variation == old(self).variation,
            final(self).fens == old(self).fens,
            final(self).ucis == old(self).ucis,
            final(self).ply == old(self).ply,
            final(self).insights == old(self).insights,
            final(self).pivotal_moments == old(self).pivotal_moments,
            final(self).pivotal_idx == old(self).pivotal_idx,
            final(self).white_at_bottom == old(self).white_at_bottom,
    {
        let line = match self.insight_at(self.ply) {
            Some(ins) => variation_line_from_insight(ins, kind),
            None => None,
        };
        match line {
            Some(mut vp) => {
                vp.ply = 1;
                self.variation = Some(vp);
                true
            },
            None => false,
        }
    }

    /// Show a ply (at most the last) of the line beside the game; nothing when none is
    /// open.
    pub fn goto_variation(&mut self, ply: usize) -> (shown: Option<ShownPly>)
        ensures
            match old(self).variation {
                None => shown is None && *final(self) == *old(self),
                Some(vp) => {
                    let p = if ply as int <= max_ply(vp.fens@) { ply as int } else { max_ply(vp.fens@) };
                    &&& final(self).variation matches Some(nv) && nv.kind == vp.kind && nv.fens == vp.fens
                        && nv.ucis == vp.ucis && nv.ply == p
                    &&& vp.fens@.len() > 0 ==> (shown matches Some(sh) && sh.fen@ == vp.fens@[p]@
                        && opt_text(sh.last_uci) == move_into(vp.ucis.deep_view(), p) && sh.arrow is None
                        && sh.counter@ == counter_text(p as nat, max_ply(vp.fens@) as nat))
                    &&& vp.fens@.len() == 0 ==> shown is None
                    &&& final(self).fens == old(self).fens
                    &&& final(self).ucis == old(self).ucis
                    &&& final(self).ply == old(self).ply
                    &&& final(self).insights == old(self).insights
                    &&& final(self).pivotal_moments == old(self).pivotal_moments
                    &&& final(self).pivotal_idx == old(self).pivotal_idx
                    &&& final(self).white_at_bottom == old(self).white_at_bottom
                },
            },
    {
        let mut vp = match self.variation.take() {
            Some(vp) => vp,
            None => return None,
        };
        let n = vp.fens.len();
        let max: usize = if n > 0 {
            n - 1
        } else {
            0
        };
        let p = if ply < max {
            ply
        } else {
            max
        };
        vp.ply = p;
        let shown = if n > 0 {
            let fen = vp.fens[p].clone();
            let last_uci: Option<String> = if p == 0 || p - 1 >= vp.ucis.len() {
                None
            } else {
                copy_text(&vp.ucis[p - 1])
            };
            Some(ShownPly { fen, last_uci, arrow: None, counter: counter(p, max) })
        } else {
            None
        };
        self.variation = Some(vp);
        shown
    }
}

/// The text with its first character in upper case.
pub open spec fn title_case_text(s: Seq<char>) -> Seq<char> {
    if s.len() == 0 {
        Seq::empty()
    } else {
        upper_of(s[0]) + s.skip(1)
    }
}

pub fn title_case(s: &str) -> (r: String)
    ensures
        r@ == title_case_text(s@),
{
    let cs = chars_of(s);
    if cs.len() == 0 {
        return String::new();
    }
    let first = char_to_upper(cs[0]);
    let mut out = chars_of(first.as_str());
    let mut i: usize = 1;
    let ghost o0 = out@;
    while i < cs.len()
        invariant
            1 <= i <= cs@.len(),
            out@ == o0 + cs@.subrange(1, i as int),
        decreases cs@.len() - i,
    {
        out.push(cs[i]);
        assert(out@ =~= o0 + cs@.subrange(1, i + 1));
        i = i + 1;
    }
    assert(cs@.subrange(1, cs@.len() as int) =~= s@.skip(1));
    string_from_chars(&out)
}

/// A text that is there and not empty.
pub open spec fn filled(o: Option<String>) -> bool {
    o matches Some(t) && t@.len() > 0
}

/// Some part already holds the text.
pub open spec fn any_holds(parts: Seq<Seq<char>>, t: Seq<char>) -> bool {
    exists|k: int| 0 <= k < parts.len() && #[trigger] contains_text(parts[k], t)
}

/// The teaching's summary, why the move was played, and what was better, when written.
pub open spec fn teaching_parts(ins: PlyInsight) -> Seq<Seq<char>> {
    let p1: Seq<Seq<char>> = if filled(ins.summary) {
        seq![ins.summary->0@]
    } else {
        Seq::empty()
    };
    let p2 = if filled(ins.why_played) {
        p1.push(ins.why_played->0@)
    } else {
        p1
    };
    if filled(ins.why_best) {
        p2.push("Better: "@ + ins.why_best->0@)
    } else {
        p2
    }
}

/// The teaching parts, then the engine's line and the played continuation where no
/// part already gives them.
pub open spec fn line_parts(ins: PlyInsight) -> Seq<Seq<char>> {
    let p = teaching_parts(ins);
    let p2 = if filled(ins.best_pv) && !any_holds(p, ins.best_pv->0@) {
        p.push("Best line: "@ + ins.best_pv->0@)
    } else {
        p
    };
    if filled(ins.played_continuation) && !any_holds(p2, ins.played_continuation->0@) {
        p2.push("After the played move: "@ + ins.played_continuation->0@)
    } else {
        p2
    }
}

pub open spec fn who_text(mine: bool) -> Seq<char> {
    if mine {
        "You"@
    } else {
        "Opp"@
    }
}

/// The loss as shown: a minus sign before the loss in pawns, or a dash without one.
pub open spec fn loss_text(loss_cp: Option<i32>, loss_pawns: Seq<char>) -> Seq<char> {
    match loss_cp {
        Some(_) => "\u{2212}"@ + loss_pawns,
        None => "\u{2014}"@,
    }
}

/// The evaluation shown: after the move played, else the best before it, else a dash.
pub open spec fn eval_shown(ins: PlyInsight) -> Seq<char> {
    match ins.eval_played {
        Some(e) => e@,
        None => match ins.eval_best_before {
            Some(e) => e@,
            None => "\u{2014}"@,
        },
    }
}

/// Without teaching text: what the best move was, unless the move was best or excellent,
/// else a plain account of the move.
pub open spec fn fallback_parts(ins: PlyInsight, loss: Seq<char>) -> Seq<Seq<char>> {
    let c = ins.classification@;
    if ins.best_san is Some && ins.eval_best_before is Some && c != "best"@ && c != "excellent"@ {
        let be = match ins.best_eval {
            Some(e) => e@,
            None => "\u{2014}"@,
        };
        seq!["Best was "@ + ins.best_san->0@ + " ("@ + be + "); before-move best eval "@ + ins.eval_best_before->0@]
    } else {
        seq![who_text(ins.mine) + " played "@ + ins.san@ + ". Classification: "@ + c + " ("@ + loss + " pawns)."@]
    }
}

pub open spec fn moment_body(ins: PlyInsight, loss: Seq<char>) -> Seq<char> {
    let parts = line_parts(ins);
    join_with(if parts.len() == 0 { fallback_parts(ins, loss) } else { parts }, "\n\n"@)
}

pub open spec fn moment_head(idx: Option<usize>, n: nat, ins: PlyInsight, loss: Seq<char>) -> Seq<char> {
    let lead = match idx {
        Some(i) => "Pivotal Moment "@ + nat_text((i + 1) as nat) + "/"@ + nat_text(n) + " \u{b7} "@,
        None => Seq::empty(),
    };
    lead + who_text(ins.mine) + " \u{b7} "@ + title_case_text(ins.classification@) + " \u{b7} "@ + ins.san@ + " \u{b7} "@
        + loss + " \u{b7} "@ + eval_shown(ins)
}

pub open spec fn start_body(n: nat) -> Seq<char> {
    if n == 0 {
        "Step through with \u{2190} \u{2192}"@
    } else {
        nat_text(n) + " pivotal moments \u{b7} n / p jumps \u{b7} step through with \u{2190} \u{2192}"@
    }
}

/// The moment text above the board, as heading and body. `loss_pawns` is the loss of the
/// move shown, in pawns as written.
pub open spec fn moment_text(pb: Playback, loss_pawns: Seq<char>) -> (Seq<char>, Seq<char>) {
    if pb.ply == 0 {
        if pb.insights@.len() == 0 {
            (Seq::empty(), Seq::empty())
        } else {
            ("Start"@, start_body(pb.pivotal_moments@.len()))
        }
    } else {
        match find_insight(pb.insights@, pb.ply) {
            None => (Seq::empty(), Seq::empty()),
            Some(k) => {
                let ins = pb.insights@[k];
                let loss = loss_text(ins.loss_cp, loss_pawns);
                (moment_head(pb.pivotal_idx, pb.pivotal_moments@.len(), ins, loss), moment_body(ins, loss))
            },
        }
    }
}

fn any_contains(parts: &Vec<String>, t: &str) -> (r: bool)
    ensures
        r == any_holds(parts.deep_view(), t@),
{
    let mut i: usize = 0;
    while i < parts.len()
        invariant
            0 <= i <= parts@.len(),
            forall|k: int| 0 <= k < i ==> !contains_text(#[trigger] parts.deep_view()[k], t@),
        decreases parts@.len() - i,
    {
        assert(parts.deep_view()[i as int] == parts@[i as int]@);
        if text_contains(parts[i].as_str(), t) {
            return true;
        }
        i = i + 1;
    }
    false
}

pub(crate) fn is_filled(o: &Option<String>) -> (r: bool)
    ensures
        r == filled(*o),
{
    match o {
        Some(t) => !t.as_str().is_empty(),
        None => false,
    }
}

fn prefixed(prefix: &str, t: &str) -> (r: String)
    ensures
        r@ == prefix@ + t@,
{
    let mut out = chars_of(prefix);
    push_str(&mut out, t);
    string_from_chars(&out)
}

fn push_part(parts: &mut Vec<String>, p: String)
    ensures
        final(parts).deep_view() == old(parts).deep_view().push(p@),
{
    let ghost b = parts.deep_view();
    parts.push(p);
    assert(parts.deep_view() =~= b.push(p@));
}

fn parts_of(ins: &PlyInsight) -> (r: Vec<String>)
    ensures
        r.deep_view() == line_parts(*ins),
{
    let mut parts: Vec<String> = Vec::new();
    if is_filled(&ins.summary) {
        push_part(&mut parts, copy_text(&ins.summary).unwrap());
    }
    if is_filled(&ins.why_played) {
        push_part(&mut parts, copy_text(&ins.why_played).unwrap());
    }
    if is_filled(&ins.why_best) {
        let t = copy_text(&ins.why_best).unwrap();
        push_part(&mut parts, prefixed("Better: ", t.as_str()));
    }
    assert(parts.deep_view() =~= teaching_parts(*ins));
    if is_filled(&ins.best_pv) {
        let pv = copy_text(&ins.best_pv).unwrap();
        if !any_contains(&parts, pv.as_str()) {
            push_part(&mut parts, prefixed("Best line: ", pv.as_str()));
        }
    }
    if is_filled(&ins.played_continuation) {
        let c = copy_text(&ins.played_continuation).unwrap();
        if !any_contains(&parts, c.as_str()) {
            push_part(&mut parts, prefixed("After the played move: ", c.as_str()));
        }
    }
    parts
}

fn fallback_of(ins: &PlyInsight, loss: &str) -> (r: Vec<String>)
    ensures
        r.deep_view() == fallback_parts(*ins, loss@),
{
    let mut parts: Vec<String> = Vec::new();
    let c = ins.classification.as_str();
    match (&ins.best_san, &ins.eval_best_before) {
        (Some(best), Some(before)) => {
            if !str_eq(c, "best") && !str_eq(c, "excellent") {
                let mut out = chars_of("Best was ");
                push_str(&mut out, best.as_str());
                push_str(&mut out, " (");
                match &ins.best_eval {
                    Some(e) => push_str(&mut out, e.as_str()),
                    None => push_str(&mut out, "\u{2014}"),
                }
                push_str(&mut out, "); before-move best eval ");
                push_str(&mut out, before.as_str());
                push_part(&mut parts, string_from_chars(&out));
            }
        },
        _ => {},
    }
    if parts.len() == 0 {
        let mut out = chars_of(if ins.mine {
            "You"
        } else {
            "Opp"
        });
        push_str(&mut out, " played ");
        push_str(&mut out, ins.san.as_str());
        push_str(&mut out, ". Classification: ");
        push_str(&mut out, c);
        push_str(&mut out, " (");
        push_str(&mut out, loss);
        push_str(&mut out, " pawns).");
        push_part(&mut parts, string_from_chars(&out));
    }
    parts
}

impl Playback {
    /// The moment text above the board for the ply shown, as heading and body.
    /// `loss_pawns` is the loss of the move shown in pawns, as written.
    pub fn moment_for_ply(&self, loss_pawns: &str) -> (r: (String, String))
        requires
            self.pivotal_idx matches Some(i) ==> i < self.pivotal_moments@.len(),
        ensures
            (r.0@, r.1@) == moment_text(*self, loss_pawns@),
    {
        if self.ply == 0 {
            if self.insights.len() == 0 {
                return (String::new(), String::new());
            }
            let n = self.pivotal_moments.len();
            let body = if n == 0 {
                "Step through with \u{2190} \u{2192}".to_string()
            } else {
                let digits = nat_chars(n as u64);
                let d = string_from_chars(&digits);
                let mut out = chars_of(d.as_str());
                push_str(&mut out, " pivotal moments \u{b7} n / p jumps \u{b7} step through with \u{2190} \u{2192}");
                string_from_chars(&out)
            };
            return ("Start".to_string(), body);
        }
        let ins = match self.insight_at(self.ply) {
            Some(i) => i,
            None => return (String::new(), String::new()),
        };
        let mut loss: Vec<char> = Vec::new();
        if ins.loss_cp.is_some() {
            push_str(&mut loss, "\u{2212}");
            push_str(&mut loss, loss_pawns);
        } else {
            push_str(&mut loss, "\u{2014}");
        }
        let loss_s = string_from_chars(&loss);
        let mut head: Vec<char> = Vec::new();
        let pm_len = self.pivotal_moments.len();
        match self.pivotal_idx {
            Some(i) => {
                push_str(&mut head, "Pivotal Moment ");
                let a = nat_chars((i + 1) as u64);
                push_chars(&mut head, &a);
                push_str(&mut head, "/");
                let b = nat_chars(self.pivotal_moments.len() as u64);
                push_chars(&mut head, &b);
                push_str(&mut head, " \u{b7} ");
            },
            None => {},
        }
        push_str(&mut head, if ins.mine {
            "You"
        } else {
            "Opp"
        });
        push_str(&mut head, " \u{b7} ");
        let class = title_case(ins.classification.as_str());
        push_str(&mut head, class.as_str());
        push_str(&mut head, " \u{b7} ");
        push_str(&mut head, ins.san.as_str());
        push_str(&mut head, " \u{b7} ");
        push_str(&mut head, loss_s.as_str());
        push_str(&mut head, " \u{b7} ");
        match &ins.eval_played {
            Some(e) => push_str(&mut head, e.as_str()),
            None => match &ins.eval_best_before {
                Some(e) => push_str(&mut head, e.as_str()),
                None => push_str(&mut head, "\u{2014}"),
            },
        }
        let parts = parts_of(ins);
        let chosen = if parts.len() == 0 {
            fallback_of(ins, loss_s.as_str())
        } else {
            parts
        };
        let mut body: Vec<char> = Vec::new();
        push_joined(&mut body, &chosen, chosen.len(), "\n\n");
        assert(chosen.deep_view().take(chosen@.len() as int) =~= chosen.deep_view());
        (string_from_chars(&head), string_from_chars(&body))
    }
}

/// What `DateTime::<Utc>::from_timestamp(secs, nanos)` formats to with the format
/// `fmt`, or `None` where chrono cannot hold the instant.
pub uninterp spec fn instant_format(secs: i64, nanos: u32, fmt: Seq<char>) -> Option<Seq<char>>;

/// The formats the library writes instants in: day and abbreviated month, either way
/// round.
pub open spec fn date_format(fmt: Seq<char>) -> bool {
    fmt == "%d %b"@ || fmt == "%b %d"@
}

/// `DateTime::<Utc>::from_timestamp` of the instant, formatted with `fmt`. The result
/// is named, not stated: it is `None` exactly where `from_timestamp` refuses the
/// instant; the text chrono writes is left unstated.
#[verifier::external_body]
pub(crate) fn format_instant(t: UtcTime, fmt: &str) -> (r: Option<String>)
    requires
        date_format(fmt@),
    ensures
        opt_text(r) == instant_format(t.secs, t.nanos, fmt@),
{
    match chrono::DateTime::from_timestamp(t.secs, t.nanos) {
        Some(dt) => Some(dt.format(fmt).to_string()),
        None => None,
    }
}

pub open spec fn opt_date(t: Option<UtcTime>) -> Option<Seq<char>> {
    match t {
        Some(t) => instant_format(t.secs, t.nanos, "%d %b"@),
        None => None,
    }
}

/// The user's rating and the opponent's: by the colour the user played (White unless
/// Black).
pub open spec fn elos(g: Game) -> (Option<i32>, Option<i32>) {
    if opt_text(g.user_color) == Some("black"@) {
        (g.black_elo, g.white_elo)
    } else {
        (g.white_elo, g.black_elo)
    }
}

pub open spec fn opp_name(g: Game) -> Seq<char> {
    if filled(g.opponent) {
        g.opponent->0@
    } else {
        "Opp"@
    }
}

/// The ratings as shown: both, one, or, without either, the opponent's name.
pub open spec fn elo_part(g: Game) -> Option<Seq<char>> {
    let name = opp_name(g);
    match elos(g) {
        (Some(me), Some(opp)) => Some("You "@ + int_text(me as int) + " \u{b7} "@ + name + " "@ + int_text(opp as int)),
        (Some(me), None) => Some("You "@ + int_text(me as int)),
        (None, Some(opp)) => Some(name + " "@ + int_text(opp as int)),
        (None, None) => if filled(g.opponent) {
            Some("vs "@ + name)
        } else {
            None
        },
    }
}

pub open spec fn opt_seq(o: Option<Seq<char>>) -> Seq<Seq<char>> {
    match o {
        Some(t) => seq![t],
        None => Seq::empty(),
    }
}

/// The line of facts shown above a game: the day it was played, the ratings and the
/// result, " · " between.
pub open spec fn meta_line(g: Game) -> Seq<char> {
    let result: Option<Seq<char>> = if filled(g.result) {
        Some(g.result->0@)
    } else {
        None
    };
    join_with(opt_seq(opt_date(g.played_at)) + opt_seq(elo_part(g)) + opt_seq(result), " \u{b7} "@)
}

fn push_elo(out: &mut Vec<char>, e: i32)
    ensures
        final(out)@ == old(out)@ + int_text(e as int),
{
    let d = int_chars(e as i64);
    push_chars(out, &d);
}

pub fn game_meta_line(game: &Game) -> (r: String)
    ensures
        r@ == meta_line(*game),
{
    let mut parts: Vec<String> = Vec::new();
    let ghost p0 = parts.deep_view();
    match game.played_at {
        Some(at) => match format_instant(at, "%d %b") {
            Some(d) => push_part(&mut parts, d),
            None => {},
        },
        None => {},
    }
    assert(parts.deep_view() =~= opt_seq(opt_date(game.played_at)));
    let ghost p1 = parts.deep_view();
    let black = match &game.user_color {
        Some(u) => str_eq(u.as_str(), "black"),
        None => false,
    };
    let (me, opp) = if black {
        (game.black_elo, game.white_elo)
    } else {
        (game.white_elo, game.black_elo)
    };
    let has_opp = is_filled(&game.opponent);
    let name: String = if has_opp {
        copy_text(&game.opponent).unwrap()
    } else {
        "Opp".to_string()
    };
    match (me, opp) {
        (Some(m), Some(o)) => {
            let mut out = chars_of("You ");
            push_elo(&mut out, m);
            push_str(&mut out, " \u{b7} ");
            push_str(&mut out, name.as_str());
            push_str(&mut out, " ");
            push_elo(&mut out, o);
            push_part(&mut parts, string_from_chars(&out));
        },
        (Some(m), None) => {
            let mut out = chars_of("You ");
            push_elo(&mut out, m);
            push_part(&mut parts, string_from_chars(&out));
        },
        (None, Some(o)) => {
            let mut out = chars_of(name.as_str());
            push_str(&mut out, " ");
            push_elo(&mut out, o);
            push_part(&mut parts, string_from_chars(&out));
        },
        (None, None) => {
            if has_opp {
                push_part(&mut parts, prefixed("vs ", name.as_str()));
            }
        },
    }
    assert(parts.deep_view() =~= p1 + opt_seq(elo_part(*game)));
    let ghost p2 = parts.deep_view();
    if is_filled(&game.result) {
        push_part(&mut parts, copy_text(&game.result).unwrap());
    }
    let ghost res: Option<Seq<char>> = if filled(game.result) {
        Some(game.result->0@)
    } else {
        None
    };
    assert(parts.deep_view() =~= p2 + opt_seq(res));
    let mut out: Vec<char> = Vec::new();
    push_joined(&mut out, &parts, parts.len(), " \u{b7} ");
    assert(parts.deep_view().take(parts@.len() as int) =~= parts.deep_view());
    string_from_chars(&out)
}

/// Each line indented by two spaces and ended by a newline.
pub open spec fn indented(ls: Seq<Seq<char>>) -> Seq<char>
    decreases ls.len(),
{
    if ls.len() == 0 {
        Seq::empty()
    } else {
        indented(ls.drop_last()) + "  "@ + ls.last() + "\n"@
    }
}

pub open spec fn text_or(o: Option<String>, d: Seq<char>) -> Seq<char> {
    match o {
        Some(t) => t@,
        None => d,
    }
}

/// What the board shows, line by line: the game, the players and result, the ply and
/// the position.
pub open spec fn board_lines(meta: Seq<char>, g: Game, pb: Playback) -> Seq<char> {
    game_lines(meta) + player_lines(g) + position_lines(pb)
}

pub open spec fn game_lines(meta: Seq<char>) -> Seq<char> {
    "What the board is showing:\n"@ + if meta.len() > 0 {
        "  game:     "@ + meta + "\n"@
    } else {
        Seq::empty()
    }
}

pub open spec fn player_lines(g: Game) -> Seq<char> {
    "  opponent: "@ + text_or(g.opponent, "unknown"@) + "\n"@ + "  my color: "@ + text_or(g.user_color, "white"@)
        + "\n"@ + "  result:   "@ + text_or(g.result, "\u{2014}"@) + "\n"@
}

pub open spec fn position_lines(pb: Playback) -> Seq<char> {
    let fen = if pb.ply < pb.fens@.len() {
        pb.fens@[pb.ply as int]@
    } else {
        Seq::empty()
    };
    "  ply:      "@ + counter_text(pb.ply as nat, max_ply(pb.fens@) as nat) + "\n"@ + "  FEN:      "@ + fen + "\n"@
}

/// The moment text, indented, when there is a heading.
pub open spec fn moment_lines(head: Seq<char>, body: Seq<char>) -> Seq<char> {
    if head.len() > 0 {
        "\nMoment text above the board:\n"@ + "  "@ + head + "\n"@ + indented(text_lines(body))
    } else {
        Seq::empty()
    }
}

/// The prompt that asks an assistant about the move shown: what the board shows, and
/// the moment text when there is one.
pub open spec fn agent_prompt_text(g: Game, pb: Playback, loss_pawns: Seq<char>) -> Seq<char> {
    let (head, body) = moment_text(pb, loss_pawns);
    "Analyze this move and describe why it is good or bad and how it can be improved.\n\n"@ + board_lines(meta_line(g), g, pb)
        + moment_lines(head, body)
}

pub(crate) fn push_text_or(out: &mut Vec<char>, o: &Option<String>, d: &str)
    ensures
        final(out)@ == old(out)@ + text_or(*o, d@),
{
    match o {
        Some(t) => push_str(out, t.as_str()),
        None => push_str(out, d),
    }
}

fn push_indented(out: &mut Vec<char>, body: &str)
    ensures
        final(out)@ == old(out)@ + indented(text_lines(body@)),
{
    let cs = chars_of(body);
    let ls = lines_of(&cs);
    let ghost w = ls.deep_view();
    let ghost o0 = out@;
    let mut i: usize = 0;
    while i < ls.len()
        invariant
            w == ls.deep_view(),
            w == text_lines(body@),
            0 <= i <= w.len(),
            out@ == o0 + indented(w.take(i as int)),
        decreases w.len() - i,
    {
        assert(w.take(i + 1).drop_last() =~= w.take(i as int));
        assert(ls@[i as int]@ == w[i as int]);
        push_str(out, "  ");
        push_chars(out, &ls[i]);
        push_str(out, "\n");
        assert(out@ =~= o0 + indented(w.take(i + 1)));
        i = i + 1;
    }
    assert(w.take(w.len() as int) =~= w);
}

fn push_game_lines(out: &mut Vec<char>, meta: &str)
    ensures
        final(out)@ == old(out)@ + game_lines(meta@),
{
    let ghost o0 = out@;
    push_str(out, "What the board is showing:\n");
    if !meta.is_empty() {
        push_str(out, "  game:     ");
        push_str(out, meta);
        push_str(out, "\n");
    }
    assert(out@ =~= o0 + game_lines(meta@));
}

fn push_player_lines(out: &mut Vec<char>, game: &Game)
    ensures
        final(out)@ == old(out)@ + player_lines(*game),
{
    let ghost o0 = out@;
    push_str(out, "  opponent: ");
    push_text_or(out, &game.opponent, "unknown");
    push_str(out, "\n");
    push_str(out, "  my color: ");
    push_text_or(out, &game.user_color, "white");
    push_str(out, "\n");
    push_str(out, "  result:   ");
    push_text_or(out, &game.result, "\u{2014}");
    push_str(out, "\n");
    assert(out@ =~= o0 + player_lines(*game));
}

fn push_position_lines(out: &mut Vec<char>, pb: &Playback)
    ensures
        final(out)@ == old(out)@ + position_lines(*pb),
{
    let ghost o0 = out@;
    let n = pb.fens.len();
    let max: usize = if n > 0 {
        n - 1
    } else {
        0
    };
    push_str(out, "  ply:      ");
    let c = counter(pb.ply, max);
    push_str(out, c.as_str());
    push_str(out, "\n");
    push_str(out, "  FEN:      ");
    if pb.ply < n {
        push_str(out, pb.fens[pb.ply].as_str());
    }
    push_str(out, "\n");
    assert(out@ =~= o0 + position_lines(*pb));
}

fn push_board_lines(out: &mut Vec<char>, meta: &str, game: &Game, pb: &Playback)
    ensures
        final(out)@ == old(out)@ + board_lines(meta@, *game, *pb),
{
    let ghost o0 = out@;
    push_game_lines(out, meta);
    push_player_lines(out, game);
    push_position_lines(out, pb);
    assert(out@ =~= o0 + board_lines(meta@, *game, *pb));
}

fn push_moment_lines(out: &mut Vec<char>, head: &str, body: &str)
    ensures
        final(out)@ == old(out)@ + moment_lines(head@, body@),
{
    let ghost o0 = out@;
    if !head.is_empty() {
        push_str(out, "\nMoment text above the board:\n");
        push_str(out, "  ");
        push_str(out, head);
        push_str(out, "\n");
        push_indented(out, body);
    }
    assert(out@ =~= o0 + moment_lines(head@, body@));
}

/// The prompt that asks an assistant about the move shown. `loss_pawns` is the loss of
/// that move in pawns, as written.
pub fn agent_prompt(game: &Game, pb: &Playback, loss_pawns: &str) -> (r: String)
    requires
        pb.pivotal_idx matches Some(i) ==> i < pb.pivotal_moments@.len(),
    ensures
        r@ == agent_prompt_text(*game, *pb, loss_pawns@),
{
    let (head, body) = pb.moment_for_ply(loss_pawns);
    let mut out = chars_of("Analyze this move and describe why it is good or bad and how it can be improved.\n\n");
    let meta = game_meta_line(game);
    push_board_lines(&mut out, meta.as_str(), game, pb);
    push_moment_lines(&mut out, head.as_str(), body.as_str());
    string_from_chars(&out)
}

/// A game put on the board: at its first pivotal moment when that is wanted and there
/// is one, else at the start; the moment text is hidden when a pivotal moment was
/// wanted and there is none. Comes back with what the board shows and whether the
/// moment text is shown.
pub fn present_playback(game: &Game, prefer_first_pivotal: bool) -> (r: (Playback, ShownPly, bool))
    requires
        pgn_readable(*game),
    ensures
        r.0.fens.deep_view() == playback_fens(*game),
        r.0.ucis.deep_view() == playback_ucis(*game),
        insights_are(r.0.insights@, *game),
        r.0.pivotal_moments@ == pivotal_plies(*game),
        r.0.white_at_bottom == white_below(*game),
        r.0.variation is None,
        r.0.ply == if prefer_first_pivotal && pivotal_plies(*game).len() > 0 {
            let first = pivotal_plies(*game)[0] as int;
            if first <= max_ply(r.0.fens@) { first } else { max_ply(r.0.fens@) }
        } else {
            0
        },
        r.0.pivotal_idx == first_pos(pivotal_plies(*game), r.0.ply),
        r.1.fen@ == r.0.fens@[r.0.ply as int]@,
        r.2 == !(prefer_first_pivotal && pivotal_plies(*game).len() == 0),
{
    proof {
        law_playback_has_start(*game);
    }
    let mut pb = build_playback(game);
    assert(pb.fens@.len() == pb.fens.deep_view().len());
    if prefer_first_pivotal && pb.pivotal_moments.len() > 0 {
        let first = pb.pivotal_moments[0];
        pb.pivotal_idx = Some(0);
        let shown = pb.goto(first);
        (pb, shown, true)
    } else {
        let shown = pb.goto(0);
        (pb, shown, !prefer_first_pivotal)
    }
}

/// What the playbench does for the game to show.
#[derive(Debug, Clone)]
pub enum BoardPlan {
    /// The library is empty: the starting position, nothing else.
    Empty,
    /// The game's analysis is still on disk: its final position is shown (or the
    /// starting position when none is kept) while the analysis loads.
    Loading { game: usize, fen: String, last_uci: Option<String>, counter: Option<String> },
    /// The game is put on the board (see `present_playback`).
    Present { game: usize },
}

/// The game shown: the current one while the library holds it, else the first.
pub open spec fn shown_game(games: Seq<Game>, current: Option<(Seq<char>, Seq<char>)>) -> Option<int> {
    let found = match current {
        Some(k) => first_with_key(games, k.0, k.1),
        None => None,
    };
    match found {
        Some(i) => Some(i),
        None => if games.len() > 0 {
            Some(0)
        } else {
            None
        },
    }
}

/// The plan for the board (see `BoardPlan`).
pub open spec fn board_plan_is(games: Seq<Game>, current: Option<(Seq<char>, Seq<char>)>, p: BoardPlan) -> bool {
    match shown_game(games, current) {
        None => p is Empty,
        Some(i) => {
            let g = games[i];
            if g.analysis is None && g.has_analysis {
                &&& p matches BoardPlan::Loading { game, fen, last_uci, counter }
                &&& game == i
                &&& match g.end_fen {
                    Some(f) => {
                        &&& fen@ == f@
                        &&& opt_text(last_uci) == opt_text(g.end_uci)
                        &&& opt_text(counter) == match g.end_ply {
                            Some(ply) => Some(counter_text(ply as nat, ply as nat)),
                            None => None,
                        }
                    },
                    None => {
                        &&& fen@ == board_fen(start_fen_spec(), Seq::empty())
                        &&& last_uci is None
                        &&& opt_text(counter) == Some("\u{2026}"@)
                    },
                }
            } else {
                p matches BoardPlan::Present { game } && game == i
            }
        },
    }
}

/// What the playbench shows for the library and the game that was current.
pub fn board_plan(library: &Library, current: &Option<(String, String)>) -> (p: BoardPlan)
    ensures
        board_plan_is(library.games@, match current {
            Some(k) => Some((k.0@, k.1@)),
            None => None,
        }, p),
{
    let found = match current {
        Some(k) => library.position_of(k.0.as_str(), k.1.as_str()),
        None => None,
    };
    let i = match found {
        Some(i) => i,
        None => {
            if library.games.len() == 0 {
                return BoardPlan::Empty;
            }
            0
        },
    };
    let g = &library.games[i];
    if g.analysis.is_none() && g.has_analysis {
        match &g.end_fen {
            Some(f) => {
                let counter = match g.end_ply {
                    Some(ply) => Some(counter(ply as usize, ply as usize)),
                    None => None,
                };
                BoardPlan::Loading { game: i, fen: f.clone(), last_uci: copy_text(&g.end_uci), counter }
            },
            None => BoardPlan::Loading {
                game: i,
                fen: crate::chess_util::start_fen(),
                last_uci: None,
                counter: Some("\u{2026}".to_string()),
            },
        }
    } else {
        BoardPlan::Present { game: i }
    }
}

/// The ply the game shows after a step of `dir` on the game (no line beside it open):
/// `step_target` gives the ply reached, if any, and `goto` shows it, kept within the
/// game; with none, the ply stays.
pub open spec fn ply_after_step(ply: usize, fens: Seq<String>, dir: int) -> int {
    match step_to(ply as int, max_ply(fens), dir) {
        Some(p) => if p as int <= max_ply(fens) { p as int } else { max_ply(fens) },
        None => ply as int,
    }
}

/// Stepping through the game moves one ply at a time and never leaves it: a step past
/// either end changes nothing, so the ply stays between the first and the last in every
/// state that steps reach.
pub proof fn law_step_stays_in_game(ply: usize, fens: Seq<String>, dir: i32)
    requires
        ply <= max_ply(fens),
        fens.len() <= usize::MAX,
    ensures
        ply_after_step(ply, fens, dir as int) == if 0 <= ply + dir <= max_ply(fens) {
            ply + dir
        } else {
            ply as int
        },
        0 <= ply_after_step(ply, fens, dir as int) <= max_ply(fens),
{
}

/// A step forward and a step back (or back, then forward) return to the ply left.
pub proof fn law_step_undone(ply: usize, max: usize, dir: i32)
    requires
        ply <= max,
        step_to(ply as int, max as int, dir as int) is Some,
    ensures
        step_to(step_to(ply as int, max as int, dir as int)->0 as int, max as int, -dir) == Some(ply),
{
}

/// Jumping to the next pivotal moment and back to the previous one returns to the
/// moment left; from the last one, the next is the first.
pub proof fn law_pivotal_round_trip(pm: Seq<usize>, i: usize, ply: usize)
    requires
        i < pm.len(),
        pm.len() <= usize::MAX,
    ensures
        ({
            let n = pm.len() as int;
            let j = (i + 1) % n;
            &&& pivotal_step(pm, Some(i), ply, 1) == Some(pm[j])
            &&& pivotal_step(pm, Some(j as usize), pm[j], -1) == Some(pm[i as int])
            &&& i + 1 == n ==> pivotal_step(pm, Some(i), ply, 1) == Some(pm[0])
        }),
{
    let n = pm.len() as int;
    let j = (i + 1) % n;
    if i + 1 < n {
        lemma_small_mod((i + 1) as nat, n as nat);
        lemma_small_mod(i as nat, n as nat);
        assert(j == i + 1);
        assert(((j as usize) + -1) % n == i);
    } else {
        assert((n as int) % n == 0) by {
            vstd::arithmetic::div_mod::lemma_mod_self_0(n);
        }
        assert(((n - 1) as int) % n == n - 1) by {
            lemma_small_mod((n - 1) as nat, n as nat);
        }
        assert((0 + -1) % n == n - 1) by {
            vstd::arithmetic::div_mod::lemma_mod_add_multiples_vanish(-1, n);
        }
        assert(j == 0);
        assert(((j as usize) + -1) % n == i);
    }
}

/// A game always has a position to show: the analysis's first one, or the start.
pub proof fn law_playback_has_start(g: Game)
    ensures
        playback_fens(g).len() >= 1,
        playback_fens(g).len() == playback_ucis(g).len() + 1,
{
    if has_moves(g) {
    } else {
    }
}

} // verus!
