//! Game analysis: the plies to analyse, what the engine's lines say about each move,
//! the teaching notes written for it, and the reports of a run. Running the engine
//! and writing the database are left to the program around the library.
use vstd::prelude::*;

use crate::engine::{
    centipawn_loss, classify_loss, cp_loss, cp_loss_defined, format_score, loss_class, opt_score,
    score_cp, score_text, score_text_defined, score_to_cp, InfoLine, InfoView, Score,
};
use crate::library::key_listed;
use crate::weekly_review::join_words;
use crate::chess_util::{line_moves, pgn_san_moves, pgn_sans, movetext_defined, board_from_fen};
use crate::rules::{
    board_fen, board_make_move, board_move_san, board_san_move, board_white_to_move, fen_readable,
    start_fen_spec, uci_accepted, uci_normalized, ChessMove, Position,
};
use crate::text::{
    chars_of, lines_of, str_eq, nat_chars, nat_text, push_chars, push_str, slice_chars, starts_with_lit,
    string_from_chars, text_bytes, text_lines, trim, trim_chars,
};

verus! {

#[derive(Debug, Clone)]
pub struct AnalyzeReport {
    pub ok: bool,
    pub message: String,
    pub analyzed: usize,
    pub failed: usize,
}

/// The progress line while games are analysed: a download notice as it comes, else
/// the count of games done.
pub open spec fn progress_text(cur: nat, total: nat, msg: Seq<char>) -> Seq<char> {
    if msg.len() >= 11 && msg.take(11) == "Downloading"@ {
        msg
    } else if total > 0 {
        "Analyzing game \u{b7} "@ + nat_text(cur) + "/"@ + nat_text(total)
    } else {
        "Analyzing game\u{2026}"@
    }
}

pub fn analyze_progress_text(cur: usize, total: usize, msg: &str) -> (r: String)
    ensures
        r@ == progress_text(cur as nat, total as nat, msg@),
{
    let cs = chars_of(msg);
    let pre = chars_of("Downloading");
    proof {
        reveal_strlit("Downloading");
    }
    if crate::text::starts_with(&cs, &pre) {
        assert(cs@.take(11) =~= cs@.subrange(0, 11));
        return msg.to_string();
    }
    if total > 0 {
        let mut out = chars_of("Analyzing game \u{b7} ");
        let a = nat_chars(cur as u64);
        push_chars(&mut out, &a);
        push_str(&mut out, "/");
        let b = nat_chars(total as u64);
        push_chars(&mut out, &b);
        proof {
            reveal_strlit("/");
        }
        assert(out@ =~= progress_text(cur as nat, total as nat, msg@));
        string_from_chars(&out)
    } else {
        "Analyzing game\u{2026}".to_string()
    }
}

/// The report of one game analysed and saved.
pub fn analyze_and_save(id: &str) -> (r: AnalyzeReport)
    ensures
        r.ok,
        r.message@ == "Analyzed "@ + id@,
        r.analyzed == 1,
        r.failed == 0,
{
    let mut m: Vec<char> = Vec::new();
    push_str(&mut m, "Analyzed ");
    push_str(&mut m, id);
    AnalyzeReport { ok: true, message: string_from_chars(&m), analyzed: 1, failed: 0 }
}

/// The report of a batch of `total` games of which `failed` could not be analysed:
/// "Nothing to analyze" for an empty batch; ok only when none failed.
pub fn analyze_many_and_save(total: usize, failed: usize) -> (r: AnalyzeReport)
    requires
        failed <= total,
    ensures
        r.ok == (failed == 0),
        r.failed == failed,
        r.analyzed == total - failed,
        r.message@ == if total == 0 {
            "Nothing to analyze"@
        } else {
            "Analyzed "@ + nat_text((total - failed) as nat) + " · failed "@ + nat_text(failed as nat)
                + " · of "@ + nat_text(total as nat)
        },
{
    if total == 0 {
        return AnalyzeReport { ok: true, message: "Nothing to analyze".to_owned(), analyzed: 0, failed: 0 };
    }
    let analyzed = total - failed;
    let mut m: Vec<char> = Vec::new();
    push_str(&mut m, "Analyzed ");
    let a = nat_chars(analyzed as u64);
    push_chars(&mut m, &a);
    push_str(&mut m, " · failed ");
    let f = nat_chars(failed as u64);
    push_chars(&mut m, &f);
    push_str(&mut m, " · of ");
    let t = nat_chars(total as u64);
    push_chars(&mut m, &t);
    AnalyzeReport { ok: failed == 0, message: string_from_chars(&m), analyzed, failed }
}

/// Why a game is not analysed and saved, where that is known without the engine.
pub enum AnalyzeError {
    /// The plies of the game cannot be listed.
    Jobs(JobError),
    /// The game has no moves.
    NoMoves,
    /// The database holds no game with the key, so the analysis has nowhere to go.
    NotStored { id: String, game_type: String },
}

impl AnalyzeError {
    pub open spec fn message_text(&self) -> Seq<char> {
        match self {
            AnalyzeError::Jobs(e) => e.message_text(),
            AnalyzeError::NoMoves => "PGN has no moves to analyze"@,
            AnalyzeError::NotStored { id, game_type } => "game "@ + id@ + "/"@ + game_type@ + " not found in db"@,
        }
    }

    /// The error as the program reports it.
    pub fn message(&self) -> (m: String)
        ensures
            m@ == self.message_text(),
    {
        match self {
            AnalyzeError::Jobs(e) => e.message(),
            AnalyzeError::NoMoves => "PGN has no moves to analyze".to_owned(),
            AnalyzeError::NotStored { id, game_type } => {
                let mut m: Vec<char> = Vec::new();
                push_str(&mut m, "game ");
                push_str(&mut m, id.as_str());
                push_str(&mut m, "/");
                push_str(&mut m, game_type.as_str());
                push_str(&mut m, " not found in db");
                string_from_chars(&m)
            },
        }
    }
}

/// The plies of a game to analyse: as `build_ply_jobs` lists them, and an error where
/// there are none.
pub fn analysis_jobs(pgn: &str) -> (r: Result<Vec<PlyJob>, AnalyzeError>)
    requires
        text_bytes(pgn@) < usize::MAX,
        movetext_defined(pgn@),
    ensures
        match job_start(pgn@) {
            None => r matches Err(AnalyzeError::Jobs(JobError::InvalidFen)),
            Some(start) => {
                let sans = pgn_san_moves(pgn@);
                match first_failure(start, Seq::empty(), sans) {
                    Some((k, true)) => r matches Err(AnalyzeError::Jobs(JobError::IllegalSan { ply, san }))
                        && ply == k + 1 && san@ == sans[k],
                    Some((k, false)) => r matches Err(AnalyzeError::Jobs(JobError::CannotPlay { san }))
                        && san@ == sans[k],
                    None => if sans.len() == 0 {
                        r matches Err(AnalyzeError::NoMoves)
                    } else {
                        r matches Ok(jobs) && {
                            let ms = line_moves(start, Seq::empty(), sans)->0;
                            &&& jobs@.len() == sans.len()
                            &&& forall|k: int| 0 <= k < jobs@.len() ==> job_is(#[trigger] jobs@[k], start, ms, sans, k)
                        }
                    },
                }
            },
        },
{
    match build_ply_jobs(pgn) {
        Err(e) => Err(AnalyzeError::Jobs(e)),
        Ok(jobs) => {
            if jobs.len() == 0 {
                Err(AnalyzeError::NoMoves)
            } else {
                Ok(jobs)
            }
        },
    }
}

/// Where the analysis of the game with this key goes among the keys (id, game type) of
/// the stored games: the first place with the key, or `NotStored` where none has it.
pub fn stored_place(stored_keys: &Vec<(String, String)>, id: &str, game_type: &str) -> (r: Result<usize, AnalyzeError>)
    ensures
        r is Ok <==> key_listed(stored_keys@, id@, game_type@),
        r matches Ok(j) ==> j < stored_keys@.len() && stored_keys@[j as int].0@ == id@ && stored_keys@[j as int].1@
            == game_type@ && forall|t: int|
            0 <= t < j ==> !(stored_keys@[t].0@ == id@ && #[trigger] stored_keys@[t].1@ == game_type@),
        r matches Err(e) ==> (e matches AnalyzeError::NotStored { id: i, game_type: t } && i@ == id@ && t@
            == game_type@),
{
    let mut j: usize = 0;
    while j < stored_keys.len()
        invariant
            0 <= j <= stored_keys@.len(),
            forall|t: int|
                0 <= t < j ==> !(stored_keys@[t].0@ == id@ && #[trigger] stored_keys@[t].1@ == game_type@),
        decreases stored_keys@.len() - j,
    {
        if str_eq(stored_keys[j].0.as_str(), id) && str_eq(stored_keys[j].1.as_str(), game_type) {
            return Ok(j);
        }
        j = j + 1;
    }
    Err(AnalyzeError::NotStored { id: id.to_string(), game_type: game_type.to_string() })
}

// ---------------------------------------------------------------------------
// The plies of a game
// ---------------------------------------------------------------------------

/// One move to analyse: the positions before and after it, whose turn it was and is,
/// and the move in SAN and UCI.
#[derive(Debug, Clone)]
pub struct PlyJob {
    pub ply: u32,
    pub before_fen: String,
    pub after_fen: String,
    pub side_to_move: String,
    pub after_side: String,
    pub san: String,
    pub uci: String,
}

/// Reading the header lines from line `i`: whether a `[SetUp "1..."]` tag was seen and
/// the text of the last `[FEN "..."]` tag (`None` where it lacks its closing `"]`); a
/// blank line ends the header.
pub open spec fn fen_header_scan(
    lines: Seq<Seq<char>>,
    i: int,
    setup: bool,
    fen: Option<Seq<char>>,
) -> (bool, Option<Seq<char>>)
    decreases lines.len() - i,
{
    if i < 0 || i >= lines.len() {
        (setup, fen)
    } else {
        let t = trim(lines[i]);
        if t.len() >= 8 && t.take(7) == "[SetUp "@ && t[7] == '"' {
            let rest = t.skip(8);
            fen_header_scan(lines, i + 1, rest.len() > 0 && rest[0] == '1', fen)
        } else if t.len() >= 6 && t.take(5) == "[FEN "@ && t[5] == '"' {
            let rest = t.skip(6);
            let f = if rest.len() >= 2 && rest[rest.len() - 2] == '"' && rest[rest.len() - 1] == ']' {
                Some(rest.subrange(0, rest.len() - 2))
            } else {
                None
            };
            fen_header_scan(lines, i + 1, setup, f)
        } else if t.len() == 0 {
            (setup, fen)
        } else {
            fen_header_scan(lines, i + 1, setup, fen)
        }
    }
}

/// The starting position a PGN sets up: its FEN tag, when a SetUp tag says `1`.
pub open spec fn pgn_fen_header_text(pgn: Seq<char>) -> Option<Seq<char>> {
    let (setup, fen) = fen_header_scan(text_lines(pgn), 0, false, None);
    if setup {
        fen
    } else {
        None
    }
}

pub fn pgn_fen_header(pgn: &str) -> (r: Option<String>)
    ensures
        match pgn_fen_header_text(pgn@) {
            Some(f) => r matches Some(s) && s@ == f,
            None => r is None,
        },
{
    let cs = chars_of(pgn);
    let lines = lines_of(&cs);
    let ghost ls = lines.deep_view();
    let mut setup = false;
    let mut fen: Option<Vec<char>> = None;
    let mut i: usize = 0;
    let mut done = false;
    proof {
        reveal_strlit("[SetUp ");
        reveal_strlit("[FEN ");
    }
    while i < lines.len() && !done
        invariant
            ls == lines.deep_view(),
            ls == text_lines(pgn@),
            0 <= i <= ls.len(),
            fen_header_scan(ls, 0, false, None) == if done {
                (setup, match fen { Some(f) => Some(f@), None => None })
            } else {
                fen_header_scan(ls, i as int, setup, match fen { Some(f) => Some(f@), None => None })
            },
        decreases ls.len() - i + if done { 0int } else { 1int },
    {
        let t = trim_chars(&lines[i]);
        assert(lines@[i as int]@ == ls[i as int]);
        proof {
            reveal_strlit("[SetUp ");
            reveal_strlit("[FEN ");
        }
        let n = t.len();
        if n >= 8 && starts_with_lit(&t, "[SetUp ") && t[7] == '"' {
            setup = n > 8 && t[8] == '1';
            proof {
                if n > 8 {
                    assert(t@.skip(8)[0] == t@[8]);
                }
            }
            i = i + 1;
        } else if n >= 6 && starts_with_lit(&t, "[FEN ") && t[5] == '"' {
            let rest = slice_chars(&t, 6, n);
            assert(rest@ == t@.skip(6));
            let m = rest.len();
            if m >= 2 && rest[m - 2] == '"' && rest[m - 1] == ']' {
                fen = Some(slice_chars(&rest, 0, m - 2));
            } else {
                fen = None;
            }
            i = i + 1;
        } else if n == 0 {
            done = true;
        } else {
            i = i + 1;
        }
    }
    if setup {
        match fen {
            Some(f) => Some(string_from_chars(&f)),
            None => None,
        }
    } else {
        None
    }
}

/// Why the plies of a game could not be listed.
#[derive(Debug, Clone)]
pub enum JobError {
    /// The FEN tag does not describe a position.
    InvalidFen,
    /// The SAN at this ply (counted from 1) names no legal move.
    IllegalSan { ply: usize, san: String },
    /// The move could not be made.
    CannotPlay { san: String },
}

impl JobError {
    /// The error as the program reports it.
    pub open spec fn message_text(&self) -> Seq<char> {
        match self {
            JobError::InvalidFen => "invalid FEN header"@,
            JobError::IllegalSan { ply, san } => "illegal SAN at ply "@ + nat_text(*ply as nat) + ": "@ + san@,
            JobError::CannotPlay { san } => "cannot play "@ + san@,
        }
    }

    pub fn message(&self) -> (m: String)
        ensures
            m@ == self.message_text(),
    {
        match self {
            JobError::InvalidFen => "invalid FEN header".to_owned(),
            JobError::IllegalSan { ply, san } => {
                let mut out: Vec<char> = Vec::new();
                push_str(&mut out, "illegal SAN at ply ");
                let p = nat_chars(*ply as u64);
                push_chars(&mut out, &p);
                push_str(&mut out, ": ");
                push_str(&mut out, san.as_str());
                string_from_chars(&out)
            },
            JobError::CannotPlay { san } => {
                let mut out: Vec<char> = Vec::new();
                push_str(&mut out, "cannot play ");
                push_str(&mut out, san.as_str());
                string_from_chars(&out)
            },
        }
    }
}

/// Playing the SAN moves in order from `start` after `played`: where the first one
/// fails, if any (its index, and whether its SAN could not be read rather than the
/// move not made).
pub open spec fn first_failure(start: Seq<char>, played: Seq<Seq<char>>, sans: Seq<Seq<char>>) -> Option<(int, bool)>
    decreases sans.len(),
{
    if sans.len() == 0 {
        None
    } else {
        match board_san_move(start, played, sans[0]) {
            None => Some((0, true)),
            Some(u) => if board_make_move(start, played, u) {
                match first_failure(start, played.push(u), sans.drop_first()) {
                    Some((k, b)) => Some((k + 1, b)),
                    None => None,
                }
            } else {
                Some((0, false))
            },
        }
    }
}

/// The position a game's moves are played from: its FEN tag (`None` where the tag does
/// not describe a position), else the initial position.
pub open spec fn job_start(pgn: Seq<char>) -> Option<Seq<char>> {
    match pgn_fen_header_text(pgn) {
        Some(f) => if fen_readable(f) {
            Some(f)
        } else {
            None
        },
        None => Some(start_fen_spec()),
    }
}

pub open spec fn side_text(white: bool) -> Seq<char> {
    if white {
        "w"@
    } else {
        "b"@
    }
}

/// Job `k` of a game played from `start` with moves `ms` (UCI) for the SANs `sans`.
pub open spec fn job_is(j: PlyJob, start: Seq<char>, ms: Seq<Seq<char>>, sans: Seq<Seq<char>>, k: int) -> bool {
    &&& j.ply == (k + 1) as u32
    &&& j.before_fen@ == board_fen(start, ms.take(k))
    &&& j.side_to_move@ == side_text(board_white_to_move(start, ms.take(k)))
    &&& j.san@ == sans[k]
    &&& j.uci@ == ms[k]
    &&& j.after_fen@ == board_fen(start, ms.take(k + 1))
    &&& j.after_side@ == side_text(board_white_to_move(start, ms.take(k + 1)))
}

fn side_of(board: &Position) -> (s: String)
    ensures
        s@ == side_text(board_white_to_move(board.start(), board.played())),
{
    if board.white_to_move() {
        "w".to_owned()
    } else {
        "b".to_owned()
    }
}

/// The plies of a game, each with its positions and move; or why they cannot be listed.
pub fn build_ply_jobs(pgn: &str) -> (r: Result<Vec<PlyJob>, JobError>)
    requires
        text_bytes(pgn@) < usize::MAX,
        movetext_defined(pgn@),
    ensures
        match job_start(pgn@) {
            None => r matches Err(JobError::InvalidFen),
            Some(start) => {
                let sans = pgn_san_moves(pgn@);
                match first_failure(start, Seq::empty(), sans) {
                    Some((k, true)) => r matches Err(JobError::IllegalSan { ply, san }) && ply == k + 1
                        && san@ == sans[k],
                    Some((k, false)) => r matches Err(JobError::CannotPlay { san }) && san@ == sans[k],
                    None => r matches Ok(jobs) && {
                        let ms = line_moves(start, Seq::empty(), sans)->0;
                        &&& jobs@.len() == sans.len()
                        &&& forall|k: int| 0 <= k < jobs@.len() ==> job_is(#[trigger] jobs@[k], start, ms, sans, k)
                    },
                }
            },
        },
{
    let mut board = match pgn_fen_header(pgn) {
        Some(f) => match board_from_fen(f.as_str()) {
            Some(b) => b,
            None => return Err(JobError::InvalidFen),
        },
        None => Position::initial(),
    };
    let ghost start = board.start();
    let sans = pgn_sans(pgn);
    let ghost all = sans.deep_view();
    let mut jobs: Vec<PlyJob> = Vec::new();
    let mut i: usize = 0;
    proof {
        assert(all.skip(0) == all);
    }
    while i < sans.len()
        invariant
            board.castles_standard(),
            0 <= i <= sans@.len(),
            all == sans.deep_view(),
            all == pgn_san_moves(pgn@),
            job_start(pgn@) == Some(start),
            board.start() == start,
            board.played().len() == i,
            first_failure(start, Seq::empty(), all) == match first_failure(
                start,
                board.played(),
                all.skip(i as int),
            ) {
                Some((k, b)) => Some((k + i, b)),
                None => None,
            },
            line_moves(start, Seq::empty(), all) == match line_moves(
                start,
                board.played(),
                all.skip(i as int),
            ) {
                Some(rest) => Some(board.played() + rest),
                None => None,
            },
            jobs@.len() == i,
            forall|k: int| 0 <= k < i ==> job_is(#[trigger] jobs@[k], start, board.played(), all, k),
        decreases sans@.len() - i,
    {
        proof {
            assert(all.skip(i as int)[0] == sans@[i as int]@);
            assert(all.skip(i as int).drop_first() == all.skip(i + 1));
        }
        let before_fen = board.fen();
        let side_to_move = side_of(&board);
        let ghost before = board.played();
        let mv = match board.san_to_move(sans[i].as_str()) {
            Some(m) => m,
            None => {
                let s = sans[i].clone();
                return Err(JobError::IllegalSan { ply: i + 1, san: s });
            },
        };
        let uci = mv.to_uci();
        if !board.make_move(&mv) {
            let s = sans[i].clone();
            return Err(JobError::CannotPlay { san: s });
        }
        let after_fen = board.fen();
        let after_side = side_of(&board);
        let san = sans[i].clone();
        let ghost u = mv.uci();
        let ghost jb = jobs@;
        jobs.push(
            PlyJob { ply: (i + 1) as u32, before_fen, after_fen, side_to_move, after_side, san, uci },
        );
        proof {
            let np = board.played();
            assert(np == before.push(u));
            assert(np.take(i as int) =~= before);
            assert(np.take(i + 1) =~= np);
            assert forall|k: int| 0 <= k < i + 1 implies job_is(#[trigger] jobs@[k], start, np, all, k) by {
                if k < i {
                    assert(jobs@[k] == jb[k]);
                    assert(np.take(k) =~= before.take(k));
                    assert(np.take(k + 1) =~= before.take(k + 1));
                    assert(np[k] == before[k]);
                }
            }
            let rest_after = line_moves(start, np, all.skip(i + 1));
            if rest_after is Some {
                assert(before + (seq![u] + rest_after->0) =~= np + rest_after->0);
            }
        }
        i = i + 1;
    }
    proof {
        assert(all.skip(i as int).len() == 0);
        assert(board.played() + Seq::<Seq<char>>::empty() =~= board.played());
    }
    Ok(jobs)
}

// ---------------------------------------------------------------------------
// Engine lines in SAN
// ---------------------------------------------------------------------------

/// Playing UCI moves from `start` after `played`, stopping at the first that does not
/// read, has no SAN or cannot be made: the SAN of each move made.
pub open spec fn pv_san_walk(start: Seq<char>, played: Seq<Seq<char>>, pv: Seq<Seq<char>>) -> Seq<Seq<char>>
    decreases pv.len(),
{
    if pv.len() == 0 || !uci_accepted(pv[0]) {
        Seq::empty()
    } else {
        let u = uci_normalized(pv[0]);
        match board_move_san(start, played, u) {
            None => Seq::empty(),
            Some(s) => if board_make_move(start, played, u) {
                seq![s] + pv_san_walk(start, played.push(u), pv.drop_first())
            } else {
                Seq::empty()
            },
        }
    }
}

/// A line of UCI moves written in SAN from the position `fen` (nothing where the FEN
/// does not describe a position).
pub open spec fn pv_sans(fen: Seq<char>, pv: Seq<Seq<char>>) -> Seq<Seq<char>> {
    if fen_readable(fen) {
        pv_san_walk(fen, Seq::empty(), pv)
    } else {
        Seq::empty()
    }
}

pub fn uci_pv_to_san(fen: &str, pv: &Vec<String>) -> (sans: Vec<String>)
    ensures
        sans.deep_view() == pv_sans(fen@, pv.deep_view()),
{
    let mut board = match board_from_fen(fen) {
        Some(b) => b,
        None => {
            let v: Vec<String> = Vec::new();
            assert(v.deep_view() =~= Seq::<Seq<char>>::empty());
            return v;
        },
    };
    let ghost all = pv.deep_view();
    let mut sans: Vec<String> = Vec::new();
    let mut i: usize = 0;
    let mut done = false;
    proof {
        assert(all.skip(0) == all);
        assert(sans.deep_view() + pv_san_walk(fen@, Seq::empty(), all.skip(0)) =~= pv_san_walk(fen@, Seq::empty(), all));
    }
    while i < pv.len() && !done
        invariant
            board.castles_standard(),
            0 <= i <= pv@.len(),
            all == pv.deep_view(),
            fen_readable(fen@),
            board.start() == fen@,
            done ==> sans.deep_view() == pv_san_walk(fen@, Seq::empty(), all),
            !done ==> sans.deep_view() + pv_san_walk(fen@, board.played(), all.skip(i as int)) == pv_san_walk(
                fen@,
                Seq::empty(),
                all,
            ),
        decreases pv@.len() - i + if done { 0int } else { 1int },
    {
        proof {
            assert(all.skip(i as int)[0] == pv@[i as int]@);
            assert(all.skip(i as int).drop_first() == all.skip(i + 1));
        }
        let ghost sb = sans.deep_view();
        let parsed = if pv[i].as_str().is_ascii() {
            ChessMove::from_uci(pv[i].as_str())
        } else {
            proof {
                crate::rules::lemma_uci_accepted_ascii(pv@[i as int]@);
            }
            None
        };
        match parsed {
            None => {
                proof {
                    assert(sb + Seq::<Seq<char>>::empty() =~= sb);
                }
                done = true;
            },
            Some(mv) => {
                match board.move_to_san(&mv) {
                    None => {
                        proof {
                            assert(sb + Seq::<Seq<char>>::empty() =~= sb);
                        }
                        done = true;
                    },
                    Some(san) => {
                        if board.make_move(&mv) {
                            let ghost s = san@;
                            sans.push(san);
                            proof {
                                assert(sans.deep_view() =~= sb.push(s));
                                assert(sb + (seq![s] + pv_san_walk(fen@, board.played(), all.skip(i + 1)))
                                    =~= sans.deep_view() + pv_san_walk(fen@, board.played(), all.skip(i + 1)));
                            }
                            i = i + 1;
                        } else {
                            proof {
                                assert(sb + Seq::<Seq<char>>::empty() =~= sb);
                            }
                            done = true;
                        }
                    },
                }
            },
        }
    }
    proof {
        if !done {
            assert(all.skip(i as int).len() == 0);
            assert(sans.deep_view() + Seq::<Seq<char>>::empty() =~= sans.deep_view());
        }
    }
    sans
}

// ---------------------------------------------------------------------------
// One ply's record
// ---------------------------------------------------------------------------

/// A copy of an engine line.
pub fn copy_line(l: &InfoLine) -> (r: InfoLine)
    ensures
        r@ == l@,
{
    let mut pv: Vec<String> = Vec::new();
    let mut i: usize = 0;
    while i < l.pv.len()
        invariant
            0 <= i <= l.pv@.len(),
            pv.deep_view() == l.pv.deep_view().take(i as int),
        decreases l.pv@.len() - i,
    {
        let ghost before = pv.deep_view();
        pv.push(l.pv[i].clone());
        proof {
            assert(l.pv@[i as int]@ == l.pv.deep_view()[i as int]);
            assert(pv.deep_view() =~= before.push(l.pv.deep_view()[i as int]));
            assert(l.pv.deep_view().take(i + 1) =~= l.pv.deep_view().take(i as int).push(l.pv.deep_view()[i as int]));
        }
        i = i + 1;
    }
    assert(l.pv.deep_view().take(l.pv@.len() as int) =~= l.pv.deep_view());
    InfoLine { depth: l.depth, multipv: l.multipv, score: l.score, pv }
}

pub open spec fn first_word(ws: Seq<Seq<char>>) -> Option<Seq<char>> {
    if ws.len() > 0 {
        Some(ws[0])
    } else {
        None
    }
}

/// The index of the first line that begins with the move.
pub open spec fn played_index(lines: Seq<InfoView>, uci: Seq<char>) -> Option<int> {
    if exists|i: int| 0 <= i < lines.len() && first_word(lines[i].pv) == Some(uci) {
        Some(choose|i: int| 0 <= i < lines.len() && first_word(lines[i].pv) == Some(uci) && forall|j: int|
            0 <= j < i ==> first_word(#[trigger] lines[j].pv) != Some(uci))
    } else {
        None
    }
}

pub open spec fn views_of(lines: Seq<InfoLine>) -> Seq<InfoView> {
    lines.map_values(|l: InfoLine| l@)
}

/// The engine line for the move played: the first of `lines` that begins with it.
pub fn played_line_in(lines: &Vec<InfoLine>, uci: &str) -> (r: Option<InfoLine>)
    ensures
        match played_index(views_of(lines@), uci@) {
            Some(i) => r matches Some(l) && l@ == lines@[i]@,
            None => r is None,
        },
{
    let ghost vs = views_of(lines@);
    let mut i: usize = 0;
    while i < lines.len()
        invariant
            vs == views_of(lines@),
            0 <= i <= lines@.len(),
            forall|j: int| 0 <= j < i ==> first_word(#[trigger] vs[j].pv) != Some(uci@),
        decreases lines@.len() - i,
    {
        assert(vs[i as int] == lines@[i as int]@);
        let hit = lines[i].pv.len() > 0 && crate::text::str_eq(lines[i].pv[0].as_str(), uci);
        proof {
            if lines@[i as int].pv@.len() > 0 {
                assert(lines@[i as int].pv@[0]@ == vs[i as int].pv[0]);
            }
        }
        if hit {
            proof {
                let k = choose|k: int| 0 <= k < vs.len() && first_word(vs[k].pv) == Some(uci@) && forall|j: int|
                    0 <= j < k ==> first_word(#[trigger] vs[j].pv) != Some(uci@);
                assert(first_word(vs[i as int].pv) == Some(uci@));
                if k < i {
                    assert(first_word(vs[k].pv) != Some(uci@));
                }
                if i < k {
                    assert(first_word(vs[i as int].pv) != Some(uci@));
                }
            }
            return Some(copy_line(&lines[i]));
        }
        i = i + 1;
    }
    None
}

/// Moves graded best or excellent need no look at the reply line after them.
pub open spec fn needs_continuation_text(classification: Seq<char>) -> bool {
    classification != "best"@ && classification != "excellent"@
}

pub fn needs_continuation(classification: &str) -> (b: bool)
    ensures
        b == needs_continuation_text(classification@),
{
    !crate::text::str_eq(classification, "best") && !crate::text::str_eq(classification, "excellent")
}

/// What follows the played move in its own line: the line without its first move
/// (as line 1), when there is more than that move.
pub open spec fn continuation_view(played: Option<InfoView>) -> Option<InfoView> {
    match played {
        Some(l) => if l.pv.len() > 1 {
            Some(InfoView { depth: l.depth, multipv: 1, score: l.score, pv: l.pv.drop_first() })
        } else {
            None
        },
        None => None,
    }
}

pub open spec fn opt_view(l: Option<&InfoLine>) -> Option<InfoView> {
    match l {
        Some(x) => Some(x@),
        None => None,
    }
}

pub fn continuation_of_played(played: Option<&InfoLine>) -> (r: Option<InfoLine>)
    ensures
        match continuation_view(opt_view(played)) {
            Some(v) => r matches Some(l) && l@ == v,
            None => r is None,
        },
{
    match played {
        Some(info) => {
            if info.pv.len() > 1 {
                let mut pv: Vec<String> = Vec::new();
                let mut i: usize = 1;
                let ghost all = info.pv.deep_view();
                while i < info.pv.len()
                    invariant
                        all == info.pv.deep_view(),
                        1 <= i <= all.len(),
                        pv.deep_view() == all.subrange(1, i as int),
                    decreases all.len() - i,
                {
                    let ghost before = pv.deep_view();
                    pv.push(info.pv[i].clone());
                    proof {
                        assert(info.pv@[i as int]@ == all[i as int]);
                        assert(pv.deep_view() =~= before.push(all[i as int]));
                        assert(all.subrange(1, i + 1) =~= all.subrange(1, i as int).push(all[i as int]));
                    }
                    i = i + 1;
                }
                assert(all.subrange(1, all.len() as int) =~= all.drop_first());
                Some(InfoLine { depth: info.depth, multipv: 1, score: info.score, pv })
            } else {
                None
            }
        },
        None => None,
    }
}

/// A score from White's side, in centipawns (mates counted as `score_cp` counts them).
pub open spec fn white_cp(score: Score, side_to_move: Seq<char>) -> int {
    if side_to_move == "b"@ {
        -score_cp(score)
    } else {
        score_cp(score)
    }
}

pub fn score_to_white_cp(score: &Score, side_to_move: &str) -> (cp: i64)
    ensures
        cp == white_cp(*score, side_to_move@),
{
    let v = score_to_cp(score) as i64;
    if crate::text::str_eq(side_to_move, "b") {
        -v
    } else {
        v
    }
}

// ---------------------------------------------------------------------------
// Teaching notes
// ---------------------------------------------------------------------------

/// The words written about a move.
#[derive(Debug, Clone)]
pub struct TeachingNote {
    pub summary: String,
    pub why_played: String,
    pub why_best: String,
    pub ideal_future: String,
    pub classification: String,
}

pub open spec fn side_name(side_to_move: Seq<char>) -> Seq<char> {
    if side_to_move == "w"@ {
        "White"@
    } else {
        "Black"@
    }
}

pub open spec fn side_name_lower(side_to_move: Seq<char>) -> Seq<char> {
    if side_to_move == "w"@ {
        "white"@
    } else {
        "black"@
    }
}

pub open spec fn grade_label(classification: Seq<char>) -> Seq<char> {
    if classification == "blunder"@ {
        "a blunder"@
    } else if classification == "mistake"@ {
        "a mistake"@
    } else if classification == "inaccuracy"@ {
        "an inaccuracy"@
    } else {
        "a weaker move"@
    }
}

/// Up to ten moves of the line after the played move, space separated.
pub open spec fn line_ten(after: Seq<Seq<char>>) -> Seq<char> {
    join_words(after.take(if after.len() < 10 { after.len() as int } else { 10 }))
}

/// The teaching note of a move: `played_san` played by the side to move, graded
/// `classification`, costing `loss_pawns` (the loss in pawns as written); `best_san` and
/// `best_eval` describe the engine's first line and `after` the accurate replies.
pub open spec fn teaching_text(
    n: TeachingNote,
    played_san: Seq<char>,
    classification: Seq<char>,
    loss_pawns: Seq<char>,
    side_to_move: Seq<char>,
    best_san: Seq<char>,
    best_eval: Seq<char>,
    after: Seq<Seq<char>>,
    best: Option<Score>,
    played: Option<Score>,
) -> bool {
    let side = side_name(side_to_move);
    &&& n.classification@ == classification
    &&& if classification == "best"@ || classification == "excellent"@ {
        &&& n.summary@ == played_san + if classification == "best"@ {
            " is the best move."@
        } else {
            " is an excellent move."@
        }
        &&& n.why_played@ == side + " played "@ + played_san + ". Engine evaluation: "@ + score_text(played, side_to_move) + "."@
        &&& n.why_best@ == "No meaningfully better alternative."@
        &&& n.ideal_future@ == Seq::<char>::empty()
    } else {
        &&& n.summary@ == played_san + " is "@ + grade_label(classification) + ", costing about "@ + loss_pawns
            + " pawns of evaluation."@
        &&& n.why_played@ == side + " played "@ + played_san + ". Evaluation dropped from "@ + score_text(best, side_to_move)
            + " (best) to "@ + score_text(played, side_to_move) + " after this choice."@ + if after.len() > 0 {
            " Against accurate replies: "@ + line_ten(after) + "."@
        } else {
            Seq::empty()
        }
        &&& n.why_best@ == best_san + " was better, evaluating to "@ + best_eval + "."@
        &&& n.ideal_future@ == if after.len() == 0 {
            Seq::empty()
        } else {
            "If "@ + side_name_lower(side_to_move) + " had played "@ + best_san + ", ideal play could continue: "@
                + line_ten(after) + "."@
        }
    }
}

fn push_line_ten(out: &mut Vec<char>, after: &Vec<String>)
    ensures
        final(out)@ == old(out)@ + line_ten(after.deep_view()),
{
    let n: usize = if after.len() < 10 {
        after.len()
    } else {
        10
    };
    let ghost w = after.deep_view().take(n as int);
    let ghost o0 = out@;
    let mut i: usize = 0;
    while i < n
        invariant
            n <= after@.len(),
            w == after.deep_view().take(n as int),
            0 <= i <= n,
            out@ == o0 + join_words(w.take(i as int)),
        decreases n - i,
    {
        assert(w.take(i + 1).drop_last() =~= w.take(i as int));
        assert(after@[i as int]@ == w[i as int]);
        if i > 0 {
            push_str(out, " ");
        } else {
            assert(w.take(1)[0] == w[0]);
            assert(o0 + w.take(1)[0] =~= o0 + join_words(w.take(1)));
        }
        push_str(out, after[i].as_str());
        proof {
            if i > 0 {
                assert(out@ =~= o0 + join_words(w.take(i + 1)));
            }
        }
        i = i + 1;
    }
    assert(w.take(n as int) =~= w);
}

pub fn build_teaching(
    played_san: &str,
    classification: &str,
    loss_pawns: &str,
    side_to_move: &str,
    best_san: &str,
    best_eval: &str,
    after: &Vec<String>,
    best: Option<&Score>,
    played: Option<&Score>,
) -> (n: TeachingNote)
    requires
        score_text_defined(opt_score(best), side_to_move@),
        score_text_defined(opt_score(played), side_to_move@),
    ensures
        teaching_text(
            n,
            played_san@,
            classification@,
            loss_pawns@,
            side_to_move@,
            best_san@,
            best_eval@,
            after.deep_view(),
            opt_score(best),
            opt_score(played),
        ),
{
    let white = crate::text::str_eq(side_to_move, "w");
    let side = if white {
        "White"
    } else {
        "Black"
    };
    proof {
        reveal_strlit("White");
        reveal_strlit("Black");
    }
    let is_best = crate::text::str_eq(classification, "best");
    let is_excellent = crate::text::str_eq(classification, "excellent");
    if is_best || is_excellent {
        let mut summary: Vec<char> = chars_of(played_san);
        if is_best {
            push_str(&mut summary, " is the best move.");
        } else {
            push_str(&mut summary, " is an excellent move.");
        }
        let mut why: Vec<char> = Vec::new();
        push_str(&mut why, side);
        push_str(&mut why, " played ");
        push_str(&mut why, played_san);
        push_str(&mut why, ". Engine evaluation: ");
        let e = format_score(played, side_to_move);
        push_str(&mut why, e.as_str());
        push_str(&mut why, ".");
        return TeachingNote {
            summary: string_from_chars(&summary),
            why_played: string_from_chars(&why),
            why_best: "No meaningfully better alternative.".to_owned(),
            ideal_future: String::new(),
            classification: classification.to_owned(),
        };
    }
    let label = if crate::text::str_eq(classification, "blunder") {
        "a blunder"
    } else if crate::text::str_eq(classification, "mistake") {
        "a mistake"
    } else if crate::text::str_eq(classification, "inaccuracy") {
        "an inaccuracy"
    } else {
        "a weaker move"
    };
    let mut why: Vec<char> = Vec::new();
    push_str(&mut why, side);
    push_str(&mut why, " played ");
    push_str(&mut why, played_san);
    push_str(&mut why, ". Evaluation dropped from ");
    let b = format_score(best, side_to_move);
    push_str(&mut why, b.as_str());
    push_str(&mut why, " (best) to ");
    let p = format_score(played, side_to_move);
    push_str(&mut why, p.as_str());
    push_str(&mut why, " after this choice.");
    if after.len() > 0 {
        push_str(&mut why, " Against accurate replies: ");
        push_line_ten(&mut why, after);
        push_str(&mut why, ".");
    }
    assert(why@ == side_name(side_to_move@) + " played "@ + played_san@ + ". Evaluation dropped from "@ + score_text(opt_score(best), side_to_move@)
            + " (best) to "@ + score_text(opt_score(played), side_to_move@) + " after this choice."@ + if after.deep_view().len() > 0 {
            " Against accurate replies: "@ + line_ten(after.deep_view()) + "."@
        } else {
            Seq::empty()
        });
    let mut summary: Vec<char> = chars_of(played_san);
    push_str(&mut summary, " is ");
    push_str(&mut summary, label);
    push_str(&mut summary, ", costing about ");
    push_str(&mut summary, loss_pawns);
    push_str(&mut summary, " pawns of evaluation.");
    let mut why_best: Vec<char> = chars_of(best_san);
    push_str(&mut why_best, " was better, evaluating to ");
    push_str(&mut why_best, best_eval);
    push_str(&mut why_best, ".");
    let mut ideal: Vec<char> = Vec::new();
    if after.len() > 0 {
        push_str(&mut ideal, "If ");
        if white {
            push_str(&mut ideal, "white");
        } else {
            push_str(&mut ideal, "black");
        }
        push_str(&mut ideal, " had played ");
        push_str(&mut ideal, best_san);
        push_str(&mut ideal, ", ideal play could continue: ");
        push_line_ten(&mut ideal, after);
        push_str(&mut ideal, ".");
    }
    assert(after.deep_view().len() == after@.len());
    assert(ideal@ == if after.deep_view().len() == 0 {
            Seq::empty()
        } else {
            "If "@ + side_name_lower(side_to_move@) + " had played "@ + best_san@ + ", ideal play could continue: "@
                + line_ten(after.deep_view()) + "."@
        });
    assert(label@ == grade_label(classification@));
    assert(summary@ == played_san@ + " is "@ + grade_label(classification@) + ", costing about "@ + loss_pawns@
            + " pawns of evaluation."@);
    assert(why_best@ == best_san@ + " was better, evaluating to "@ + best_eval@ + "."@);
    assert(side@ == side_name(side_to_move@));
    proof {
        reveal_strlit("w");
        reveal_strlit("a blunder");
        reveal_strlit("a mistake");
        reveal_strlit("an inaccuracy");
        reveal_strlit("a weaker move");
    }
    TeachingNote {
        summary: string_from_chars(&summary),
        why_played: string_from_chars(&why),
        why_best: string_from_chars(&why_best),
        ideal_future: string_from_chars(&ideal),
        classification: classification.to_owned(),
    }
}

// ---------------------------------------------------------------------------
// The record of a ply
// ---------------------------------------------------------------------------

/// One of the engine's best lines, as the analysis keeps it.
#[derive(Debug, Clone)]
pub struct BestLine {
    pub uci: Option<String>,
    pub san: Option<String>,
    pub eval: Score,
    pub eval_text: String,
    /// The evaluation from White's side, in centipawns.
    pub eval_white_cp: i64,
    pub pv_uci: Vec<String>,
    pub pv_san: Vec<String>,
    pub depth: Option<u32>,
}

/// A line of play with its evaluation.
#[derive(Debug, Clone)]
pub struct LineEval {
    pub pv_san: Vec<String>,
    pub eval: Option<Score>,
    pub eval_text: String,
}

/// Everything the analysis keeps about one ply. Evaluations from White's side are in
/// centipawns.
#[derive(Debug, Clone)]
pub struct PlyAnalysis {
    pub ply: u32,
    pub san: String,
    pub uci: String,
    pub color: String,
    pub fen_before: String,
    pub fen_after: String,
    pub classification: String,
    pub loss_cp: i32,
    pub eval_before_best: Option<Score>,
    pub eval_played: Option<Score>,
    pub eval_before_best_text: String,
    pub eval_played_text: String,
    pub eval_white_best: Option<i64>,
    pub eval_white_played: Option<i64>,
    pub best_moves: Vec<BestLine>,
    pub played_line: LineEval,
    pub ideal_after_played: LineEval,
    pub teaching: TeachingNote,
}

pub open spec fn first_score(lines: Seq<InfoView>) -> Option<Score> {
    if lines.len() > 0 {
        Some(lines[0].score)
    } else {
        None
    }
}

pub open spec fn score_of(l: Option<InfoView>) -> Option<Score> {
    match l {
        Some(x) => Some(x.score),
        None => None,
    }
}

pub open spec fn white_cp_of(s: Option<Score>, side: Seq<char>) -> Option<int> {
    match s {
        Some(x) => Some(white_cp(x, side)),
        None => None,
    }
}

pub open spec fn opt_i64(o: Option<i64>) -> Option<int> {
    match o {
        Some(v) => Some(v as int),
        None => None,
    }
}

/// A best line kept for the position `fen` with `side` to move.
pub open spec fn best_line_is(b: BestLine, l: InfoView, fen: Seq<char>, side: Seq<char>) -> bool {
    &&& b.uci.deep_view() == first_word(l.pv)
    &&& b.san.deep_view() == first_word(pv_sans(fen, l.pv))
    &&& b.eval == l.score
    &&& b.eval_text@ == score_text(Some(l.score), side)
    &&& b.eval_white_cp == white_cp(l.score, side)
    &&& b.pv_uci.deep_view() == l.pv
    &&& b.pv_san.deep_view() == pv_sans(fen, l.pv)
    &&& b.depth == l.depth
}

pub open spec fn line_eval_is(e: LineEval, pv_san: Seq<Seq<char>>, score: Option<Score>, side: Seq<char>) -> bool {
    &&& e.pv_san.deep_view() == pv_san
    &&& e.eval == score
    &&& e.eval_text@ == score_text(score, side)
}

/// The lines shown for a position: the first `multipv`.
pub open spec fn shown_lines(lines: Seq<InfoView>, multipv: u32) -> Seq<InfoView> {
    lines.take(if multipv < lines.len() { multipv as int } else { lines.len() as int })
}

/// The record of a ply from the engine's lines before it (`lines`), its line for the
/// move played (`played`), and the line after the move (`cont`); `loss_pawns` is the
/// loss in pawns as the program writes it.
pub open spec fn ply_record_is(
    r: PlyAnalysis,
    job: PlyJob,
    lines: Seq<InfoView>,
    played: Option<InfoView>,
    cont: Option<InfoView>,
    multipv: u32,
    loss_pawns: Seq<char>,
) -> bool {
    let side = job.side_to_move@;
    let best = first_score(lines);
    let pscore = score_of(played);
    let loss = cp_loss(best, pscore);
    let class = loss_class(loss, best, pscore)@;
    let shown = shown_lines(lines, multipv);
    let played_pv = match played {
        Some(l) => l.pv,
        None => seq![job.uci@],
    };
    let after_pv = match cont {
        Some(l) => l.pv,
        None => Seq::empty(),
    };
    let after_san = pv_sans(job.after_fen@, after_pv);
    let best_san = if shown.len() > 0 {
        match first_word(pv_sans(job.before_fen@, shown[0].pv)) {
            Some(x) => x,
            None => "?"@,
        }
    } else {
        "?"@
    };
    let best_eval = if shown.len() > 0 {
        score_text(Some(shown[0].score), side)
    } else {
        "—"@
    };
    &&& r.ply == job.ply
    &&& r.san@ == job.san@
    &&& r.uci@ == job.uci@
    &&& r.color@ == side
    &&& r.fen_before@ == job.before_fen@
    &&& r.fen_after@ == job.after_fen@
    &&& r.classification@ == class
    &&& r.loss_cp == loss
    &&& r.eval_before_best == best
    &&& r.eval_played == pscore
    &&& r.eval_before_best_text@ == score_text(best, side)
    &&& r.eval_played_text@ == score_text(pscore, side)
    &&& opt_i64(r.eval_white_best) == white_cp_of(best, side)
    &&& opt_i64(r.eval_white_played) == white_cp_of(pscore, side)
    &&& r.best_moves@.len() == shown.len()
    &&& forall|k: int| 0 <= k < shown.len() ==> best_line_is(#[trigger] r.best_moves@[k], shown[k], job.before_fen@, side)
    &&& line_eval_is(r.played_line, pv_sans(job.before_fen@, played_pv), pscore, side)
    &&& line_eval_is(r.ideal_after_played, after_san, score_of(cont), job.after_side@)
    &&& teaching_text(r.teaching, job.san@, class, loss_pawns, side, best_san, best_eval, after_san, best, pscore)
}

/// The engine's scores can be written and compared without overflow.
pub open spec fn ply_scores_fit(job: PlyJob, lines: Seq<InfoView>, played: Option<InfoView>, cont: Option<InfoView>) -> bool {
    &&& forall|k: int| 0 <= k < lines.len() ==> score_text_defined(Some(#[trigger] lines[k].score), job.side_to_move@)
    &&& score_text_defined(score_of(played), job.side_to_move@)
    &&& score_text_defined(score_of(cont), job.after_side@)
    &&& cp_loss_defined(first_score(lines), score_of(played))
}

fn opt_first(v: &Vec<String>) -> (r: Option<String>)
    ensures
        opt_text_of(r) == first_word(v.deep_view()),
{
    if v.len() > 0 {
        assert(v@[0]@ == v.deep_view()[0]);
        Some(v[0].clone())
    } else {
        None
    }
}

pub open spec fn opt_text_of(o: Option<String>) -> Option<Seq<char>> {
    match o {
        Some(s) => Some(s@),
        None => None,
    }
}

fn copy_words(v: &Vec<String>) -> (r: Vec<String>)
    ensures
        r.deep_view() == v.deep_view(),
{
    let mut r: Vec<String> = Vec::new();
    let mut i: usize = 0;
    while i < v.len()
        invariant
            0 <= i <= v@.len(),
            r.deep_view() == v.deep_view().take(i as int),
        decreases v@.len() - i,
    {
        let ghost before = r.deep_view();
        r.push(v[i].clone());
        proof {
            assert(v@[i as int]@ == v.deep_view()[i as int]);
            assert(r.deep_view() =~= before.push(v.deep_view()[i as int]));
            assert(v.deep_view().take(i + 1) =~= v.deep_view().take(i as int).push(v.deep_view()[i as int]));
        }
        i = i + 1;
    }
    assert(v.deep_view().take(v@.len() as int) =~= v.deep_view());
    r
}

fn best_line(l: &InfoLine, fen: &str, side: &str) -> (b: BestLine)
    requires
        score_text_defined(Some(l.score), side@),
    ensures
        best_line_is(b, l@, fen@, side@),
{
    let san_line = uci_pv_to_san(fen, &l.pv);
    BestLine {
        uci: opt_first(&l.pv),
        san: opt_first(&san_line),
        eval: l.score,
        eval_text: format_score(Some(&l.score), side),
        eval_white_cp: score_to_white_cp(&l.score, side),
        pv_uci: copy_words(&l.pv),
        pv_san: san_line,
        depth: l.depth,
    }
}

fn best_lines(lines: &Vec<InfoLine>, multipv: u32, fen: &str, side: &str) -> (r: Vec<BestLine>)
    requires
        forall|k: int| 0 <= k < lines@.len() ==> score_text_defined(Some(#[trigger] lines@[k]@.score), side@),
    ensures
        r@.len() == shown_lines(views_of(lines@), multipv).len(),
        forall|k: int| 0 <= k < r@.len() ==> best_line_is(#[trigger] r@[k], shown_lines(views_of(lines@), multipv)[k], fen@, side@),
{
    let n: usize = if (multipv as usize) < lines.len() {
        multipv as usize
    } else {
        lines.len()
    };
    let ghost shown = shown_lines(views_of(lines@), multipv);
    let mut r: Vec<BestLine> = Vec::new();
    let mut i: usize = 0;
    while i < n
        invariant
            n == shown.len(),
            n <= lines@.len(),
            shown == shown_lines(views_of(lines@), multipv),
            forall|k: int| 0 <= k < lines@.len() ==> score_text_defined(Some(#[trigger] lines@[k]@.score), side@),
            0 <= i <= n,
            r@.len() == i,
            forall|k: int| 0 <= k < i ==> best_line_is(#[trigger] r@[k], shown[k], fen@, side@),
        decreases n - i,
    {
        assert(shown[i as int] == lines@[i as int]@);
        assert(score_text_defined(Some(lines@[i as int]@.score), side@));
        let b = best_line(&lines[i], fen, side);
        r.push(b);
        i = i + 1;
    }
    r
}

fn line_eval(fen: &str, pv: &Vec<String>, score: Option<&Score>, side: &str) -> (e: LineEval)
    requires
        score_text_defined(opt_score(score), side@),
    ensures
        line_eval_is(e, pv_sans(fen@, pv.deep_view()), opt_score(score), side@),
{
    LineEval {
        pv_san: uci_pv_to_san(fen, pv),
        eval: match score {
            Some(s) => Some(*s),
            None => None,
        },
        eval_text: format_score(score, side),
    }
}

fn white_of(score: Option<&Score>, side: &str) -> (r: Option<i64>)
    ensures
        opt_i64(r) == white_cp_of(opt_score(score), side@),
{
    match score {
        Some(s) => Some(score_to_white_cp(s, side)),
        None => None,
    }
}

/// The record of one ply, from the engine's lines for the position before the move,
/// its line for the move played (if any), and its line for the position after.
pub fn ply_record(
    job: &PlyJob,
    lines: &Vec<InfoLine>,
    played: Option<&InfoLine>,
    cont: Option<&InfoLine>,
    multipv: u32,
    loss_pawns: &str,
) -> (r: PlyAnalysis)
    requires
        ply_scores_fit(*job, views_of(lines@), opt_view(played), opt_view(cont)),
    ensures
        ply_record_is(r, *job, views_of(lines@), opt_view(played), opt_view(cont), multipv, loss_pawns@),
{
    let ghost vs = views_of(lines@);
    let side = job.side_to_move.as_str();
    let best: Option<&Score> = if lines.len() > 0 {
        Some(&lines[0].score)
    } else {
        None
    };
    assert(opt_score(best) == first_score(vs));
    let pscore: Option<&Score> = match played {
        Some(l) => Some(&l.score),
        None => None,
    };
    assert(opt_score(pscore) == score_of(opt_view(played)));
    let loss = centipawn_loss(best, pscore);
    let class = classify_loss(loss, best, pscore);
    proof {
        assert forall|k: int| 0 <= k < lines@.len() implies score_text_defined(Some(#[trigger] lines@[k]@.score), side@) by {
            assert(vs[k] == lines@[k]@);
        }
        if lines@.len() > 0 {
            assert(vs[0] == lines@[0]@);
        }
    }
    let best_moves = best_lines(lines, multipv, job.before_fen.as_str(), side);
    let played_pv: Vec<String> = match played {
        Some(l) => copy_words(&l.pv),
        None => {
            let mut v: Vec<String> = Vec::new();
            v.push(job.uci.clone());
            assert(v.deep_view() =~= seq![job.uci@]);
            v
        },
    };
    let after_pv: Vec<String> = match cont {
        Some(l) => copy_words(&l.pv),
        None => {
            let v: Vec<String> = Vec::new();
            assert(v.deep_view() =~= Seq::<Seq<char>>::empty());
            v
        },
    };
    let cscore: Option<&Score> = match cont {
        Some(l) => Some(&l.score),
        None => None,
    };
    let played_line = line_eval(job.before_fen.as_str(), &played_pv, pscore, side);
    let ideal = line_eval(job.after_fen.as_str(), &after_pv, cscore, job.after_side.as_str());
    let after_san = uci_pv_to_san(job.after_fen.as_str(), &after_pv);
    let ghost shown = shown_lines(vs, multipv);
    let best_san: String = if best_moves.len() > 0 {
        match &best_moves[0].san {
            Some(x) => x.clone(),
            None => "?".to_owned(),
        }
    } else {
        "?".to_owned()
    };
    let best_eval: String = if best_moves.len() > 0 {
        best_moves[0].eval_text.clone()
    } else {
        "—".to_owned()
    };
    proof {
        if best_moves@.len() > 0 {
            assert(best_line_is(best_moves@[0], shown[0], job.before_fen@, side@));
        }
    }
    let teaching = build_teaching(
        job.san.as_str(),
        class,
        loss_pawns,
        side,
        best_san.as_str(),
        best_eval.as_str(),
        &after_san,
        best,
        pscore,
    );
    PlyAnalysis {
        ply: job.ply,
        san: job.san.clone(),
        uci: job.uci.clone(),
        color: job.side_to_move.clone(),
        fen_before: job.before_fen.clone(),
        fen_after: job.after_fen.clone(),
        classification: class.to_owned(),
        loss_cp: loss,
        eval_before_best: match best {
            Some(s) => Some(*s),
            None => None,
        },
        eval_played: match pscore {
            Some(s) => Some(*s),
            None => None,
        },
        eval_before_best_text: format_score(best, side),
        eval_played_text: format_score(pscore, side),
        eval_white_best: white_of(best, side),
        eval_white_played: white_of(pscore, side),
        best_moves,
        played_line,
        ideal_after_played: ideal,
        teaching,
    }
}

} // verus!
