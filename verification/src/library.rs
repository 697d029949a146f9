//! The game library: where its files live, how games are ordered, and the in-memory
//! queries and updates the program makes on it.
use vstd::prelude::*;

use crate::engine::{join_path, join_relative};
use crate::chess_util::{last_of, movetext_defined, pgn_moves, pgn_tail, PgnTail};
use crate::models::{opt_time_before, opt_time_is_before, Game, GameAnalysis, LibraryFile, Settings};
use crate::rules::{board_fen, start_fen_spec};
use crate::text::{str_eq, text_bytes};

verus! {

pub struct Library {
    pub path: String,
    pub games: Vec<Game>,
    pub settings: Settings,
}

/// What `Path::parent` gives for a path: the path without its last component, or
/// `None` where the path ends in a root or prefix or is empty.
pub uninterp spec fn path_parent(p: Seq<char>) -> Option<Seq<char>>;

/// `Path::parent` on `p`.
#[verifier::external_body]
fn parent_of(p: &str) -> (r: Option<String>)
    ensures
        match r {
            Some(q) => path_parent(p@) == Some(q@),
            None => path_parent(p@) is None,
        },
{
    std::path::Path::new(p).parent().map(|q| q.to_string_lossy().into_owned())
}

/// The index file beside a database: `db-index.json` in its directory (`.` where the
/// path has no parent).
pub open spec fn index_path_in(parent: Option<Seq<char>>) -> Seq<char> {
    let dir = match parent {
        Some(q) => q,
        None => "."@,
    };
    join_relative(dir, "db-index.json"@)
}

/// The index path for a database whose directory is already known.
pub fn index_path_from_parent(parent: Option<&str>) -> (p: String)
    ensures
        p@ == index_path_in(match parent { Some(q) => Some(q@), None => None }),
{
    match parent {
        Some(q) => join_path(q, "db-index.json"),
        None => join_path(".", "db-index.json"),
    }
}

pub fn index_path_for(db_path: &str) -> (p: String)
    ensures
        p@ == index_path_in(path_parent(db_path@)),
{
    match parent_of(db_path) {
        Some(q) => index_path_from_parent(Some(q.as_str())),
        None => index_path_from_parent(None),
    }
}

pub fn empty_library(path: String) -> (l: Library)
    ensures
        l.path == path,
        l.games@.len() == 0,
        l.settings.my_username is None,
{
    Library { path, games: Vec::new(), settings: Settings::new() }
}

// ---------------------------------------------------------------------------
// Newest first
// ---------------------------------------------------------------------------

/// `r` is `g` reordered by `perm` (`r[k]` is `g[perm[k]]`) so that no game comes
/// before one played later, games played at the same instant keeping their order.
pub open spec fn newest_first_by(g: Seq<Game>, r: Seq<Game>, perm: Seq<int>) -> bool {
    &&& r.len() == g.len()
    &&& perm.len() == g.len()
    &&& forall|k: int| 0 <= k < r.len() ==> 0 <= #[trigger] perm[k] < g.len() && r[k] == g[perm[k]]
    &&& forall|k: int, l: int| 0 <= k < l < r.len() ==> #[trigger] perm[k] != #[trigger] perm[l]
    &&& forall|k: int, l: int|
        0 <= k < l < r.len() ==> !opt_time_before(#[trigger] r[k].played_at, #[trigger] r[l].played_at)
    &&& forall|k: int, l: int|
        0 <= k < l < r.len() && #[trigger] r[k].played_at == #[trigger] r[l].played_at ==> perm[k]
            < perm[l]
}

/// `r` holds the games of `g`, newest first, stably.
pub open spec fn newest_first(g: Seq<Game>, r: Seq<Game>) -> bool {
    exists|perm: Seq<int>| newest_first_by(g, r, perm)
}

/// The games newest first (no date counts as oldest); games of the same instant keep
/// their order.
pub fn sorted_games(games: Vec<Game>) -> (r: Vec<Game>)
    ensures
        newest_first(games@, r@),
{
    let ghost g = games@;
    let n = games.len();
    let mut src = games;
    let mut out: Vec<Game> = Vec::new();
    let ghost mut perm: Seq<int> = Seq::empty();
    while src.len() > 0
        invariant
            n == g.len(),
            src@.len() <= n,
            src@ == g.subrange(n - src@.len(), n as int),
            newest_first_by(g.subrange(0, n - src@.len()), out@, perm),
        decreases src@.len(),
    {
        let ghost i: int = n - src@.len();
        let ghost o0 = out@;
        let ghost p0 = perm;
        let x = src.remove(0);
        assert(x == g[i]);
        let mut pos: usize = out.len();
        while pos > 0 && opt_time_is_before(out[pos - 1].played_at, x.played_at)
            invariant
                out@ == o0,
                0 <= pos <= o0.len(),
                forall|l: int| pos <= l < o0.len() ==> opt_time_before(#[trigger] o0[l].played_at, x.played_at),
            decreases pos,
        {
            pos = pos - 1;
        }
        out.insert(pos, x);
        proof {
            perm = p0.insert(pos as int, i);
            let gi = g.subrange(0, i + 1);
            let r = out@;
            assert(g.subrange(0, i) =~= gi.subrange(0, i));
            assert forall|k: int| 0 <= k < r.len() implies 0 <= #[trigger] perm[k] < gi.len() && r[k]
                == gi[perm[k]] by {
                if k < pos {
                    assert(perm[k] == p0[k] && r[k] == o0[k]);
                } else if k > pos {
                    assert(perm[k] == p0[k - 1] && r[k] == o0[k - 1]);
                }
            }
            assert forall|k: int, l: int| 0 <= k < l < r.len() implies #[trigger] perm[k]
                != #[trigger] perm[l] by {
                if k != pos && l != pos {
                    let k0 = if k < pos { k } else { k - 1 };
                    let l0 = if l < pos { l } else { l - 1 };
                    assert(perm[k] == p0[k0] && perm[l] == p0[l0]);
                } else if k == pos {
                    let l0 = l - 1;
                    assert(perm[l] == p0[l0]);
                } else {
                    assert(perm[k] == p0[k]);
                }
            }
            assert forall|k: int, l: int| 0 <= k < l < r.len() implies !opt_time_before(
                #[trigger] r[k].played_at,
                #[trigger] r[l].played_at,
            ) by {
                if k != pos && l != pos {
                    let k0 = if k < pos { k } else { k - 1 };
                    let l0 = if l < pos { l } else { l - 1 };
                    assert(r[k] == o0[k0] && r[l] == o0[l0]);
                } else if k == pos {
                    assert(r[l] == o0[l - 1]);
                    assert(opt_time_before(o0[l - 1].played_at, x.played_at));
                } else {
                    assert(r[k] == o0[k]);
                    assert(!opt_time_before(o0[pos - 1].played_at, x.played_at));
                    if k < pos - 1 {
                        assert(!opt_time_before(o0[k].played_at, o0[pos - 1].played_at));
                    }
                }
            }
            assert forall|k: int, l: int|
                0 <= k < l < r.len() && #[trigger] r[k].played_at == #[trigger] r[l].played_at implies perm[k]
                < perm[l] by {
                if k != pos && l != pos {
                    let k0 = if k < pos { k } else { k - 1 };
                    let l0 = if l < pos { l } else { l - 1 };
                    assert(r[k] == o0[k0] && r[l] == o0[l0]);
                    assert(perm[k] == p0[k0] && perm[l] == p0[l0]);
                } else if k == pos {
                    assert(r[l] == o0[l - 1]);
                    assert(opt_time_before(o0[l - 1].played_at, x.played_at));
                } else {
                    assert(perm[k] == p0[k]);
                    assert(0 <= p0[k] < i);
                }
            }
            assert(src@ =~= g.subrange(n - src@.len(), n as int));
        }
    }
    proof {
        assert(g.subrange(0, n as int) =~= g);
    }
    out
}

/// A library read from a database or index file: its games newest first.
pub fn library_from_file(path: String, file: LibraryFile) -> (l: Library)
    ensures
        l.path == path,
        newest_first(file.games@, l.games@),
        l.settings == file.settings,
{
    Library { path, games: sorted_games(file.games), settings: file.settings }
}

/// A game as the index holds it: the same game without its analysis.
pub open spec fn index_row(g: Game) -> Game {
    Game { analysis: None, ..g }
}

/// Writing the index and reading it back changes nothing more: an index row read again
/// as an index row is the same row.
pub proof fn law_index_row_stable(g: Game)
    ensures
        index_row(index_row(g)) == index_row(g),
{
}

/// The rows of the index: each game without its analysis, every other field kept.
pub fn index_games(games: Vec<Game>) -> (r: Vec<Game>)
    ensures
        r@.len() == games@.len(),
        forall|k: int| 0 <= k < r@.len() ==> #[trigger] r@[k] == index_row(games@[k]),
{
    let ghost g = games@;
    let mut games = games;
    let n = games.len();
    let mut i: usize = 0;
    while i < n
        invariant
            n == g.len(),
            games@.len() == n,
            0 <= i <= n,
            forall|k: int| 0 <= k < i ==> #[trigger] games@[k] == index_row(g[k]),
            forall|k: int| i <= k < n ==> #[trigger] games@[k] == g[k],
        decreases n - i,
    {
        games[i].analysis = None;
        i = i + 1;
    }
    games
}

/// A game read from the full database without its analysis: marked analysed where the
/// database holds an analysis for it, whatever the analysis holds.
pub open spec fn lite_row(g: Game) -> Game {
    Game { has_analysis: g.has_analysis || g.analysis is Some, analysis: None, ..g }
}

/// The games of the full database, read without their analyses (`lite_row`).
pub fn lite_games(games: Vec<Game>) -> (r: Vec<Game>)
    ensures
        r@.len() == games@.len(),
        forall|k: int| 0 <= k < r@.len() ==> #[trigger] r@[k] == lite_row(games@[k]),
{
    let ghost g = games@;
    let mut games = games;
    let n = games.len();
    let mut i: usize = 0;
    while i < n
        invariant
            n == g.len(),
            games@.len() == n,
            0 <= i <= n,
            forall|k: int| 0 <= k < i ==> #[trigger] games@[k] == lite_row(g[k]),
            forall|k: int| i <= k < n ==> #[trigger] games@[k] == g[k],
        decreases n - i,
    {
        let present = games[i].analysis.is_some();
        games[i].has_analysis = games[i].has_analysis || present;
        games[i].analysis = None;
        i = i + 1;
    }
    games
}

/// The games that are analysed, in order.
pub open spec fn analyzed_of(s: Seq<Game>) -> Seq<Game>
    decreases s.len(),
{
    if s.len() == 0 {
        Seq::empty()
    } else if s.last().analyzed() {
        analyzed_of(s.drop_last()).push(s.last())
    } else {
        analyzed_of(s.drop_last())
    }
}

/// The games that are not analysed, in order.
pub open spec fn unanalyzed_of(s: Seq<Game>) -> Seq<Game>
    decreases s.len(),
{
    if s.len() == 0 {
        Seq::empty()
    } else if !s.last().analyzed() {
        unanalyzed_of(s.drop_last()).push(s.last())
    } else {
        unanalyzed_of(s.drop_last())
    }
}

/// The game matches an (id, game type) key.
pub open spec fn has_key(g: Game, id: Seq<char>, game_type: Seq<char>) -> bool {
    g.id@ == id && g.game_type@ == game_type
}

/// The first game matching the key.
pub open spec fn first_with_key(s: Seq<Game>, id: Seq<char>, game_type: Seq<char>) -> Option<int> {
    if exists|i: int| 0 <= i < s.len() && has_key(s[i], id, game_type) {
        Some(choose|i: int| 0 <= i < s.len() && has_key(s[i], id, game_type) && forall|j: int|
            0 <= j < i ==> !has_key(#[trigger] s[j], id, game_type))
    } else {
        None
    }
}

proof fn lemma_first_with_key(s: Seq<Game>, id: Seq<char>, game_type: Seq<char>, i: int)
    requires
        0 <= i < s.len(),
        has_key(s[i], id, game_type),
        forall|j: int| 0 <= j < i ==> !has_key(#[trigger] s[j], id, game_type),
    ensures
        first_with_key(s, id, game_type) == Some(i),
{
    let k = choose|k: int| 0 <= k < s.len() && has_key(s[k], id, game_type) && forall|j: int|
        0 <= j < k ==> !has_key(#[trigger] s[j], id, game_type);
    assert(0 <= k < s.len() && has_key(s[k], id, game_type));
    if k < i {
        assert(!has_key(s[k], id, game_type));
    }
    if i < k {
        assert(!has_key(s[i], id, game_type));
    }
}

/// Games whose end position is still to be filled in.
pub open spec fn missing_end(s: Seq<Game>) -> nat
    decreases s.len(),
{
    if s.len() == 0 {
        0
    } else {
        missing_end(s.drop_last()) + if s.last().end_fen is None { 1nat } else { 0nat }
    }
}

/// A game whose end position was filled in from its PGN.
pub open spec fn with_end_of_pgn(g: Game, r: Game) -> bool {
    let ms = pgn_moves(g.pgn@);
    &&& r == Game { end_fen: r.end_fen, end_ply: r.end_ply, end_uci: r.end_uci, ..g }
    &&& r.end_fen matches Some(f) && f@ == board_fen(start_fen_spec(), ms)
    &&& r.end_ply == Some(ms.len() as u32)
    &&& r.end_uci.deep_view() == last_of(ms)
}

/// The games with the first one of the key marked reviewed.
pub open spec fn marked_reviewed(games: Seq<Game>, id: Seq<char>, game_type: Seq<char>) -> Seq<Game> {
    match first_with_key(games, id, game_type) {
        Some(i) => games.update(i, Game { reviewed: true, ..games[i] }),
        None => games,
    }
}

/// Marking a game reviewed twice is marking it once: the second mark finds the same
/// game and changes nothing.
pub proof fn law_mark_reviewed_idempotent(games: Seq<Game>, id: Seq<char>, game_type: Seq<char>)
    ensures
        marked_reviewed(marked_reviewed(games, id, game_type), id, game_type) == marked_reviewed(
            games,
            id,
            game_type,
        ),
        first_with_key(marked_reviewed(games, id, game_type), id, game_type) matches Some(i)
            ==> marked_reviewed(games, id, game_type)[i].reviewed,
{
    let once = marked_reviewed(games, id, game_type);
    match first_with_key(games, id, game_type) {
        Some(i) => {
            lemma_first_with_key_is(games, id, game_type);
            assert forall|j: int| 0 <= j < once.len() implies has_key(#[trigger] once[j], id, game_type) == has_key(
                games[j],
                id,
                game_type,
            ) by {}
            lemma_first_with_key(once, id, game_type, i);
            assert(once.update(i, Game { reviewed: true, ..once[i] }) =~= once);
        },
        None => {},
    }
}

/// The first game of the key is at its index, and none before it has the key.
proof fn lemma_first_with_key_is(s: Seq<Game>, id: Seq<char>, game_type: Seq<char>)
    requires
        first_with_key(s, id, game_type) is Some,
    ensures
        ({
            let i = first_with_key(s, id, game_type)->0;
            &&& 0 <= i < s.len()
            &&& has_key(s[i], id, game_type)
            &&& forall|j: int| 0 <= j < i ==> !has_key(#[trigger] s[j], id, game_type)
        }),
{
    let w = choose|i: int| 0 <= i < s.len() && has_key(s[i], id, game_type);
    assert(exists|i: int| 0 <= i < s.len() && has_key(s[i], id, game_type));
    lemma_least_key(s, id, game_type, w);
}

proof fn lemma_least_key(s: Seq<Game>, id: Seq<char>, game_type: Seq<char>, w: int)
    requires
        0 <= w < s.len(),
        has_key(s[w], id, game_type),
    ensures
        exists|i: int| 0 <= i < s.len() && has_key(s[i], id, game_type) && forall|j: int|
            0 <= j < i ==> !has_key(#[trigger] s[j], id, game_type),
    decreases w,
{
    if exists|j: int| 0 <= j < w && has_key(s[j], id, game_type) {
        let j = choose|j: int| 0 <= j < w && has_key(s[j], id, game_type);
        lemma_least_key(s, id, game_type, j);
    } else {
        assert(forall|j: int| 0 <= j < w ==> !has_key(#[trigger] s[j], id, game_type));
    }
}

impl Library {
    /// Puts the games newest first (stably).
    pub fn sort_newest_first(&mut self)
        ensures
            final(self).path == old(self).path,
            final(self).settings == old(self).settings,
            newest_first(old(self).games@, final(self).games@),
    {
        let mut games: Vec<Game> = Vec::new();
        std::mem::swap(&mut games, &mut self.games);
        self.games = sorted_games(games);
    }

    /// Up to `limit` games still worth opening: the analysed ones first, then the others,
    /// each in library order.
    pub fn still_open(&self, limit: usize) -> (r: Vec<&Game>)
        ensures
            forall|k: int| 0 <= k < r@.len() ==> *r@[k] == (analyzed_of(self.games@) + unanalyzed_of(
                self.games@,
            ))[k],
            r@.len() == if analyzed_of(self.games@).len() + unanalyzed_of(self.games@).len() < limit {
                (analyzed_of(self.games@).len() + unanalyzed_of(self.games@).len()) as int
            } else {
                limit as int
            },
    {
        let ghost g = self.games@;
        let n = self.games.len();
        let mut open: Vec<&Game> = Vec::new();
        let mut i: usize = 0;
        while i < n
            invariant
                n == g.len(),
                g == self.games@,
                0 <= i <= n,
                open@.len() == analyzed_of(g.take(i as int)).len(),
                forall|k: int| 0 <= k < open@.len() ==> *open@[k] == analyzed_of(g.take(i as int))[k],
            decreases n - i,
        {
            assert(g.take(i + 1).drop_last() =~= g.take(i as int));
            if self.games[i].is_analyzed() {
                open.push(&self.games[i]);
            }
            i = i + 1;
        }
        assert(g.take(n as int) =~= g);
        let ghost a = analyzed_of(g);
        if open.len() < limit {
            let mut j: usize = 0;
            while j < n && open.len() < limit
                invariant
                    n == g.len(),
                    g == self.games@,
                    0 <= j <= n,
                    a == analyzed_of(g),
                    a.len() < limit,
                    open@.len() <= limit,
                    open@.len() == a.len() + unanalyzed_of(g.take(j as int)).len(),
                    forall|k: int| 0 <= k < open@.len() ==> *open@[k] == (a + unanalyzed_of(
                        g.take(j as int),
                    ))[k],
                decreases n - j,
            {
                assert(g.take(j + 1).drop_last() =~= g.take(j as int));
                if !self.games[j].is_analyzed() {
                    open.push(&self.games[j]);
                }
                j = j + 1;
            }
            proof {
                lemma_unanalyzed_prefix(g, j as int);
            }
        } else {
            open.truncate(limit);
            proof {
                assert forall|k: int| 0 <= k < open@.len() implies *open@[k] == (analyzed_of(g) + unanalyzed_of(g))[k] by {
                    assert(*open@[k] == a[k]);
                }
            }
        }
        open
    }

    /// The first `limit` games.
    pub fn recent(&self, limit: usize) -> (r: Vec<&Game>)
        ensures
            r@.len() == if self.games@.len() < limit { self.games@.len() as int } else { limit as int },
            forall|k: int| 0 <= k < r@.len() ==> *r@[k] == self.games@[k],
    {
        let mut r: Vec<&Game> = Vec::new();
        let mut i: usize = 0;
        while i < self.games.len() && i < limit
            invariant
                0 <= i <= self.games@.len(),
                i <= limit,
                r@.len() == i,
                forall|k: int| 0 <= k < i ==> *r@[k] == self.games@[k],
            decreases self.games@.len() - i,
        {
            r.push(&self.games[i]);
            i = i + 1;
        }
        r
    }

    /// The first game with this id and game type.
    pub fn find(&self, id: &str, game_type: &str) -> (r: Option<&Game>)
        ensures
            match first_with_key(self.games@, id@, game_type@) {
                Some(i) => r matches Some(g) && *g == self.games@[i],
                None => r is None,
            },
    {
        match self.position_of(id, game_type) {
            Some(i) => Some(&self.games[i]),
            None => None,
        }
    }

    pub fn position_of(&self, id: &str, game_type: &str) -> (r: Option<usize>)
        ensures
            match r {
                Some(i) => i < self.games@.len() && first_with_key(self.games@, id@, game_type@) == Some(i as int),
                None => first_with_key(self.games@, id@, game_type@) is None,
            },
    {
        let mut i: usize = 0;
        while i < self.games.len()
            invariant
                0 <= i <= self.games@.len(),
                forall|j: int| 0 <= j < i ==> !has_key(#[trigger] self.games@[j], id@, game_type@),
            decreases self.games@.len() - i,
        {
            if str_eq(self.games[i].id.as_str(), id) && str_eq(self.games[i].game_type.as_str(), game_type) {
                proof {
                    lemma_first_with_key(self.games@, id@, game_type@, i as int);
                }
                return Some(i);
            }
            i = i + 1;
        }
        None
    }

    /// The (id, game type) of every game not yet analysed, in library order.
    #[verifier::spinoff_prover]
    pub fn unanalyzed_ids(&self) -> (r: Vec<(String, String)>)
        ensures
            r@.len() == unanalyzed_of(self.games@).len(),
            forall|k: int| 0 <= k < r@.len() ==> #[trigger] r@[k].0@ == unanalyzed_of(self.games@)[k].id@
                && r@[k].1@ == unanalyzed_of(self.games@)[k].game_type@,
    {
        let ghost g = self.games@;
        let n = self.games.len();
        let mut r: Vec<(String, String)> = Vec::new();
        let mut i: usize = 0;
        while i < n
            invariant
                n == g.len(),
                g == self.games@,
                0 <= i <= n,
                r@.len() == unanalyzed_of(g.take(i as int)).len(),
                forall|k: int| 0 <= k < r@.len() ==> #[trigger] r@[k].0@ == unanalyzed_of(g.take(i as int))[k].id@
                    && r@[k].1@ == unanalyzed_of(g.take(i as int))[k].game_type@,
            decreases n - i,
        {
            assert(g.take(i + 1).drop_last() =~= g.take(i as int));
            if !self.games[i].is_analyzed() {
                let id = self.games[i].id.clone();
                let gt = self.games[i].game_type.clone();
                r.push((id, gt));
            }
            i = i + 1;
        }
        assert(g.take(n as int) =~= g);
        r
    }

    /// The (id, game type, PGN) of every game not yet analysed, in library order: the
    /// jobs of "analyze all".
    pub fn unanalyzed_jobs(&self) -> (r: Vec<(String, String, String)>)
        ensures
            r@.len() == unanalyzed_of(self.games@).len(),
            forall|k: int| 0 <= k < r@.len() ==> #[trigger] r@[k].0@ == unanalyzed_of(self.games@)[k].id@
                && r@[k].1@ == unanalyzed_of(self.games@)[k].game_type@ && r@[k].2@ == unanalyzed_of(
                self.games@,
            )[k].pgn@,
    {
        let ghost g = self.games@;
        let n = self.games.len();
        let mut r: Vec<(String, String, String)> = Vec::new();
        let mut i: usize = 0;
        while i < n
            invariant
                n == g.len(),
                g == self.games@,
                0 <= i <= n,
                r@.len() == unanalyzed_of(g.take(i as int)).len(),
                forall|k: int| 0 <= k < r@.len() ==> #[trigger] r@[k].0@ == unanalyzed_of(g.take(i as int))[k].id@
                    && r@[k].1@ == unanalyzed_of(g.take(i as int))[k].game_type@ && r@[k].2@ == unanalyzed_of(
                    g.take(i as int),
                )[k].pgn@,
            decreases n - i,
        {
            assert(g.take(i + 1).drop_last() =~= g.take(i as int));
            assert(g.take(i + 1).last() == g[i as int]);
            let ghost before = unanalyzed_of(g.take(i as int));
            if !self.games[i].is_analyzed() {
                let id = self.games[i].id.clone();
                let gt = self.games[i].game_type.clone();
                let pgn = self.games[i].pgn.clone();
                r.push((id, gt, pgn));
                assert(unanalyzed_of(g.take(i + 1)) == before.push(g[i as int]));
            } else {
                assert(unanalyzed_of(g.take(i + 1)) == before);
            }
            i = i + 1;
        }
        assert(g.take(n as int) =~= g);
        r
    }

    /// The newest game (the first) when it still needs analysis.
    pub fn newest_unanalyzed(&self) -> (r: Option<(String, String, String)>)
        ensures
            match r {
                Some(t) => self.games@.len() > 0 && !self.games@[0].analyzed() && t.0@ == self.games@[0].id@
                    && t.1@ == self.games@[0].game_type@ && t.2@ == self.games@[0].pgn@,
                None => self.games@.len() == 0 || self.games@[0].analyzed(),
            },
    {
        if self.games.len() == 0 || self.games[0].is_analyzed() {
            return None;
        }
        let g = &self.games[0];
        Some((g.id.clone(), g.game_type.clone(), g.pgn.clone()))
    }

    /// Marks the game opened for review as reviewed, when it is analysed: true when the
    /// flag changed.
    pub fn mark_reviewed_if_analyzed(&mut self, id: &str, game_type: &str) -> (changed: bool)
        ensures
            final(self).path == old(self).path,
            final(self).settings == old(self).settings,
            match first_with_key(old(self).games@, id@, game_type@) {
                Some(i) if old(self).games@[i].analyzed() => {
                    &&& changed == !old(self).games@[i].reviewed
                    &&& final(self).games@ == marked_reviewed(old(self).games@, id@, game_type@)
                },
                _ => !changed && final(self).games@ == old(self).games@,
            },
    {
        let analyzed = match self.find(id, game_type) {
            Some(g) => g.is_analyzed(),
            None => false,
        };
        if !analyzed {
            return false;
        }
        self.mark_reviewed(id, game_type)
    }

    /// Marks the first game with this key as reviewed. True when the flag changed:
    /// the game was found and not yet reviewed.
    pub fn mark_reviewed(&mut self, id: &str, game_type: &str) -> (changed: bool)
        ensures
            final(self).path == old(self).path,
            final(self).settings == old(self).settings,
            match first_with_key(old(self).games@, id@, game_type@) {
                Some(i) => {
                    &&& changed == !old(self).games@[i].reviewed
                    &&& final(self).games@ == old(self).games@.update(
                        i,
                        Game { reviewed: true, ..old(self).games@[i] },
                    )
                },
                None => !changed && final(self).games@ == old(self).games@,
            },
            final(self).games@ == marked_reviewed(old(self).games@, id@, game_type@),
    {
        match self.position_of(id, game_type) {
            None => false,
            Some(i) => {
                if self.games[i].reviewed {
                    proof {
                        assert(self.games@ =~= self.games@.update(
                            i as int,
                            Game { reviewed: true, ..self.games@[i as int] },
                        ));
                    }
                    false
                } else {
                    self.games[i].reviewed = true;
                    true
                }
            },
        }
    }

    /// Keeps a loaded analysis with the first game of this key, which is marked analysed.
    /// Gives that game's place, or `None` (and no change) where no game has the key.
    pub fn attach_analysis(&mut self, id: &str, game_type: &str, analysis: GameAnalysis) -> (r: Option<usize>)
        ensures
            final(self).path == old(self).path,
            final(self).settings == old(self).settings,
            match first_with_key(old(self).games@, id@, game_type@) {
                Some(i) => r == Some(i as usize) && final(self).games@ == old(self).games@.update(
                    i,
                    Game { has_analysis: true, analysis: Some(analysis), ..old(self).games@[i] },
                ),
                None => r is None && final(self).games@ == old(self).games@,
            },
    {
        match self.position_of(id, game_type) {
            None => None,
            Some(i) => {
                self.games[i].has_analysis = true;
                self.games[i].analysis = Some(analysis);
                Some(i)
            },
        }
    }

    /// Records that the first game with this key has its analysis saved in the database:
    /// it is marked analysed and the analysis it held in memory is dropped. Says
    /// whether such a game was found.
    pub fn mark_analyzed(&mut self, id: &str, game_type: &str) -> (found: bool)
        ensures
            final(self).path == old(self).path,
            final(self).settings == old(self).settings,
            match first_with_key(old(self).games@, id@, game_type@) {
                Some(i) => found && final(self).games@ == old(self).games@.update(
                    i,
                    Game { has_analysis: true, analysis: None, ..old(self).games@[i] },
                ),
                None => !found && final(self).games@ == old(self).games@,
            },
    {
        match self.position_of(id, game_type) {
            None => false,
            Some(i) => {
                self.games[i].has_analysis = true;
                self.games[i].analysis = None;
                true
            },
        }
    }

    /// The final position shown when a game of the list is selected: the one the index
    /// keeps, or else the one reached by replaying the PGN, which the game then keeps.
    /// `None` for a position past the end of the library.
    #[verifier::spinoff_prover]
    pub fn preview_tail(&mut self, lib_idx: usize) -> (r: Option<PgnTail>)
        requires
            lib_idx < old(self).games@.len() && !(old(self).games@[lib_idx as int].end_fen is Some
                && old(self).games@[lib_idx as int].end_ply is Some) ==> text_bytes(
                old(self).games@[lib_idx as int].pgn@,
            ) < usize::MAX && movetext_defined(old(self).games@[lib_idx as int].pgn@),
        ensures
            final(self).path == old(self).path,
            final(self).settings == old(self).settings,
            lib_idx >= old(self).games@.len() ==> r is None && final(self).games@ == old(self).games@,
            lib_idx < old(self).games@.len() ==> ({
                let g = old(self).games@[lib_idx as int];
                if g.end_fen is Some && g.end_ply is Some {
                    &&& r matches Some(t) && t.fen@ == g.end_fen->0@ && t.ply == g.end_ply->0 as usize
                        && t.last_uci.deep_view() == g.end_uci.deep_view()
                    &&& final(self).games@ == old(self).games@
                } else {
                    let ms = pgn_moves(g.pgn@);
                    &&& r matches Some(t) && t.fen@ == board_fen(start_fen_spec(), ms) && t.ply == ms.len()
                        && t.last_uci.deep_view() == last_of(ms)
                    &&& final(self).games@.len() == old(self).games@.len()
                    &&& with_end_of_pgn(g, final(self).games@[lib_idx as int])
                    &&& forall|k: int|
                        0 <= k < final(self).games@.len() && k != lib_idx ==> #[trigger] final(self).games@[k]
                            == old(self).games@[k]
                }
            }),
    {
        if lib_idx >= self.games.len() {
            return None;
        }
        match (&self.games[lib_idx].end_fen, self.games[lib_idx].end_ply) {
            (Some(fen), Some(ply)) => {
                let last = match &self.games[lib_idx].end_uci {
                    Some(u) => Some(u.clone()),
                    None => None,
                };
                return Some(PgnTail { fen: fen.clone(), ply: ply as usize, last_uci: last });
            },
            _ => {},
        }
        let tail = pgn_tail(self.games[lib_idx].pgn.as_str()).unwrap();
        let last = match &tail.last_uci {
            Some(u) => Some(u.clone()),
            None => None,
        };
        self.games[lib_idx].end_fen = Some(tail.fen.clone());
        self.games[lib_idx].end_ply = Some(tail.ply as u32);
        self.games[lib_idx].end_uci = last;
        Some(tail)
    }

    /// Fills in the end position (FEN, ply count, last move) of every game that lacks
    /// one by replaying its PGN; returns how many were filled in.
    pub fn backfill_end_positions(&mut self) -> (n: usize)
        requires
            forall|k: int| 0 <= k < old(self).games@.len() && (#[trigger] old(self).games@[k]).end_fen is None
                ==> text_bytes(old(self).games@[k].pgn@) < usize::MAX && movetext_defined(
                old(self).games@[k].pgn@,
            ),
        ensures
            final(self).path == old(self).path,
            final(self).settings == old(self).settings,
            final(self).games@.len() == old(self).games@.len(),
            n == missing_end(old(self).games@),
            forall|k: int| 0 <= k < final(self).games@.len() ==> if (#[trigger] old(self).games@[k]).end_fen is None {
                with_end_of_pgn(old(self).games@[k], final(self).games@[k])
            } else {
                final(self).games@[k] == old(self).games@[k]
            },
    {
        let ghost g = self.games@;
        let ghost path0 = self.path;
        let ghost settings0 = self.settings;
        let len = self.games.len();
        let mut n: usize = 0;
        let mut i: usize = 0;
        while i < len
            invariant
                self.path == path0,
                self.settings == settings0,
                len == g.len(),
                self.games@.len() == len,
                0 <= i <= len,
                n == missing_end(g.take(i as int)),
                n <= i,
                forall|k: int| 0 <= k < len && (#[trigger] g[k]).end_fen is None ==> text_bytes(g[k].pgn@)
                    < usize::MAX && movetext_defined(g[k].pgn@),
                forall|k: int| 0 <= k < i ==> if (#[trigger] g[k]).end_fen is None {
                    with_end_of_pgn(g[k], self.games@[k])
                } else {
                    self.games@[k] == g[k]
                },
                forall|k: int| i <= k < len ==> #[trigger] self.games@[k] == g[k],
            decreases len - i,
        {
            assert(g.take(i + 1).drop_last() =~= g.take(i as int));
            if self.games[i].end_fen.is_none() {
                assert(g[i as int].end_fen is None);
                match pgn_tail(self.games[i].pgn.as_str()) {
                    Some(tail) => {
                        self.games[i].end_fen = Some(tail.fen);
                        self.games[i].end_ply = Some(tail.ply as u32);
                        self.games[i].end_uci = tail.last_uci;
                        n = n + 1;
                    },
                    None => {},
                }
            }
            i = i + 1;
        }
        assert(g.take(len as int) =~= g);
        n
    }
}

proof fn lemma_unanalyzed_prefix(g: Seq<Game>, j: int)
    requires
        0 <= j <= g.len(),
    ensures
        (analyzed_of(g) + unanalyzed_of(g.take(j))).len() <= (analyzed_of(g) + unanalyzed_of(g)).len(),
        forall|k: int| 0 <= k < (analyzed_of(g) + unanalyzed_of(g.take(j))).len() ==> (analyzed_of(g)
            + unanalyzed_of(g.take(j)))[k] == (analyzed_of(g) + unanalyzed_of(g))[k],
{
    lemma_unanalyzed_is_prefix(g, j);
}

proof fn lemma_unanalyzed_is_prefix(g: Seq<Game>, j: int)
    requires
        0 <= j <= g.len(),
    ensures
        unanalyzed_of(g.take(j)).len() <= unanalyzed_of(g).len(),
        forall|k: int| 0 <= k < unanalyzed_of(g.take(j)).len() ==> unanalyzed_of(g.take(j))[k]
            == unanalyzed_of(g)[k],
    decreases g.len() - j,
{
    if j < g.len() {
        lemma_unanalyzed_is_prefix(g, j + 1);
        assert(g.take(j + 1).drop_last() =~= g.take(j));
    } else {
        assert(g.take(j) =~= g);
    }
}

// ---------------------------------------------------------------------------
// Analyses kept in the database
// ---------------------------------------------------------------------------

/// A game of the database as read for its analysis: its key, and its analysis where
/// it has one that could be read.
pub struct StoredAnalysis {
    pub id: String,
    pub game_type: String,
    pub analysis: Option<GameAnalysis>,
}

/// An analysis found for a key.
pub struct KeyedAnalysis {
    pub id: String,
    pub game_type: String,
    pub analysis: GameAnalysis,
}

/// An analysis worth loading: one with at least one move.
pub open spec fn usable(e: StoredAnalysis) -> bool {
    e.analysis is Some && e.analysis->0.moves@.len() > 0
}

/// The first stored game with the key whose analysis is usable.
pub open spec fn first_usable(s: Seq<StoredAnalysis>, id: Seq<char>, game_type: Seq<char>) -> Option<int> {
    if exists|i: int| 0 <= i < s.len() && s[i].id@ == id && s[i].game_type@ == game_type && usable(s[i]) {
        Some(choose|i: int|
            0 <= i < s.len() && s[i].id@ == id && s[i].game_type@ == game_type && usable(s[i])
                && forall|j: int|
                0 <= j < i ==> !(#[trigger] s[j].id@ == id && s[j].game_type@ == game_type && usable(s[j])))
    } else {
        None
    }
}

/// One game's analysis from what the database holds: that of the first entry with the
/// key whose analysis has moves.
pub fn load_game_analysis(stored: Vec<StoredAnalysis>, id: &str, game_type: &str) -> (r: Option<GameAnalysis>)
    ensures
        match first_usable(stored@, id@, game_type@) {
            Some(i) => r == stored@[i].analysis,
            None => r is None,
        },
{
    let ghost s = stored@;
    let mut entries = stored;
    let n = entries.len();
    let mut i: usize = 0;
    while i < n
        invariant
            n == s.len(),
            entries@ == s,
            s == stored@,
            0 <= i <= n,
            forall|j: int| 0 <= j < i ==> !(#[trigger] s[j].id@ == id@ && s[j].game_type@ == game_type@ && usable(s[j])),
        decreases n - i,
    {
        let hit = str_eq(entries[i].id.as_str(), id) && str_eq(entries[i].game_type.as_str(), game_type)
            && match &entries[i].analysis {
            Some(a) => a.moves.len() > 0,
            None => false,
        };
        if hit {
            proof {
                assert(s[i as int].id@ == id@ && s[i as int].game_type@ == game_type@ && usable(s[i as int]));
                let k = choose|k: int|
                    0 <= k < s.len() && s[k].id@ == id@ && s[k].game_type@ == game_type@ && usable(s[k])
                        && forall|j: int|
                        0 <= j < k ==> !(#[trigger] s[j].id@ == id@ && s[j].game_type@ == game_type@ && usable(
                            s[j],
                        ));
                assert(0 <= k < s.len() && usable(s[k]));
                if k < i {
                    assert(!(s[k].id@ == id@ && s[k].game_type@ == game_type@ && usable(s[k])));
                }
                if i < k {
                    assert(!(s[i as int].id@ == id@ && s[i as int].game_type@ == game_type@ && usable(
                        s[i as int],
                    )));
                }
                assert(first_usable(s, id@, game_type@) == Some(i as int));
            }
            let e = entries.swap_remove(i);
            return e.analysis;
        }
        i = i + 1;
    }
    None
}

/// The entry carries one of the wanted keys.
pub open spec fn wanted(e: StoredAnalysis, keys: Seq<(String, String)>) -> bool {
    exists|k: int| 0 <= k < keys.len() && keys[k].0@ == e.id@ && keys[k].1@ == e.game_type@
}

pub open spec fn accepted(e: StoredAnalysis, keys: Seq<(String, String)>) -> bool {
    wanted(e, keys) && usable(e)
}

/// Wanted key `k` has an accepted entry before position `i`.
pub open spec fn key_found(s: Seq<StoredAnalysis>, keys: Seq<(String, String)>, i: int, k: int) -> bool {
    exists|j: int|
        0 <= j < i && #[trigger] accepted(s[j], keys) && s[j].id@ == keys[k].0@ && s[j].game_type@
            == keys[k].1@
}

/// Every wanted key has an accepted entry before position `i`.
pub open spec fn all_found(s: Seq<StoredAnalysis>, keys: Seq<(String, String)>, i: int) -> bool {
    forall|k: int| 0 <= k < keys.len() ==> #[trigger] key_found(s, keys, i, k)
}

/// Where the one pass over the database stops: as soon as every wanted key is found,
/// at the end otherwise.
pub open spec fn scan_stop(s: Seq<StoredAnalysis>, keys: Seq<(String, String)>) -> int {
    if exists|i: int| 0 <= i <= s.len() && all_found(s, keys, i) {
        choose|i: int|
            0 <= i <= s.len() && all_found(s, keys, i) && forall|j: int| 0 <= j < i ==> !all_found(s, keys, j)
    } else {
        s.len() as int
    }
}

pub open spec fn same_key(e: StoredAnalysis, a: KeyedAnalysis) -> bool {
    e.id@ == a.id@ && e.game_type@ == a.game_type@
}

/// `r` holds, once per key, the analysis of the last accepted entry with that key
/// before `stop`, and a key for every accepted entry there.
pub open spec fn analyses_upto(
    s: Seq<StoredAnalysis>,
    keys: Seq<(String, String)>,
    stop: int,
    r: Seq<KeyedAnalysis>,
) -> bool {
    &&& forall|p: int, q: int| 0 <= p < q < r.len() ==> !(r[p].id@ == r[q].id@ && r[p].game_type@ == r[q].game_type@)
    &&& forall|q: int|
        0 <= q < r.len() ==> exists|j: int|
            0 <= j < stop && accepted(s[j], keys) && same_key(s[j], #[trigger] r[q]) && s[j].analysis
                == Some(r[q].analysis) && forall|j2: int|
                j < j2 < stop ==> !(accepted(#[trigger] s[j2], keys) && same_key(s[j2], r[q]))
    &&& forall|j: int|
        0 <= j < stop && #[trigger] accepted(s[j], keys) ==> exists|q: int| 0 <= q < r.len() && same_key(s[j], r[q])
}

/// How many flags are set.
pub open spec fn count_true(f: Seq<bool>) -> nat
    decreases f.len(),
{
    if f.len() == 0 {
        0
    } else {
        count_true(f.drop_last()) + if f.last() { 1nat } else { 0nat }
    }
}

proof fn lemma_count_true(f: Seq<bool>)
    ensures
        count_true(f) <= f.len(),
        count_true(f) == f.len() <==> forall|k: int| 0 <= k < f.len() ==> f[k],
    decreases f.len(),
{
    if f.len() > 0 {
        lemma_count_true(f.drop_last());
        if count_true(f) == f.len() {
            assert forall|k: int| 0 <= k < f.len() implies f[k] by {
                if k < f.len() - 1 {
                    assert(f.drop_last()[k] == f[k]);
                }
            }
        }
        if forall|k: int| 0 <= k < f.len() ==> f[k] {
            assert forall|k: int| 0 <= k < f.drop_last().len() implies f.drop_last()[k] by {
                assert(f[k]);
            }
        }
    }
}

proof fn lemma_count_true_set(f: Seq<bool>, k: int)
    requires
        0 <= k < f.len(),
        !f[k],
    ensures
        count_true(f.update(k, true)) == count_true(f) + 1,
    decreases f.len(),
{
    let g = f.update(k, true);
    if k < f.len() - 1 {
        lemma_count_true_set(f.drop_last(), k);
        assert(g.drop_last() =~= f.drop_last().update(k, true));
    } else {
        assert(g.drop_last() =~= f.drop_last());
    }
}

proof fn lemma_scan_stop_is(s: Seq<StoredAnalysis>, keys: Seq<(String, String)>, i: int)
    requires
        0 <= i <= s.len(),
        all_found(s, keys, i) || i == s.len(),
        forall|j: int| 0 <= j < i ==> !all_found(s, keys, j),
    ensures
        scan_stop(s, keys) == i,
{
    if all_found(s, keys, i) {
        let c = choose|c: int|
            0 <= c <= s.len() && all_found(s, keys, c) && forall|j: int| 0 <= j < c ==> !all_found(s, keys, j);
        assert(0 <= c <= s.len() && all_found(s, keys, c));
        if c < i {
            assert(!all_found(s, keys, c));
        }
        if i < c {
            assert(!all_found(s, keys, i));
        }
    } else {
        assert forall|c: int| 0 <= c <= s.len() implies !all_found(s, keys, c) by {
            if c < i {
            }
        }
    }
}

/// Marks the wanted keys that entry `e` carries as found when its analysis is usable;
/// says whether it carries any wanted key.
fn mark_found(
    found: &mut Vec<bool>,
    nfound: &mut usize,
    keys: &Vec<(String, String)>,
    id: &str,
    game_type: &str,
    usable_here: bool,
) -> (is_wanted: bool)
    requires
        old(found)@.len() == keys@.len(),
        *old(nfound) == count_true(old(found)@),
    ensures
        final(found)@.len() == keys@.len(),
        *final(nfound) == count_true(final(found)@),
        is_wanted == exists|q: int| 0 <= q < keys@.len() && keys@[q].0@ == id@ && keys@[q].1@ == game_type@,
        forall|q: int| 0 <= q < keys@.len() ==> #[trigger] final(found)@[q] == (if usable_here && keys@[q].0@
            == id@ && keys@[q].1@ == game_type@ {
            true
        } else {
            old(found)@[q]
        }),
{
    let ghost f0 = found@;
    let nk = keys.len();
    let mut is_wanted = false;
    let mut k: usize = 0;
    while k < nk
        invariant
            nk == keys@.len(),
            found@.len() == nk,
            f0.len() == nk,
            0 <= k <= nk,
            is_wanted == exists|q: int| 0 <= q < k && keys@[q].0@ == id@ && keys@[q].1@ == game_type@,
            forall|q: int| 0 <= q < nk ==> #[trigger] found@[q] == (if q < k && usable_here && keys@[q].0@
                == id@ && keys@[q].1@ == game_type@ {
                true
            } else {
                f0[q]
            }),
            *nfound == count_true(found@),
        decreases nk - k,
    {
        let same = str_eq(keys[k].0.as_str(), id) && str_eq(keys[k].1.as_str(), game_type);
        if same {
            is_wanted = true;
            if usable_here && !found[k] {
                proof {
                    lemma_count_true_set(found@, k as int);
                    lemma_count_true(found@.update(k as int, true));
                    lemma_count_true(found@);
                }
                found.set(k, true);
                *nfound = *nfound + 1;
            }
        }
        k = k + 1;
    }
    is_wanted
}

/// Where in `out` the key is, if it is there.
fn key_position(out: &Vec<KeyedAnalysis>, id: &str, game_type: &str) -> (r: Option<usize>)
    ensures
        r matches Some(p) ==> p < out@.len() && out@[p as int].id@ == id@ && out@[p as int].game_type@
            == game_type@,
        r is None ==> forall|p: int| 0 <= p < out@.len() ==> !(#[trigger] out@[p].id@ == id@ && out@[p].game_type@
            == game_type@),
{
    let mut q: usize = 0;
    while q < out.len()
        invariant
            0 <= q <= out@.len(),
            forall|p: int| 0 <= p < q ==> !(#[trigger] out@[p].id@ == id@ && out@[p].game_type@ == game_type@),
        decreases out@.len() - q,
    {
        if str_eq(out[q].id.as_str(), id) && str_eq(out[q].game_type.as_str(), game_type) {
            return Some(q);
        }
        q = q + 1;
    }
    None
}

proof fn lemma_upto_skip(s: Seq<StoredAnalysis>, ks: Seq<(String, String)>, i: int, r: Seq<KeyedAnalysis>)
    requires
        0 <= i < s.len(),
        analyses_upto(s, ks, i, r),
        !accepted(s[i], ks),
    ensures
        analyses_upto(s, ks, i + 1, r),
{
    assert forall|x: int| 0 <= x < r.len() implies exists|j: int|
        0 <= j < i + 1 && accepted(s[j], ks) && same_key(s[j], #[trigger] r[x]) && s[j].analysis == Some(
            r[x].analysis,
        ) && forall|j2: int| j < j2 < i + 1 ==> !(accepted(#[trigger] s[j2], ks) && same_key(s[j2], r[x])) by {
        let j = choose|j: int|
            0 <= j < i && accepted(s[j], ks) && same_key(s[j], #[trigger] r[x]) && s[j].analysis == Some(
                r[x].analysis,
            ) && forall|j2: int| j < j2 < i ==> !(accepted(#[trigger] s[j2], ks) && same_key(s[j2], r[x]));
        assert(0 <= j < i + 1);
    }
}

#[verifier::spinoff_prover]
#[verifier::rlimit(50)]
proof fn lemma_upto_replace(
    s: Seq<StoredAnalysis>,
    ks: Seq<(String, String)>,
    i: int,
    r0: Seq<KeyedAnalysis>,
    p: int,
    a: GameAnalysis,
)
    requires
        0 <= i < s.len(),
        analyses_upto(s, ks, i, r0),
        accepted(s[i], ks),
        s[i].analysis == Some(a),
        0 <= p < r0.len(),
        same_key(s[i], r0[p]),
    ensures
        analyses_upto(s, ks, i + 1, r0.update(p, KeyedAnalysis { analysis: a, ..r0[p] })),
{
    let r = r0.update(p, KeyedAnalysis { analysis: a, ..r0[p] });
    let e = s[i];
    assert forall|x: int, y: int| 0 <= x < y < r.len() implies !(r[x].id@ == r[y].id@ && r[x].game_type@
        == r[y].game_type@) by {
        assert(r[x].id == r0[x].id && r[y].id == r0[y].id);
        assert(r[x].game_type == r0[x].game_type && r[y].game_type == r0[y].game_type);
    }
    assert forall|x: int| 0 <= x < r.len() implies exists|j: int|
        0 <= j < i + 1 && accepted(s[j], ks) && same_key(s[j], #[trigger] r[x]) && s[j].analysis == Some(
            r[x].analysis,
        ) && forall|j2: int| j < j2 < i + 1 ==> !(accepted(#[trigger] s[j2], ks) && same_key(s[j2], r[x])) by {
        if x == p {
            assert(accepted(s[i], ks) && same_key(s[i], r[x]));
        } else {
            assert(r[x] == r0[x]);
            assert(!same_key(e, r0[x])) by {
                if same_key(e, r0[x]) {
                    assert(r0[x].id@ == r0[p].id@ && r0[x].game_type@ == r0[p].game_type@);
                    if x < p {
                    } else {
                    }
                }
            }
            let j = choose|j: int|
                0 <= j < i && accepted(s[j], ks) && same_key(s[j], #[trigger] r0[x]) && s[j].analysis == Some(
                    r0[x].analysis,
                ) && forall|j2: int| j < j2 < i ==> !(accepted(#[trigger] s[j2], ks) && same_key(s[j2], r0[x]));
            assert(0 <= j < i + 1 && accepted(s[j], ks) && same_key(s[j], r[x]));
        }
    }
    assert forall|j: int| 0 <= j < i + 1 && #[trigger] accepted(s[j], ks) implies exists|y: int|
        0 <= y < r.len() && same_key(s[j], r[y]) by {
        if j == i {
            assert(same_key(s[j], r[p]));
        } else {
            let y = choose|y: int| 0 <= y < r0.len() && same_key(s[j], r0[y]);
            assert(same_key(s[j], r[y]));
        }
    }
}

#[verifier::spinoff_prover]
#[verifier::rlimit(50)]
proof fn lemma_upto_push(
    s: Seq<StoredAnalysis>,
    ks: Seq<(String, String)>,
    i: int,
    r0: Seq<KeyedAnalysis>,
    k: KeyedAnalysis,
)
    requires
        0 <= i < s.len(),
        analyses_upto(s, ks, i, r0),
        accepted(s[i], ks),
        s[i].analysis == Some(k.analysis),
        same_key(s[i], k),
        forall|p: int| 0 <= p < r0.len() ==> !same_key(s[i], #[trigger] r0[p]),
    ensures
        analyses_upto(s, ks, i + 1, r0.push(k)),
{
    let r = r0.push(k);
    let p = r0.len() as int;
    let e = s[i];
    assert forall|x: int, y: int| 0 <= x < y < r.len() implies !(r[x].id@ == r[y].id@ && r[x].game_type@
        == r[y].game_type@) by {
        if y == p {
            assert(!same_key(e, r0[x]));
        } else {
            assert(r[x] == r0[x] && r[y] == r0[y]);
        }
    }
    assert forall|x: int| 0 <= x < r.len() implies exists|j: int|
        0 <= j < i + 1 && accepted(s[j], ks) && same_key(s[j], #[trigger] r[x]) && s[j].analysis == Some(
            r[x].analysis,
        ) && forall|j2: int| j < j2 < i + 1 ==> !(accepted(#[trigger] s[j2], ks) && same_key(s[j2], r[x])) by {
        if x == p {
            assert(accepted(s[i], ks) && same_key(s[i], r[x]));
        } else {
            assert(r[x] == r0[x]);
            assert(!same_key(e, r0[x]));
            let j = choose|j: int|
                0 <= j < i && accepted(s[j], ks) && same_key(s[j], #[trigger] r0[x]) && s[j].analysis == Some(
                    r0[x].analysis,
                ) && forall|j2: int| j < j2 < i ==> !(accepted(#[trigger] s[j2], ks) && same_key(s[j2], r0[x]));
            assert(0 <= j < i + 1 && accepted(s[j], ks) && same_key(s[j], r[x]));
        }
    }
    assert forall|j: int| 0 <= j < i + 1 && #[trigger] accepted(s[j], ks) implies exists|y: int|
        0 <= y < r.len() && same_key(s[j], r[y]) by {
        if j == i {
            assert(same_key(s[j], r[p]));
        } else {
            let y = choose|y: int| 0 <= y < r0.len() && same_key(s[j], r0[y]);
            assert(r[y] == r0[y]);
            assert(same_key(s[j], r[y]));
        }
    }
}

proof fn lemma_found_step(s: Seq<StoredAnalysis>, ks: Seq<(String, String)>, i: int, q: int)
    requires
        0 <= i < s.len(),
        0 <= q < ks.len(),
    ensures
        key_found(s, ks, i + 1, q) == (key_found(s, ks, i, q) || (usable(s[i]) && ks[q].0@ == s[i].id@
            && ks[q].1@ == s[i].game_type@)),
{
    if key_found(s, ks, i, q) {
        let j = choose|j: int|
            0 <= j < i && #[trigger] accepted(s[j], ks) && s[j].id@ == ks[q].0@ && s[j].game_type@ == ks[q].1@;
        assert(0 <= j < i + 1 && accepted(s[j], ks));
    }
    if usable(s[i]) && ks[q].0@ == s[i].id@ && ks[q].1@ == s[i].game_type@ {
        assert(wanted(s[i], ks));
        assert(accepted(s[i], ks));
    }
    if key_found(s, ks, i + 1, q) && !key_found(s, ks, i, q) {
        let j = choose|j: int|
            0 <= j < i + 1 && #[trigger] accepted(s[j], ks) && s[j].id@ == ks[q].0@ && s[j].game_type@ == ks[q].1@;
        assert(j == i);
    }
}

/// The analyses for the wanted keys, in one pass over the database that stops as soon
/// as every key is found: once per key, that of the last entry with the key and a
/// non-empty analysis before the pass stopped.
pub fn load_analyses_for(stored: Vec<StoredAnalysis>, keys: &Vec<(String, String)>) -> (r: Vec<KeyedAnalysis>)
    ensures
        analyses_upto(stored@, keys@, scan_stop(stored@, keys@), r@),
{
    let ghost s = stored@;
    let ghost ks = keys@;
    let mut entries = stored;
    let n = entries.len();
    let nk = keys.len();
    let mut found: Vec<bool> = Vec::new();
    let mut k0: usize = 0;
    while k0 < nk
        invariant
            nk == ks.len(),
            ks == keys@,
            0 <= k0 <= nk,
            found@.len() == k0,
            forall|k: int| 0 <= k < k0 ==> !found@[k],
        decreases nk - k0,
    {
        found.push(false);
        k0 = k0 + 1;
    }
    proof {
        assert forall|k: int| 0 <= k < nk implies found@[k] == key_found(s, ks, 0, k) by {}
        lemma_count_true_zero(found@);
    }
    let mut nfound: usize = 0;
    let mut out: Vec<KeyedAnalysis> = Vec::new();
    let mut i: usize = 0;
    while i < n && nfound < nk
        invariant
            s == stored@,
            ks == keys@,
            n == s.len(),
            nk == ks.len(),
            entries@.len() == n,
            0 <= i <= n,
            forall|j: int| i <= j < n ==> #[trigger] entries@[j] == s[j],
            found@.len() == nk,
            forall|k: int| 0 <= k < nk ==> #[trigger] found@[k] == key_found(s, ks, i as int, k),
            nfound == count_true(found@),
            forall|j: int| 0 <= j < i ==> !all_found(s, ks, j),
            analyses_upto(s, ks, i as int, out@),
        decreases n - i,
    {
        proof {
            lemma_count_true(found@);
            assert(!all_found(s, ks, i as int)) by {
                if all_found(s, ks, i as int) {
                    assert forall|k: int| 0 <= k < found@.len() implies found@[k] by {
                        assert(key_found(s, ks, i as int, k));
                    }
                }
            }
        }
        let ghost e = s[i as int];
        assert(entries@[i as int] == e);
        let id = entries[i].id.clone();
        let gt = entries[i].game_type.clone();
        let usable_here = match &entries[i].analysis {
            Some(a) => a.moves.len() > 0,
            None => false,
        };
        let is_wanted = mark_found(&mut found, &mut nfound, keys, id.as_str(), gt.as_str(), usable_here);
        proof {
            assert forall|q: int| 0 <= q < nk implies #[trigger] found@[q] == key_found(s, ks, i + 1, q) by {
                lemma_found_step(s, ks, i as int, q);
            }
            assert(wanted(e, ks) == is_wanted);
        }
        if is_wanted && usable_here {
            let taken = entries[i].analysis.take();
            match taken {
                Some(a) => {
                    match key_position(&out, id.as_str(), gt.as_str()) {
                        Some(p) => {
                            proof {
                                lemma_upto_replace(s, ks, i as int, out@, p as int, a);
                            }
                            out[p].analysis = a;
                        },
                        None => {
                            let k = KeyedAnalysis { id, game_type: gt, analysis: a };
                            proof {
                                assert forall|p: int| 0 <= p < out@.len() implies !same_key(s[i as int], #[trigger] out@[p]) by {}
                                lemma_upto_push(s, ks, i as int, out@, k);
                            }
                            out.push(k);
                        },
                    }
                },
                None => {},
            }
        } else {
            proof {
                lemma_upto_skip(s, ks, i as int, out@);
            }
        }
        i = i + 1;
    }
    proof {
        lemma_count_true(found@);
        if nfound == nk {
            assert forall|k: int| 0 <= k < ks.len() implies #[trigger] key_found(s, ks, i as int, k) by {
                assert(found@[k]);
            }
        }
        lemma_scan_stop_is(s, ks, i as int);
    }
    out
}

proof fn lemma_count_true_zero(f: Seq<bool>)
    requires
        forall|k: int| 0 <= k < f.len() ==> !f[k],
    ensures
        count_true(f) == 0,
    decreases f.len(),
{
    if f.len() > 0 {
        lemma_count_true_zero(f.drop_last());
    }
}

/// A game with this key is among `keys`.
pub open spec fn key_listed(keys: Seq<(String, String)>, id: Seq<char>, game_type: Seq<char>) -> bool {
    exists|j: int| 0 <= j < keys.len() && keys[j].0@ == id && keys[j].1@ == game_type
}

/// The places, in order, of the first `n` new games whose key the database does not
/// hold yet (the keys are those held before any is added).
pub open spec fn append_picks(keys: Seq<(String, String)>, games: Seq<Game>, n: int) -> Seq<usize>
    decreases n,
{
    if n <= 0 {
        Seq::empty()
    } else if key_listed(keys, games[n - 1].id@, games[n - 1].game_type@) {
        append_picks(keys, games, n - 1)
    } else {
        append_picks(keys, games, n - 1).push((n - 1) as usize)
    }
}

/// Which of the new games go into the database: those whose key it does not hold.
pub fn games_to_append(stored_keys: &Vec<(String, String)>, new_games: &Vec<Game>) -> (r: Vec<usize>)
    ensures
        r@ == append_picks(stored_keys@, new_games@, new_games@.len() as int),
{
    let mut out: Vec<usize> = Vec::new();
    let mut i: usize = 0;
    while i < new_games.len()
        invariant
            0 <= i <= new_games@.len(),
            out@ == append_picks(stored_keys@, new_games@, i as int),
        decreases new_games@.len() - i,
    {
        let g = &new_games[i];
        let mut j: usize = 0;
        let mut known = false;
        while j < stored_keys.len()
            invariant
                0 <= j <= stored_keys@.len(),
                *g == new_games@[i as int],
                known == (exists|t: int| 0 <= t < j && stored_keys@[t].0@ == g.id@ && stored_keys@[t].1@ == g.game_type@),
            decreases stored_keys@.len() - j,
        {
            if !known && str_eq(stored_keys[j].0.as_str(), g.id.as_str()) && str_eq(
                stored_keys[j].1.as_str(),
                g.game_type.as_str(),
            ) {
                known = true;
            }
            j = j + 1;
        }
        if !known {
            out.push(i);
        }
        i = i + 1;
    }
    out
}

} // verus!
