//! The games list: which games it shows under which heading, how far the full list is
//! paged, and how the selection walks it.
use vstd::prelude::*;

use crate::models::Game;
use crate::playback::{format_instant, is_filled, opp_name, opt_date, push_text_or, text_or};
use crate::text::{
    chars_of, contains_text, folded, nat_chars, nat_text, push_chars, push_str, str_eq, string_from_chars,
    text_contains, to_lowercase, trim, trim_chars,
};

verus! {

/// Reviewed games shown at the top of the list.
pub const RECENT_REVIEWED: usize = 3;
/// Games not yet reviewed shown under "Recent".
pub const RECENT_OTHER: usize = 12;
/// How many more games of the full list each page shows.
pub const ALL_PAGE: usize = 40;

#[derive(Debug, Clone, Copy, PartialEq, Eq, Structural)]
pub enum Section {
    Reviewed,
    Recent,
    All,
}

/// The headings of the list's sections.
#[derive(Debug, Clone, Copy, PartialEq, Eq, Structural)]
pub enum Heading {
    RecentlyReviewed,
    Recent,
    AllGames,
    Matches,
}

pub open spec fn heading_text(h: Heading) -> Seq<char> {
    match h {
        Heading::RecentlyReviewed => "Recently reviewed"@,
        Heading::Recent => "Recent"@,
        Heading::AllGames => "All games"@,
        Heading::Matches => "Matches"@,
    }
}

impl Heading {
    /// The heading as shown.
    pub fn label(&self) -> (r: &'static str)
        ensures
            r@ == heading_text(*self),
    {
        match self {
            Heading::RecentlyReviewed => "Recently reviewed",
            Heading::Recent => "Recent",
            Heading::AllGames => "All games",
            Heading::Matches => "Matches",
        }
    }
}

#[derive(Debug, Clone, Copy, PartialEq, Eq, Structural)]
pub enum ListRow {
    Header { title: Heading },
    Game { lib_idx: usize, section: Section },
    More { section: Section },
}

#[derive(Debug, Clone, Copy, PartialEq, Eq, Structural)]
pub enum RebuildMode {
    /// A fresh list or filter: paging starts over.
    Reset,
    /// Another page of the full list.
    LoadMore,
    /// Paging kept as it was.
    Soft,
}

/// The rows of the list, the rows the selection can stop on (`walk`), the games of the
/// full list (`all_ids`, library positions), how many of them are shown, and the query.
#[derive(Debug, Clone)]
pub struct ListModel {
    pub walk: Vec<usize>,
    pub rows: Vec<ListRow>,
    pub all_ids: Vec<usize>,
    pub all_shown: usize,
    pub query: String,
}

pub open spec fn or_empty(o: Option<String>) -> Seq<char> {
    match o {
        Some(s) => s@,
        None => Seq::empty(),
    }
}

/// What a query is matched against: the players, opponent, result, opening and time
/// control, space separated.
pub open spec fn search_blob(g: Game) -> Seq<char> {
    g.white@ + " "@ + g.black@ + " "@ + or_empty(g.opponent) + " "@ + or_empty(g.result) + " "@ + or_empty(g.eco)
        + " "@ + or_empty(g.time_control)
}

/// A game matches a query (already trimmed and lower-cased) that is empty or occurs in
/// its lower-cased search text.
pub open spec fn game_matches(g: Game, q: Seq<char>) -> bool {
    q.len() == 0 || contains_text(folded(search_blob(g)), q)
}

/// An optional text field is ASCII (missing counts as empty).
pub open spec fn ascii_field(o: Option<String>) -> bool {
    vstd::utf8::is_ascii_chars(or_empty(o))
}

/// A non-empty query that occurs in a game's lower-cased time control finds the game.
/// Shown where the searched fields are ASCII, whose lower case is stated.
pub proof fn law_query_finds_time_control(g: Game, q: Seq<char>, k: int)
    requires
        vstd::utf8::is_ascii_chars(g.white@),
        vstd::utf8::is_ascii_chars(g.black@),
        ascii_field(g.opponent),
        ascii_field(g.result),
        ascii_field(g.eco),
        ascii_field(g.time_control),
        crate::text::occurs_at(or_empty(g.time_control).map_values(|c: char| crate::text::lower(c)), q, k),
    ensures
        game_matches(g, q),
{
    let tc = or_empty(g.time_control);
    let pre = g.white@ + " "@ + g.black@ + " "@ + or_empty(g.opponent) + " "@ + or_empty(g.result) + " "@ + or_empty(
        g.eco,
    ) + " "@;
    lemma_query_in_suffix(g, pre, tc, q, k);
}

/// A non-empty query that occurs in a game's lower-cased white player's name finds the
/// game. Shown where the searched fields are ASCII.
pub proof fn law_query_finds_white(g: Game, q: Seq<char>, k: int)
    requires
        vstd::utf8::is_ascii_chars(g.white@),
        vstd::utf8::is_ascii_chars(g.black@),
        ascii_field(g.opponent),
        ascii_field(g.result),
        ascii_field(g.eco),
        ascii_field(g.time_control),
        crate::text::occurs_at(g.white@.map_values(|c: char| crate::text::lower(c)), q, k),
    ensures
        game_matches(g, q),
{
    let rest = " "@ + g.black@ + " "@ + or_empty(g.opponent) + " "@ + or_empty(g.result) + " "@ + or_empty(g.eco)
        + " "@ + or_empty(g.time_control);
    assert(search_blob(g) =~= g.white@ + rest);
    lemma_query_in_prefix(g, g.white@, rest, q, k);
}

proof fn lemma_blob_ascii(g: Game)
    requires
        vstd::utf8::is_ascii_chars(g.white@),
        vstd::utf8::is_ascii_chars(g.black@),
        ascii_field(g.opponent),
        ascii_field(g.result),
        ascii_field(g.eco),
        ascii_field(g.time_control),
    ensures
        vstd::utf8::is_ascii_chars(search_blob(g)),
        folded(search_blob(g)) == search_blob(g).map_values(|c: char| crate::text::lower(c)),
{
    reveal_strlit(" ");
    let b = search_blob(g);
    assert forall|i: int| 0 <= i < b.len() implies '\0' <= #[trigger] b[i] <= '\u{7f}' by {
        let w = g.white@;
        let bl = g.black@;
        let o = or_empty(g.opponent);
        let r = or_empty(g.result);
        let e = or_empty(g.eco);
        let t = or_empty(g.time_control);
        let sp = " "@;
        assert(b == w + sp + bl + sp + o + sp + r + sp + e + sp + t);
        if i < w.len() {
            assert(b[i] == w[i]);
        } else if i < w.len() + 1 {
            assert(b[i] == sp[i - w.len()]);
        } else if i < w.len() + 1 + bl.len() {
            assert(b[i] == bl[i - w.len() - 1]);
        } else if i < w.len() + 2 + bl.len() {
            assert(b[i] == ' ');
        } else if i < w.len() + 2 + bl.len() + o.len() {
            assert(b[i] == o[i - w.len() - 2 - bl.len()]);
        } else if i < w.len() + 3 + bl.len() + o.len() {
            assert(b[i] == ' ');
        } else if i < w.len() + 3 + bl.len() + o.len() + r.len() {
            assert(b[i] == r[i - w.len() - 3 - bl.len() - o.len()]);
        } else if i < w.len() + 4 + bl.len() + o.len() + r.len() {
            assert(b[i] == ' ');
        } else if i < w.len() + 4 + bl.len() + o.len() + r.len() + e.len() {
            assert(b[i] == e[i - w.len() - 4 - bl.len() - o.len() - r.len()]);
        } else if i < w.len() + 5 + bl.len() + o.len() + r.len() + e.len() {
            assert(b[i] == ' ');
        } else {
            assert(b[i] == t[i - w.len() - 5 - bl.len() - o.len() - r.len() - e.len()]);
        }
    }
}

proof fn lemma_occurs_finds(s: Seq<char>, q: Seq<char>, k: int)
    requires
        crate::text::occurs_at(s, q, k),
    ensures
        contains_text(s, q),
{
    reveal(crate::text::find_first);
}

proof fn lemma_query_in_suffix(g: Game, pre: Seq<char>, tc: Seq<char>, q: Seq<char>, k: int)
    requires
        vstd::utf8::is_ascii_chars(g.white@),
        vstd::utf8::is_ascii_chars(g.black@),
        ascii_field(g.opponent),
        ascii_field(g.result),
        ascii_field(g.eco),
        ascii_field(g.time_control),
        search_blob(g) == pre + tc,
        crate::text::occurs_at(tc.map_values(|c: char| crate::text::lower(c)), q, k),
    ensures
        game_matches(g, q),
{
    lemma_blob_ascii(g);
    let low = search_blob(g).map_values(|c: char| crate::text::lower(c));
    let lt = tc.map_values(|c: char| crate::text::lower(c));
    let at = pre.len() + k;
    assert(low.subrange(at, at + q.len()) =~= lt.subrange(k, k + q.len()));
    lemma_occurs_finds(low, q, at);
}

proof fn lemma_query_in_prefix(g: Game, w: Seq<char>, rest: Seq<char>, q: Seq<char>, k: int)
    requires
        vstd::utf8::is_ascii_chars(g.white@),
        vstd::utf8::is_ascii_chars(g.black@),
        ascii_field(g.opponent),
        ascii_field(g.result),
        ascii_field(g.eco),
        ascii_field(g.time_control),
        search_blob(g) == w + rest,
        crate::text::occurs_at(w.map_values(|c: char| crate::text::lower(c)), q, k),
    ensures
        game_matches(g, q),
{
    lemma_blob_ascii(g);
    let low = search_blob(g).map_values(|c: char| crate::text::lower(c));
    let lw = w.map_values(|c: char| crate::text::lower(c));
    assert(low.subrange(k, k + q.len()) =~= lw.subrange(k, k + q.len()));
    lemma_occurs_finds(low, q, k);
}

fn push_opt(out: &mut Vec<char>, o: &Option<String>)
    ensures
        final(out)@ == old(out)@ + or_empty(*o),
{
    match o {
        Some(s) => push_str(out, s.as_str()),
        None => {},
    }
}

pub fn matches_query(game: &Game, q: &str) -> (b: bool)
    ensures
        b == game_matches(*game, q@),
{
    if q.is_empty() {
        return true;
    }
    let mut blob: Vec<char> = Vec::new();
    push_str(&mut blob, game.white.as_str());
    push_str(&mut blob, " ");
    push_str(&mut blob, game.black.as_str());
    push_str(&mut blob, " ");
    push_opt(&mut blob, &game.opponent);
    push_str(&mut blob, " ");
    push_opt(&mut blob, &game.result);
    push_str(&mut blob, " ");
    push_opt(&mut blob, &game.eco);
    push_str(&mut blob, " ");
    push_opt(&mut blob, &game.time_control);
    let b = string_from_chars(&blob);
    let low = to_lowercase(b.as_str());
    text_contains(low.as_str(), q)
}

/// The library positions of the games that match, in library order.
pub open spec fn query_ids(games: Seq<Game>, q: Seq<char>) -> Seq<usize>
    decreases games.len(),
{
    if games.len() == 0 {
        Seq::empty()
    } else if game_matches(games.last(), q) {
        query_ids(games.drop_last(), q).push((games.len() - 1) as usize)
    } else {
        query_ids(games.drop_last(), q)
    }
}

/// The positions among `ids` of games whose reviewed flag is `reviewed`, in order.
pub open spec fn with_reviewed(games: Seq<Game>, ids: Seq<usize>, reviewed: bool) -> Seq<usize>
    decreases ids.len(),
{
    if ids.len() == 0 {
        Seq::empty()
    } else if games[ids.last() as int].reviewed == reviewed {
        with_reviewed(games, ids.drop_last(), reviewed).push(ids.last())
    } else {
        with_reviewed(games, ids.drop_last(), reviewed)
    }
}

pub open spec fn min_of(a: int, b: int) -> int {
    if a < b {
        a
    } else {
        b
    }
}

/// How many games of the full list (`n` of them) are shown: a page on a reset, one
/// page more on "load more" (at least a page), as many as before otherwise (at least
/// a page); never more than there are.
pub open spec fn shown_count(mode: RebuildMode, prev_shown: int, n: int) -> int {
    let page = min_of(ALL_PAGE as int, n);
    match mode {
        RebuildMode::Reset => page,
        RebuildMode::LoadMore => {
            let m = min_of(prev_shown + ALL_PAGE, n);
            if m > page {
                m
            } else {
                page
            }
        },
        RebuildMode::Soft => {
            let m = if prev_shown > page {
                prev_shown
            } else {
                page
            };
            min_of(m, n)
        },
    }
}

pub open spec fn game_rows(ids: Seq<usize>, section: Section) -> Seq<ListRow> {
    Seq::new(ids.len(), |k: int| ListRow::Game { lib_idx: ids[k], section })
}

/// The rows of the list. Without a query: up to three reviewed games, up to twelve
/// others, then the full list as far as shown; with one: the matches as far as shown.
/// A "load more" row follows a list not shown in full.
pub open spec fn list_rows(games: Seq<Game>, q: Seq<char>, shown: int) -> Seq<ListRow> {
    let all = query_ids(games, q);
    let more = if shown < all.len() {
        seq![ListRow::More { section: Section::All }]
    } else {
        Seq::empty()
    };
    if q.len() == 0 {
        seq![ListRow::Header { title: Heading::RecentlyReviewed }] + game_rows(
            with_reviewed(games, all, true).take(min_of(RECENT_REVIEWED as int, with_reviewed(games, all, true).len() as int)),
            Section::Reviewed,
        ) + seq![ListRow::Header { title: Heading::Recent }] + game_rows(
            with_reviewed(games, all, false).take(min_of(RECENT_OTHER as int, with_reviewed(games, all, false).len() as int)),
            Section::Recent,
        ) + seq![ListRow::Header { title: Heading::AllGames }] + game_rows(all.take(shown), Section::All) + more
    } else {
        seq![ListRow::Header { title: Heading::Matches }] + game_rows(all.take(shown), Section::All) + more
    }
}

/// The positions of the rows the selection stops on: all but headers.
pub open spec fn walk_of(rows: Seq<ListRow>) -> Seq<usize>
    decreases rows.len(),
{
    if rows.len() == 0 {
        Seq::empty()
    } else if rows.last() is Header {
        walk_of(rows.drop_last())
    } else {
        walk_of(rows.drop_last()).push((rows.len() - 1) as usize)
    }
}

/// The query as it is matched: trimmed and lower-cased.
pub open spec fn list_query(query: Seq<char>) -> Seq<char> {
    folded(trim(query))
}

fn push_rows(rows: &mut Vec<ListRow>, walk: &mut Vec<usize>, ids: &Vec<usize>, upto: usize, section: Section)
    requires
        upto <= ids@.len(),
        old(walk)@ == walk_of(old(rows)@),
        old(rows)@.len() + upto < usize::MAX,
    ensures
        final(rows)@ == old(rows)@ + game_rows(ids@.take(upto as int), section),
        final(walk)@ == walk_of(final(rows)@),
{
    let ghost r0 = rows@;
    let mut k: usize = 0;
    while k < upto
        invariant
            upto <= ids@.len(),
            r0.len() + upto < usize::MAX,
            0 <= k <= upto,
            rows@ == r0 + game_rows(ids@.take(k as int), section),
            walk@ == walk_of(rows@),
        decreases upto - k,
    {
        let ghost rb = rows@;
        let n = rows.len();
        walk.push(n);
        rows.push(ListRow::Game { lib_idx: ids[k], section });
        proof {
            assert(rows@.drop_last() =~= rb);
            assert(rows@ =~= r0 + game_rows(ids@.take(k + 1), section));
        }
        k = k + 1;
    }
}

fn push_header(rows: &mut Vec<ListRow>, walk: &Vec<usize>, title: Heading)
    requires
        old(rows)@.len() < usize::MAX,
        walk@ == walk_of(old(rows)@),
    ensures
        final(rows)@ == old(rows)@.push(ListRow::Header { title }),
        walk@ == walk_of(final(rows)@),
{
    let ghost r0 = rows@;
    rows.push(ListRow::Header { title });
    assert(rows@.drop_last() =~= r0);
}

fn first_reviewed(games: &Vec<Game>, ids: &Vec<usize>, reviewed: bool, n: usize) -> (r: Vec<usize>)
    requires
        forall|k: int| 0 <= k < ids@.len() ==> #[trigger] ids@[k] < games@.len(),
    ensures
        r@ == with_reviewed(games@, ids@, reviewed).take(min_of(n as int, with_reviewed(games@, ids@, reviewed).len() as int)),
        r@.len() <= n,
{
    let mut all: Vec<usize> = Vec::new();
    let mut i: usize = 0;
    while i < ids.len()
        invariant
            forall|k: int| 0 <= k < ids@.len() ==> #[trigger] ids@[k] < games@.len(),
            0 <= i <= ids@.len(),
            all@ == with_reviewed(games@, ids@.take(i as int), reviewed),
        decreases ids@.len() - i,
    {
        assert(ids@.take(i + 1).drop_last() =~= ids@.take(i as int));
        assert(ids@.take(i + 1).last() == ids@[i as int]);
        let idx = ids[i];
        if games[idx].reviewed == reviewed {
            all.push(idx);
        }
        i = i + 1;
    }
    assert(ids@.take(ids@.len() as int) =~= ids@);
    let m = if n < all.len() {
        n
    } else {
        all.len()
    };
    all.truncate(m);
    all
}

fn matching_ids(games: &Vec<Game>, q: &str) -> (ids: Vec<usize>)
    ensures
        ids@ == query_ids(games@, q@),
        forall|k: int| 0 <= k < ids@.len() ==> #[trigger] ids@[k] < games@.len(),
        ids@.len() <= games@.len(),
{
    let mut ids: Vec<usize> = Vec::new();
    let mut i: usize = 0;
    while i < games.len()
        invariant
            0 <= i <= games@.len(),
            ids@ == query_ids(games@.take(i as int), q@),
            forall|k: int| 0 <= k < ids@.len() ==> #[trigger] ids@[k] < i,
            ids@.len() <= i,
        decreases games@.len() - i,
    {
        assert(games@.take(i + 1).drop_last() =~= games@.take(i as int));
        assert(games@.take(i + 1).last() == games@[i as int]);
        if matches_query(&games[i], q) {
            ids.push(i);
        }
        i = i + 1;
    }
    assert(games@.take(games@.len() as int) =~= games@);
    ids
}

/// How many games of the full list a rebuild shows (see `shown_count`).
pub fn shown_for(mode: RebuildMode, prev_shown: usize, n: usize) -> (r: usize)
    ensures
        r == shown_count(mode, prev_shown as int, n as int),
        r <= n,
{
    let page: usize = if ALL_PAGE < n {
        ALL_PAGE
    } else {
        n
    };
    match mode {
        RebuildMode::Reset => page,
        RebuildMode::LoadMore => {
            let m: usize = if prev_shown < n && n - prev_shown > ALL_PAGE {
                prev_shown + ALL_PAGE
            } else {
                n
            };
            if m > page {
                m
            } else {
                page
            }
        },
        RebuildMode::Soft => {
            let m = if prev_shown > page {
                prev_shown
            } else {
                page
            };
            if m < n {
                m
            } else {
                n
            }
        },
    }
}

fn list_rows_of(games: &Vec<Game>, q: &str, all_ids: &Vec<usize>, all_shown: usize) -> (r: (Vec<ListRow>, Vec<usize>))
    requires
        all_ids@ == query_ids(games@, q@),
        forall|k: int| 0 <= k < all_ids@.len() ==> #[trigger] all_ids@[k] < games@.len(),
        all_ids@.len() < 0x1000_0000,
        all_shown <= all_ids@.len(),
    ensures
        r.0@ == list_rows(games@, q@, all_shown as int),
        r.1@ == walk_of(r.0@),
{
    let n = all_ids.len();
    let mut rows: Vec<ListRow> = Vec::new();
    let mut walk: Vec<usize> = Vec::new();
    assert(walk@ =~= walk_of(rows@));
    if q.is_empty() {
        let reviewed = first_reviewed(games, all_ids, true, RECENT_REVIEWED);
        let recent = first_reviewed(games, all_ids, false, RECENT_OTHER);
        push_header(&mut rows, &walk, Heading::RecentlyReviewed);
        push_rows(&mut rows, &mut walk, &reviewed, reviewed.len(), Section::Reviewed);
        push_header(&mut rows, &walk, Heading::Recent);
        push_rows(&mut rows, &mut walk, &recent, recent.len(), Section::Recent);
        push_header(&mut rows, &walk, Heading::AllGames);
        push_rows(&mut rows, &mut walk, all_ids, all_shown, Section::All);
        proof {
            assert(reviewed@.take(reviewed@.len() as int) =~= reviewed@);
            assert(recent@.take(recent@.len() as int) =~= recent@);
        }
    } else {
        push_header(&mut rows, &walk, Heading::Matches);
        push_rows(&mut rows, &mut walk, all_ids, all_shown, Section::All);
    }
    if all_shown < n {
        let ghost r0 = rows@;
        let k = rows.len();
        walk.push(k);
        rows.push(ListRow::More { section: Section::All });
        assert(rows@.drop_last() =~= r0);
    }
    assert(rows@ =~= list_rows(games@, q@, all_shown as int));
    (rows, walk)
}

/// The list for a library, a query as typed, a paging mode and what was shown before.
pub fn build_list_model(games: &Vec<Game>, query: &str, mode: RebuildMode, prev_shown: usize) -> (m: ListModel)
    requires
        games@.len() < 0x1000_0000,
    ensures
        m.query@ == list_query(query@),
        vstd::utf8::is_ascii_chars(trim(query@)) ==> m.query@ == trim(query@).map_values(
            |c: char| crate::text::lower(c),
        ),
        m.all_ids@ == query_ids(games@, m.query@),
        m.all_shown == shown_count(mode, prev_shown as int, m.all_ids@.len() as int),
        m.rows@ == list_rows(games@, m.query@, m.all_shown as int),
        m.walk@ == walk_of(m.rows@),
{
    let qc = chars_of(query);
    let qt = trim_chars(&qc);
    let qs = string_from_chars(&qt);
    let q = to_lowercase(qs.as_str());
    let all_ids = matching_ids(games, q.as_str());
    let all_shown = shown_for(mode, prev_shown, all_ids.len());
    let (rows, walk) = list_rows_of(games, q.as_str(), &all_ids, all_shown);
    ListModel { walk, rows, all_ids, all_shown, query: q }
}

/// Where a row stands in walk order: its first position there, or 0 for a row not in it.
pub open spec fn walk_pos(walk: Seq<usize>, from_row: usize) -> int {
    if exists|p: int| 0 <= p < walk.len() && walk[p] == from_row {
        choose|p: int| 0 <= p < walk.len() && walk[p] == from_row && forall|q: int| 0 <= q < p ==> walk[q] != from_row
    } else {
        0
    }
}

/// The row after (`dir` ≥ 0) or before `from_row` in walk order, wrapping around; from
/// a row not in the walk, the step is taken from its first row.
pub open spec fn next_walk(walk: Seq<usize>, from_row: usize, dir: i32) -> Option<usize> {
    if walk.len() == 0 {
        None
    } else {
        let pos = walk_pos(walk, from_row);
        let next = if dir >= 0 {
            if pos + 1 < walk.len() {
                pos + 1
            } else {
                0
            }
        } else if pos > 0 {
            pos - 1
        } else {
            walk.len() - 1
        };
        Some(walk[next])
    }
}

pub fn next_walk_row(walk: &Vec<usize>, from_row: usize, dir: i32) -> (r: Option<usize>)
    ensures
        r == next_walk(walk@, from_row, dir),
{
    let n = walk.len();
    let mut pos: usize = 0;
    let mut found = false;
    let mut i: usize = 0;
    while i < n && !found
        invariant
            n == walk@.len(),
            0 <= i <= n,
            !found ==> pos == 0 && forall|q: int| 0 <= q < i ==> walk@[q] != from_row,
            found ==> pos < n && walk@[pos as int] == from_row && forall|q: int| 0 <= q < pos ==> walk@[q] != from_row,
        decreases n - i + if found { 0int } else { 1int },
    {
        if walk[i] == from_row {
            pos = i;
            found = true;
        } else {
            i = i + 1;
        }
    }
    if n == 0 {
        return None;
    }
    proof {
        if !found {
            assert(!exists|p: int| 0 <= p < walk@.len() && walk@[p] == from_row);
        }
        if found {
            assert(exists|p: int| 0 <= p < walk@.len() && walk@[p] == from_row) by {
                assert(walk@[pos as int] == from_row);
            }
            let p = choose|p: int| 0 <= p < walk@.len() && walk@[p] == from_row && forall|q: int| 0 <= q < p ==> walk@[q] != from_row;
            if p < pos {
                assert(walk@[p] != from_row);
            }
            if pos < p {
                assert(walk@[pos as int] != from_row);
            }
        }
        assert(walk_pos(walk@, from_row) == pos as int);
    }
    let next: usize = if dir >= 0 {
        if pos < n - 1 {
            pos + 1
        } else {
            0
        }
    } else if pos > 0 {
        pos - 1
    } else {
        n - 1
    };
    Some(walk[next])
}

/// Every game kept by the reviewed-flag filter has that flag.
proof fn lemma_with_reviewed_flag(games: Seq<Game>, ids: Seq<usize>, reviewed: bool)
    ensures
        forall|k: int|
            0 <= k < with_reviewed(games, ids, reviewed).len() ==> games[#[trigger] with_reviewed(
                games,
                ids,
                reviewed,
            )[k] as int].reviewed == reviewed,
    decreases ids.len(),
{
    if ids.len() > 0 {
        lemma_with_reviewed_flag(games, ids.drop_last(), reviewed);
    }
}

/// The unfiltered list: at most three reviewed games under "Recently reviewed", all of
/// them reviewed; at most twelve others under "Recent", none of them reviewed.
pub proof fn law_sections(games: Seq<Game>, shown: int)
    ensures
        ({
            let all = query_ids(games, Seq::empty());
            let rev = with_reviewed(games, all, true);
            let rec = with_reviewed(games, all, false);
            let top = rev.take(min_of(RECENT_REVIEWED as int, rev.len() as int));
            let mid = rec.take(min_of(RECENT_OTHER as int, rec.len() as int));
            &&& list_rows(games, Seq::empty(), shown) == seq![ListRow::Header { title: Heading::RecentlyReviewed }]
                + game_rows(top, Section::Reviewed) + seq![ListRow::Header { title: Heading::Recent }] + game_rows(
                mid,
                Section::Recent,
            ) + seq![ListRow::Header { title: Heading::AllGames }] + game_rows(all.take(shown), Section::All) + if shown
                < all.len() {
                seq![ListRow::More { section: Section::All }]
            } else {
                Seq::empty()
            }
            &&& top.len() <= RECENT_REVIEWED
            &&& mid.len() <= RECENT_OTHER
            &&& forall|k: int| 0 <= k < top.len() ==> games[#[trigger] top[k] as int].reviewed
            &&& forall|k: int| 0 <= k < mid.len() ==> !games[#[trigger] mid[k] as int].reviewed
        }),
{
    let all = query_ids(games, Seq::empty());
    lemma_with_reviewed_flag(games, all, true);
    lemma_with_reviewed_flag(games, all, false);
    let rev = with_reviewed(games, all, true);
    let rec = with_reviewed(games, all, false);
    let top = rev.take(min_of(RECENT_REVIEWED as int, rev.len() as int));
    let mid = rec.take(min_of(RECENT_OTHER as int, rec.len() as int));
    assert forall|k: int| 0 <= k < top.len() implies games[#[trigger] top[k] as int].reviewed by {
        assert(top[k] == rev[k]);
    }
    assert forall|k: int| 0 <= k < mid.len() implies !games[#[trigger] mid[k] as int].reviewed by {
        assert(mid[k] == rec[k]);
    }
}

/// "Load more" never shows fewer games than before nor more than there are, and shows
/// at least one more while any is hidden.
pub proof fn law_load_more(prev_shown: int, n: int)
    requires
        0 <= prev_shown <= n,
    ensures
        prev_shown <= shown_count(RebuildMode::LoadMore, prev_shown, n) <= n,
        prev_shown < n ==> prev_shown < shown_count(RebuildMode::LoadMore, prev_shown, n),
        shown_count(RebuildMode::LoadMore, prev_shown, n) <= prev_shown + ALL_PAGE || shown_count(
            RebuildMode::LoadMore,
            prev_shown,
            n,
        ) == min_of(ALL_PAGE as int, n),
{
}

/// A soft rebuild after "load more" keeps every game that was loaded.
pub proof fn law_soft_keeps_loaded(prev_shown: int, n: int)
    requires
        0 <= prev_shown <= n,
    ensures
        shown_count(RebuildMode::Soft, shown_count(RebuildMode::LoadMore, prev_shown, n), n) == shown_count(
            RebuildMode::LoadMore,
            prev_shown,
            n,
        ),
        shown_count(RebuildMode::Soft, prev_shown, n) >= prev_shown,
{
}

/// The rows the selection stops on stand in increasing order and are no headers.
proof fn lemma_walk_increasing(rows: Seq<ListRow>)
    requires
        rows.len() <= usize::MAX,
    ensures
        forall|a: int, b: int|
            0 <= a < b < walk_of(rows).len() ==> #[trigger] walk_of(rows)[a] < #[trigger] walk_of(rows)[b],
        forall|a: int| 0 <= a < walk_of(rows).len() ==> #[trigger] walk_of(rows)[a] < rows.len(),
        forall|a: int| 0 <= a < walk_of(rows).len() ==> !(rows[#[trigger] walk_of(rows)[a] as int] is Header),
    decreases rows.len(),
{
    if rows.len() > 0 {
        lemma_walk_increasing(rows.drop_last());
        let w = walk_of(rows.drop_last());
        assert forall|a: int| 0 <= a < w.len() implies !(rows[#[trigger] w[a] as int] is Header) by {
            assert(rows[w[a] as int] == rows.drop_last()[w[a] as int]);
        }
    }
}

/// In a walk without repeats, a row's walk position is where it stands.
proof fn lemma_walk_pos_distinct(walk: Seq<usize>, p: int)
    requires
        0 <= p < walk.len(),
        forall|a: int, b: int| 0 <= a < b < walk.len() ==> #[trigger] walk[a] < #[trigger] walk[b],
    ensures
        walk_pos(walk, walk[p]) == p,
{
    let x = walk[p];
    assert(0 <= p < walk.len() && walk[p] == x);
    assert(exists|q: int| 0 <= q < walk.len() && #[trigger] walk[q] == x);
    let c = choose|q: int| 0 <= q < walk.len() && walk[q] == x && forall|r: int| 0 <= r < q ==> walk[r] != x;
    assert(forall|r: int| 0 <= r < p ==> walk[r] < walk[p]);
    assert(0 <= c < walk.len() && walk[c] == x && forall|r: int| 0 <= r < c ==> walk[r] != x);
    if c < p {
        assert(walk[c] < walk[p]);
    } else if c > p {
        assert(walk[p] < walk[c]);
    }
}

/// Moving the selection down a row and back up returns to the row left, on any list;
/// from the last row, down wraps to the first.
pub proof fn law_walk_round_trip(rows: Seq<ListRow>, p: int)
    requires
        rows.len() <= usize::MAX,
        0 <= p < walk_of(rows).len(),
    ensures
        ({
            let walk = walk_of(rows);
            let n = walk.len() as int;
            let q = if p + 1 < n { p + 1 } else { 0 };
            &&& next_walk(walk, walk[p], 1i32) == Some(walk[q])
            &&& next_walk(walk, walk[q], -1i32) == Some(walk[p])
        }),
{
    let walk = walk_of(rows);
    let n = walk.len() as int;
    let q = if p + 1 < n { p + 1 } else { 0 };
    lemma_walk_increasing(rows);
    lemma_walk_pos_distinct(walk, p);
    lemma_walk_pos_distinct(walk, q);
}

/// The mark before a game's row: reviewed, analysed, or neither.
pub open spec fn row_mark(g: Game) -> Seq<char> {
    if g.reviewed {
        "\u{2713}"@
    } else if g.analyzed() {
        "\u{25c7}"@
    } else {
        "\u{b7}"@
    }
}

/// A game's row: its mark, the day it was played, the opponent and the result.
pub open spec fn row_text(g: Game) -> Seq<char> {
    let date = match opt_date(g.played_at) {
        Some(d) => d,
        None => "\u{2014}"@,
    };
    row_mark(g) + "  "@ + date + "  \u{b7}  vs "@ + opp_name(g) + "  \u{b7}  "@ + text_or(g.result, "\u{2014}"@)
}

/// The row of a game, and whether its spinner turns (the game being analysed).
pub fn game_row_label(game: &Game, analyzing: &Option<(String, String)>) -> (r: (String, bool))
    ensures
        r.0@ == row_text(*game),
        r.1 == (analyzing matches Some(k) && k.0@ == game.id@ && k.1@ == game.game_type@),
{
    let mut out: Vec<char> = Vec::new();
    if game.is_reviewed() {
        push_str(&mut out, "\u{2713}");
    } else if game.is_analyzed() {
        push_str(&mut out, "\u{25c7}");
    } else {
        push_str(&mut out, "\u{b7}");
    }
    push_str(&mut out, "  ");
    let date = match game.played_at {
        Some(t) => format_instant(t, "%d %b"),
        None => None,
    };
    match date {
        Some(d) => push_str(&mut out, d.as_str()),
        None => push_str(&mut out, "\u{2014}"),
    }
    push_str(&mut out, "  \u{b7}  vs ");
    if is_filled(&game.opponent) {
        push_text_or(&mut out, &game.opponent, "Opp");
    } else {
        push_str(&mut out, "Opp");
    }
    push_str(&mut out, "  \u{b7}  ");
    push_text_or(&mut out, &game.result, "\u{2014}");
    let spinning = match analyzing {
        Some(k) => str_eq(k.0.as_str(), game.id.as_str()) && str_eq(k.1.as_str(), game.game_type.as_str()),
        None => false,
    };
    (string_from_chars(&out), spinning)
}

pub open spec fn more_text(left: nat) -> Seq<char> {
    "\u{2193}  load more ("@ + nat_text(left) + " left)"@
}

/// The "load more" row, with how many games it would still show.
pub fn more_label(left: usize) -> (r: String)
    ensures
        r@ == more_text(left as nat),
{
    let mut out = chars_of("\u{2193}  load more (");
    let d = nat_chars(left as u64);
    push_chars(&mut out, &d);
    push_str(&mut out, " left)");
    string_from_chars(&out)
}

/// The first position below `len` where `p` holds.
pub open spec fn first_where(len: int, p: spec_fn(int) -> bool) -> Option<int> {
    if exists|k: int| 0 <= k < len && #[trigger] p(k) {
        Some(choose|k: int| 0 <= k < len && #[trigger] p(k) && forall|j: int| 0 <= j < k ==> !#[trigger] p(j))
    } else {
        None
    }
}

proof fn lemma_first_where(len: int, p: spec_fn(int) -> bool, k: int)
    requires
        0 <= k < len,
        p(k),
        forall|j: int| 0 <= j < k ==> !#[trigger] p(j),
    ensures
        first_where(len, p) == Some(k),
{
    assert(exists|q: int| 0 <= q < len && #[trigger] p(q));
    let c = choose|q: int| 0 <= q < len && #[trigger] p(q) && forall|j: int| 0 <= j < q ==> !#[trigger] p(j);
    assert(0 <= c < len && p(c) && forall|j: int| 0 <= j < c ==> !#[trigger] p(j));
    if c < k {
        assert(!p(c));
    } else if c > k {
        assert(!p(k));
    }
}

/// The row is a game of the full list shown by the last page.
pub open spec fn new_on_page(rows: Seq<ListRow>, all_ids: Seq<usize>, start: int, k: int) -> bool {
    rows[k] matches ListRow::Game { lib_idx, section: Section::All } && all_ids.subrange(start, all_ids.len() as int).contains(
        lib_idx,
    )
}

/// The row is the game with this key.
pub open spec fn row_has_key(rows: Seq<ListRow>, games: Seq<Game>, key: (Seq<char>, Seq<char>), k: int) -> bool {
    rows[k] matches ListRow::Game { lib_idx, .. } && lib_idx < games.len() && games[lib_idx as int].id@ == key.0
        && games[lib_idx as int].game_type@ == key.1
}

/// Where the last page of the full list starts.
pub open spec fn page_start(all_shown: usize) -> int {
    if all_shown >= ALL_PAGE {
        all_shown - ALL_PAGE
    } else {
        0
    }
}

/// The row selected after a rebuild: after "load more", the first game of the new page;
/// else the game that was selected; failing that, the first row the selection stops on.
pub open spec fn selection_after(
    m: ListModel,
    games: Seq<Game>,
    prefer_new: bool,
    prev_key: Option<(Seq<char>, Seq<char>)>,
) -> Option<usize> {
    let found = if prefer_new {
        first_where(m.rows@.len() as int, |k: int| new_on_page(m.rows@, m.all_ids@, page_start(m.all_shown), k))
    } else {
        match prev_key {
            Some(key) => first_where(m.rows@.len() as int, |k: int| row_has_key(m.rows@, games, key, k)),
            None => None,
        }
    };
    match found {
        Some(k) => Some(k as usize),
        None => if m.walk@.len() > 0 {
            Some(m.walk@[0])
        } else {
            None
        },
    }
}

fn contains_from(ids: &Vec<usize>, start: usize, x: usize) -> (r: bool)
    requires
        start <= ids@.len(),
    ensures
        r == ids@.subrange(start as int, ids@.len() as int).contains(x),
{
    let mut i = start;
    while i < ids.len()
        invariant
            start <= i <= ids@.len(),
            forall|j: int| start <= j < i ==> ids@[j] != x,
        decreases ids@.len() - i,
    {
        if ids[i] == x {
            assert(ids@.subrange(start as int, ids@.len() as int)[i - start] == x);
            return true;
        }
        i = i + 1;
    }
    assert forall|j: int| 0 <= j < ids@.len() - start implies ids@.subrange(start as int, ids@.len() as int)[j] != x by {
        assert(ids@.subrange(start as int, ids@.len() as int)[j] == ids@[start + j]);
    }
    false
}

/// Which row to select after a rebuild (see `selection_after`).
pub fn select_after_rebuild(
    m: &ListModel,
    games: &Vec<Game>,
    prefer_new: bool,
    prev_key: &Option<(String, String)>,
) -> (r: Option<usize>)
    requires
        m.all_shown <= m.all_ids@.len(),
    ensures
        r == selection_after(*m, games@, prefer_new, match prev_key {
            Some(k) => Some((k.0@, k.1@)),
            None => None,
        }),
{
    let ghost key: Option<(Seq<char>, Seq<char>)> = match prev_key {
        Some(k) => Some((k.0@, k.1@)),
        None => None,
    };
    let start: usize = if m.all_shown >= ALL_PAGE {
        m.all_shown - ALL_PAGE
    } else {
        0
    };
    assert(start == page_start(m.all_shown));
    let ghost pn = |k: int| new_on_page(m.rows@, m.all_ids@, page_start(m.all_shown), k);
    let mut k: usize = 0;
    if prefer_new {
        while k < m.rows.len()
            invariant
                prefer_new,
                start <= m.all_ids@.len(),
                start == page_start(m.all_shown),
                pn == (|k: int| new_on_page(m.rows@, m.all_ids@, page_start(m.all_shown), k)),
                0 <= k <= m.rows@.len(),
                forall|j: int| 0 <= j < k ==> !#[trigger] pn(j),
            decreases m.rows@.len() - k,
        {
            match m.rows[k] {
                ListRow::Game { lib_idx, section: Section::All } => {
                    if contains_from(&m.all_ids, start, lib_idx) {
                        proof {
                            lemma_first_where(m.rows@.len() as int, pn, k as int);
                        }
                        return Some(k);
                    }
                },
                _ => {},
            }
            k = k + 1;
        }
        assert(first_where(m.rows@.len() as int, pn) is None);
    } else {
        match prev_key {
            Some(pk) => {
                let ghost ph = |j: int| row_has_key(m.rows@, games@, (pk.0@, pk.1@), j);
                while k < m.rows.len()
                    invariant
                        !prefer_new,
                        *prev_key == Some(*pk),
                        ph == (|j: int| row_has_key(m.rows@, games@, (pk.0@, pk.1@), j)),
                        0 <= k <= m.rows@.len(),
                        forall|j: int| 0 <= j < k ==> !#[trigger] ph(j),
                    decreases m.rows@.len() - k,
                {
                    match m.rows[k] {
                        ListRow::Game { lib_idx, .. } => {
                            if lib_idx < games.len() && str_eq(games[lib_idx].id.as_str(), pk.0.as_str())
                                && str_eq(games[lib_idx].game_type.as_str(), pk.1.as_str()) {
                                proof {
                                    lemma_first_where(m.rows@.len() as int, ph, k as int);
                                }
                                return Some(k);
                            }
                        },
                        _ => {},
                    }
                    k = k + 1;
                }
                assert(first_where(m.rows@.len() as int, ph) is None);
            },
            None => {},
        }
    }
    if m.walk.len() > 0 {
        Some(m.walk[0])
    } else {
        None
    }
}

/// The key of the game a row names, when it names one in the library.
pub open spec fn row_key(rows: Seq<ListRow>, games: Seq<Game>, k: int) -> Option<(Seq<char>, Seq<char>)> {
    match rows[k] {
        ListRow::Game { lib_idx, .. } => if lib_idx < games.len() {
            Some((games[lib_idx as int].id@, games[lib_idx as int].game_type@))
        } else {
            None
        },
        _ => None,
    }
}

/// The last game row before `k` that names a game of the library.
pub open spec fn key_before(rows: Seq<ListRow>, games: Seq<Game>, k: int) -> Option<(Seq<char>, Seq<char>)>
    decreases k,
{
    if k <= 0 {
        None
    } else {
        match row_key(rows, games, k - 1) {
            Some(key) => Some(key),
            None => key_before(rows, games, k - 1),
        }
    }
}

/// The game selected, to select again after a rebuild: the game of the selected row, or
/// for the "load more" row the last game above it.
pub open spec fn selected_key_of(rows: Seq<ListRow>, games: Seq<Game>, idx: Option<usize>) -> Option<(Seq<char>, Seq<char>)> {
    match idx {
        Some(i) => if i < rows.len() {
            match rows[i as int] {
                ListRow::Game { .. } => row_key(rows, games, i as int),
                ListRow::More { .. } => key_before(rows, games, i as int),
                ListRow::Header { .. } => None,
            }
        } else {
            None
        },
        None => None,
    }
}

fn key_of_row(rows: &Vec<ListRow>, games: &Vec<Game>, k: usize) -> (r: Option<(String, String)>)
    requires
        k < rows@.len(),
    ensures
        match r {
            Some(p) => row_key(rows@, games@, k as int) == Some((p.0@, p.1@)),
            None => row_key(rows@, games@, k as int) is None,
        },
{
    match rows[k] {
        ListRow::Game { lib_idx, .. } => if lib_idx < games.len() {
            Some((games[lib_idx].id.clone(), games[lib_idx].game_type.clone()))
        } else {
            None
        },
        _ => None,
    }
}

/// The key of the selected game (see `selected_key_of`).
pub fn selected_key(m: &ListModel, games: &Vec<Game>, idx: Option<usize>) -> (r: Option<(String, String)>)
    ensures
        match r {
            Some(p) => selected_key_of(m.rows@, games@, idx) == Some((p.0@, p.1@)),
            None => selected_key_of(m.rows@, games@, idx) is None,
        },
{
    let i = match idx {
        Some(i) => i,
        None => return None,
    };
    if i >= m.rows.len() {
        return None;
    }
    match m.rows[i] {
        ListRow::Game { .. } => key_of_row(&m.rows, games, i),
        ListRow::More { .. } => {
            let mut k = i;
            while k > 0
                invariant
                    idx == Some(i),
                    i < m.rows@.len(),
                    m.rows@[i as int] is More,
                    0 <= k <= i,
                    key_before(m.rows@, games@, i as int) == key_before(m.rows@, games@, k as int),
                decreases k,
            {
                match key_of_row(&m.rows, games, k - 1) {
                    Some(p) => return Some(p),
                    None => {},
                }
                k = k - 1;
            }
            None
        },
        ListRow::Header { .. } => None,
    }
}

/// The row of a section to jump to: the first row the selection stops on that belongs
/// to it.
pub open spec fn section_row(rows: Seq<ListRow>, walk: Seq<usize>, section: Section) -> Option<usize> {
    match first_where(walk.len() as int, |j: int| in_section(rows, walk[j], section)) {
        Some(j) => Some(walk[j]),
        None => None,
    }
}

pub open spec fn in_section(rows: Seq<ListRow>, r: usize, section: Section) -> bool {
    r < rows.len() && match rows[r as int] {
        ListRow::Game { section: s, .. } => s == section,
        ListRow::More { section: s } => s == section,
        ListRow::Header { .. } => false,
    }
}

pub fn jump_section(m: &ListModel, section: Section) -> (r: Option<usize>)
    ensures
        r == section_row(m.rows@, m.walk@, section),
{
    let ghost p = |j: int| in_section(m.rows@, m.walk@[j], section);
    let mut j: usize = 0;
    while j < m.walk.len()
        invariant
            p == (|j: int| in_section(m.rows@, m.walk@[j], section)),
            0 <= j <= m.walk@.len(),
            forall|q: int| 0 <= q < j ==> !#[trigger] p(q),
        decreases m.walk@.len() - j,
    {
        let r = m.walk[j];
        if r < m.rows.len() {
            let hit = match m.rows[r] {
                ListRow::Game { section: s, .. } => s == section,
                ListRow::More { section: s } => s == section,
                ListRow::Header { .. } => false,
            };
            if hit {
                proof {
                    lemma_first_where(m.walk@.len() as int, p, j as int);
                }
                return Some(r);
            }
        }
        j = j + 1;
    }
    assert(first_where(m.walk@.len() as int, p) is None);
    None
}

/// What a step of the selection does.
#[derive(Debug, Clone, Copy, PartialEq, Eq, Structural)]
pub enum WalkStep {
    /// Show another page of the full list.
    LoadMore,
    /// Select this row.
    Select(usize),
    /// Nothing to step to.
    Stay,
}

/// A step down (`dir` > 0) from the "load more" row loads more; any other step moves
/// along the walk (see `next_walk`).
pub open spec fn walk_step(rows: Seq<ListRow>, walk: Seq<usize>, cur: usize, dir: i32) -> WalkStep {
    if dir > 0 && cur < rows.len() && rows[cur as int] is More {
        WalkStep::LoadMore
    } else {
        match next_walk(walk, cur, dir) {
            Some(r) => WalkStep::Select(r),
            None => WalkStep::Stay,
        }
    }
}

pub fn step_walk(m: &ListModel, cur: usize, dir: i32) -> (r: WalkStep)
    ensures
        r == walk_step(m.rows@, m.walk@, cur, dir),
{
    let on_more = cur < m.rows.len() && match m.rows[cur] {
        ListRow::More { .. } => true,
        _ => false,
    };
    if dir > 0 && on_more {
        return WalkStep::LoadMore;
    }
    match next_walk_row(&m.walk, cur, dir) {
        Some(r) => WalkStep::Select(r),
        None => WalkStep::Stay,
    }
}

} // verus!
