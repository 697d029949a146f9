//! Importing games from chess.com's published data: reading PGN tags and game URLs,
//! turning an archive entry into a library record, and the decisions of a sync pass.
//! Fetching is left to the program around the library.
use vstd::prelude::*;

use crate::chess_util::{last_of, movetext_defined, pgn_moves, pgn_tail};
use crate::library::Library;
use crate::models::{opt_text, Game, Settings, UtcTime};
use crate::rules::{board_fen, start_fen_spec};
use crate::text::{
    folded, to_lowercase,
    chars_of, find_first, nat_chars, nat_text, find_lit, is_digit, lines_of, parse_i32, parse_i32_spec, push_chars,
    push_str, slice_chars, str_eq, string_from_chars, text_bytes, text_lines, trim, trim_chars,
};

verus! {

/// How many newest games to surface before the rest finish importing.
pub const EARLY_SYNC_BATCH: usize = 5;

/// The probe of chess.com's public API counts as online when an answer came with a
/// success status, or with 404 (the API is there, the player is not).
pub open spec fn probe_online(status: Option<u16>) -> bool {
    status matches Some(s) && ((200 <= s && s < 300) || s == 404)
}

/// Whether the network is there, from the status of the answer to the connectivity
/// probe (`None` when the request itself failed).
pub fn network_available(status: Option<u16>) -> (ok: bool)
    ensures
        ok == probe_online(status),
{
    match status {
        Some(s) => (200 <= s && s < 300) || s == 404,
        None => false,
    }
}

/// What a sync pass did. `elapsed_ms` is the wall time it took, in milliseconds.
#[derive(Debug, Clone)]
pub struct SyncReport {
    pub imported: usize,
    pub skipped: usize,
    pub fetched: usize,
    pub username: String,
    pub elapsed_ms: u64,
    pub offline: bool,
    pub message: String,
}

// ---------------------------------------------------------------------------
// PGN tags
// ---------------------------------------------------------------------------

/// A tag line `[Key "Value"]`: the key (the text up to the first space, trimmed) and
/// the value between the quotes (trimmed before the quotes are taken off).
pub open spec fn header_line_pair(line: Seq<char>) -> Option<(Seq<char>, Seq<char>)> {
    if line.len() >= 2 && line[0] == '[' && line.last() == ']' {
        let inner = line.subrange(1, line.len() - 1);
        match find_first(inner, " "@) {
            None => None,
            Some(p) => {
                let key = trim(inner.subrange(0, p));
                let val = trim(inner.subrange(p + 1, inner.len() as int));
                if val.len() >= 2 && val[0] == '"' && val.last() == '"' {
                    Some((key, val.subrange(1, val.len() - 1)))
                } else {
                    None
                }
            },
        }
    } else {
        None
    }
}

pub fn parse_header_line(line: &str) -> (r: Option<(String, String)>)
    ensures
        match header_line_pair(line@) {
            Some((k, v)) => r matches Some(p) && p.0@ == k && p.1@ == v,
            None => r is None,
        },
{
    let cs = chars_of(line);
    let n = cs.len();
    if !(n >= 2 && cs[0] == '[' && cs[n - 1] == ']') {
        return None;
    }
    let inner = slice_chars(&cs, 1, n - 1);
    proof {
        reveal_strlit(" ");
    }
    match find_lit(&inner, " ") {
        None => None,
        Some(p) => {
            let m = inner.len();
            let k0 = slice_chars(&inner, 0, p);
            let key = trim_chars(&k0);
            let v0 = slice_chars(&inner, p + 1, m);
            let val = trim_chars(&v0);
            let vn = val.len();
            if vn >= 2 && val[0] == '"' && val[vn - 1] == '"' {
                let v = slice_chars(&val, 1, vn - 1);
                Some((string_from_chars(&key), string_from_chars(&v)))
            } else {
                None
            }
        },
    }
}

/// Reading the lines of a PGN from line `i` with the tag pairs read so far: blank lines
/// are passed over; a line that does not start with `[` and has no `"` ends the header
/// once a tag has been read; every line that reads as a tag is recorded.
pub open spec fn header_log(
    lines: Seq<Seq<char>>,
    i: int,
    log: Seq<(Seq<char>, Seq<char>)>,
) -> Seq<(Seq<char>, Seq<char>)>
    decreases lines.len() - i,
{
    if i < 0 || i >= lines.len() {
        log
    } else {
        let t = trim(lines[i]);
        let tag_like = t.len() > 0 && t[0] == '[';
        if !tag_like && t.len() == 0 {
            header_log(lines, i + 1, log)
        } else if !tag_like && log.len() > 0 && !t.contains('"') {
            log
        } else {
            match header_line_pair(t) {
                Some(kv) => header_log(lines, i + 1, log.push(kv)),
                None => header_log(lines, i + 1, log),
            }
        }
    }
}

/// The tag pairs of a PGN's header, in the order read.
pub open spec fn pgn_header_log(pgn: Seq<char>) -> Seq<(Seq<char>, Seq<char>)> {
    header_log(text_lines(pgn), 0, Seq::empty())
}

/// The value a tag ends up with: the last one read for the key.
pub open spec fn header_value(log: Seq<(Seq<char>, Seq<char>)>, key: Seq<char>) -> Option<Seq<char>>
    decreases log.len(),
{
    if log.len() == 0 {
        None
    } else if log.last().0 == key {
        Some(log.last().1)
    } else {
        header_value(log.drop_last(), key)
    }
}

pub open spec fn pairs_view(v: Seq<(String, String)>) -> Seq<(Seq<char>, Seq<char>)> {
    v.map_values(|p: (String, String)| (p.0@, p.1@))
}

/// The tag pairs of a PGN's header, in the order read; a key read twice keeps the
/// later value (see `header_get`).
pub fn parse_pgn_headers(pgn: &str) -> (r: Vec<(String, String)>)
    ensures
        pairs_view(r@) == pgn_header_log(pgn@),
{
    let cs = chars_of(pgn);
    let lines = lines_of(&cs);
    let ghost ls = lines.deep_view();
    let mut log: Vec<(String, String)> = Vec::new();
    let mut i: usize = 0;
    let mut done = false;
    assert(pairs_view(log@) =~= Seq::<(Seq<char>, Seq<char>)>::empty());
    while i < lines.len() && !done
        invariant
            ls == lines.deep_view(),
            ls == text_lines(pgn@),
            0 <= i <= ls.len(),
            done ==> header_log(ls, i as int, pairs_view(log@)) == pairs_view(log@),
            header_log(ls, 0, Seq::empty()) == header_log(ls, i as int, pairs_view(log@)),
        decreases ls.len() - i + if done { 0int } else { 1int },
    {
        let t = trim_chars(&lines[i]);
        assert(lines@[i as int]@ == ls[i as int]);
        let tag_like = t.len() > 0 && t[0] == '[';
        if !tag_like && t.len() == 0 {
            i = i + 1;
        } else if !tag_like && log.len() > 0 && !crate::text::contains_char(&t, '"') {
            done = true;
        } else {
            let ts = string_from_chars(&t);
            match parse_header_line(ts.as_str()) {
                Some(kv) => {
                    let ghost before = pairs_view(log@);
                    let ghost kvv = (kv.0@, kv.1@);
                    log.push(kv);
                    assert(pairs_view(log@) =~= before.push(kvv));
                },
                None => {},
            }
            i = i + 1;
        }
    }
    log
}

/// The value of a tag: the last one read for the key.
pub fn header_get<'a>(headers: &'a Vec<(String, String)>, key: &str) -> (r: Option<&'a String>)
    ensures
        match header_value(pairs_view(headers@), key@) {
            Some(v) => r matches Some(s) && s@ == v,
            None => r is None,
        },
{
    let mut i: usize = headers.len();
    let ghost pv = pairs_view(headers@);
    assert(pv.take(i as int) =~= pv);
    while i > 0
        invariant
            pv == pairs_view(headers@),
            0 <= i <= headers@.len(),
            header_value(pv, key@) == header_value(pv.take(i as int), key@),
        decreases i,
    {
        assert(pv.take(i as int).drop_last() =~= pv.take(i - 1));
        assert(pv.take(i as int).last() == (headers@[i - 1].0@, headers@[i - 1].1@));
        if str_eq(headers[i - 1].0.as_str(), key) {
            return Some(&headers[i - 1].1);
        }
        i = i - 1;
    }
    None
}

// ---------------------------------------------------------------------------
// Game URLs
// ---------------------------------------------------------------------------

/// Reading `s` left to right: the non-empty pieces between `/` so far and the piece
/// being read.
pub open spec fn slash_scan(s: Seq<char>) -> (Seq<Seq<char>>, Seq<char>)
    decreases s.len(),
{
    if s.len() == 0 {
        (Seq::empty(), Seq::empty())
    } else {
        let (done, cur) = slash_scan(s.drop_last());
        if s.last() == '/' {
            if cur.len() > 0 {
                (done.push(cur), Seq::empty())
            } else {
                (done, Seq::empty())
            }
        } else {
            (done, cur.push(s.last()))
        }
    }
}

/// The non-empty pieces of `s` between slashes.
pub open spec fn slash_parts(s: Seq<char>) -> Seq<Seq<char>> {
    let (done, cur) = slash_scan(s);
    if cur.len() > 0 {
        done.push(cur)
    } else {
        done
    }
}

/// The longest run of ASCII digits that starts `s`.
pub open spec fn digits_prefix(s: Seq<char>) -> Seq<char>
    decreases s.len(),
{
    if s.len() > 0 && is_digit(s[0]) {
        seq![s[0]] + digits_prefix(s.drop_first())
    } else {
        Seq::empty()
    }
}

/// The game type and numeric id in a chess.com game URL, read after `marker`: from
/// `live/123` or `daily/123`, or `live` for a bare `123`; `None` without digits.
pub open spec fn url_game_parts(url: Seq<char>, marker: Seq<char>) -> Option<(Seq<char>, Seq<char>)> {
    match find_first(url, marker) {
        None => None,
        Some(p) => {
            let parts = slash_parts(url.subrange(p + marker.len(), url.len() as int));
            if parts.len() >= 2 && (parts[0] == "live"@ || parts[0] == "daily"@) {
                let id = digits_prefix(parts[1]);
                if id.len() == 0 {
                    None
                } else {
                    Some((parts[0], id))
                }
            } else if parts.len() >= 1 {
                let id = digits_prefix(parts[0]);
                if id.len() == 0 {
                    None
                } else {
                    Some(("live"@, id))
                }
            } else {
                None
            }
        },
    }
}

fn slash_split(s: &[char]) -> (parts: Vec<Vec<char>>)
    ensures
        parts.deep_view() == slash_parts(s@),
{
    let mut done: Vec<Vec<char>> = Vec::new();
    let mut cur: Vec<char> = Vec::new();
    let mut i: usize = 0;
    assert(done.deep_view() =~= Seq::<Seq<char>>::empty());
    while i < s.len()
        invariant
            0 <= i <= s@.len(),
            done.deep_view() == slash_scan(s@.take(i as int)).0,
            cur@ == slash_scan(s@.take(i as int)).1,
        decreases s@.len() - i,
    {
        let c = s[i];
        let ghost before = done.deep_view();
        assert(s@.take(i + 1).drop_last() == s@.take(i as int));
        assert(s@.take(i + 1).last() == c);
        if c == '/' {
            if cur.len() > 0 {
                let ghost w = cur@;
                assert(cur.deep_view() =~= w);
                done.push(cur);
                assert(done.deep_view() =~= before.push(w));
            }
            cur = Vec::new();
        } else {
            cur.push(c);
        }
        i = i + 1;
    }
    assert(s@.take(s@.len() as int) == s@);
    let ghost before = done.deep_view();
    if cur.len() > 0 {
        let ghost w = cur@;
        assert(cur.deep_view() =~= w);
        done.push(cur);
        assert(done.deep_view() =~= before.push(w));
    }
    done
}

fn leading_digits(s: &[char]) -> (r: Vec<char>)
    ensures
        r@ == digits_prefix(s@),
{
    let mut i: usize = 0;
    assert(s@.skip(0) =~= s@);
    assert(s@.take(0) + s@.skip(0) =~= s@);
    while i < s.len() && '0' <= s[i] && s[i] <= '9'
        invariant
            0 <= i <= s@.len(),
            digits_prefix(s@) == s@.take(i as int) + digits_prefix(s@.skip(i as int)),
        decreases s@.len() - i,
    {
        proof {
            let rest = s@.skip(i as int);
            assert(rest.drop_first() =~= s@.skip(i + 1));
            assert(s@.take(i + 1) =~= s@.take(i as int) + seq![rest[0]]);
        }
        i = i + 1;
    }
    proof {
        assert(s@.skip(0) =~= s@);
    }
    slice_chars(s, 0, i)
}

/// The game type and numeric id of a chess.com game URL, read after `marker`.
pub fn find_two(url: &str, marker: &str) -> (r: Option<(String, String)>)
    ensures
        match url_game_parts(url@, marker@) {
            Some((t, id)) => r matches Some(p) && p.0@ == t && p.1@ == id,
            None => r is None,
        },
{
    let cs = chars_of(url);
    let mk = chars_of(marker);
    let n = cs.len();
    let idx = match crate::text::find(&cs, &mk) {
        Some(i) => i,
        None => return None,
    };
    assert(crate::text::occurs_at(cs@, mk@, idx as int));
    let rest = slice_chars(&cs, idx + mk.len(), n);
    let parts = slash_split(&rest);
    let ghost ps = parts.deep_view();
    proof {
        reveal_strlit("live");
        reveal_strlit("daily");
    }
    if parts.len() >= 2 {
        assert(parts@[0]@ == ps[0] && parts@[1]@ == ps[1]);
        let ty = string_from_chars(&parts[0]);
        if str_eq(ty.as_str(), "live") || str_eq(ty.as_str(), "daily") {
            let id = leading_digits(&parts[1]);
            if id.len() == 0 {
                return None;
            }
            return Some((ty, string_from_chars(&id)));
        }
    }
    if parts.len() >= 1 {
        assert(parts@[0]@ == ps[0]);
        let id = leading_digits(&parts[0]);
        if id.len() == 0 {
            return None;
        }
        return Some(("live".to_owned(), string_from_chars(&id)));
    }
    None
}

/// The game type and id of a chess.com game URL (`/game/live/123`, `/game/daily/123`,
/// `/game/123`).
pub fn regex_lite_game_url(url: &str) -> (r: Option<(String, String)>)
    ensures
        match url_game_parts(url@, "/game/"@) {
            Some((t, id)) => r matches Some(p) && p.0@ == t && p.1@ == id,
            None => r is None,
        },
{
    find_two(url, "/game/")
}

pub fn parse_game_url(url: &str) -> (r: Option<(String, String)>)
    ensures
        match url_game_parts(url@, "/game/"@) {
            Some((t, id)) => r matches Some(p) && p.0@ == t && p.1@ == id,
            None => r is None,
        },
{
    regex_lite_game_url(url)
}

/// The user's chess.com name, when set and not empty.
pub fn settings_username(settings: &Settings) -> (r: Option<&str>)
    ensures
        match settings.my_username {
            Some(u) if u@.len() > 0 => r matches Some(s) && s@ == u@,
            _ => r is None,
        },
{
    match &settings.my_username {
        Some(u) => {
            if u.as_str().is_empty() {
                None
            } else {
                Some(u.as_str())
            }
        },
        None => None,
    }
}

// ---------------------------------------------------------------------------
// Archive entries
// ---------------------------------------------------------------------------

/// The fields of a chess.com archive entry that an import reads.
#[derive(Debug, Clone)]
pub struct ApiGame {
    pub url: Option<String>,
    pub pgn: Option<String>,
    pub white_username: Option<String>,
    pub black_username: Option<String>,
    pub white_rating: Option<i64>,
    pub black_rating: Option<i64>,
    pub end_time: Option<i64>,
    pub time_control: Option<String>,
}

/// Whether chrono can represent the instant `secs` seconds after the Unix epoch: from
/// the first second of -262143-01-01 to the last of 262142-12-31 (chrono's `NaiveDate`
/// range, `MIN_YEAR` to `MAX_YEAR`), both in UTC.
pub open spec fn timestamp_in_range(secs: i64) -> bool {
    -8_334_601_228_800 <= secs <= 8_210_266_876_799
}

/// `chrono::DateTime::<Utc>::from_timestamp(secs, 0)`, as seconds and nanoseconds:
/// `None` when the instant is outside chrono's range, else exactly `secs` seconds.
#[verifier::external_body]
fn utc_from_timestamp(secs: i64) -> (r: Option<UtcTime>)
    ensures
        r is Some == timestamp_in_range(secs),
        r matches Some(t) ==> t.secs == secs && t.nanos == 0,
{
    chrono::DateTime::from_timestamp(secs, 0).map(
        |dt| UtcTime { secs: dt.timestamp(), nanos: dt.timestamp_subsec_nanos() },
    )
}

/// A name from the PGN tag, else the archive's, else the default.
pub open spec fn tag_or(log: Seq<(Seq<char>, Seq<char>)>, key: Seq<char>, api: Option<String>, default: Seq<char>) -> Seq<char> {
    match header_value(log, key) {
        Some(v) => v,
        None => match api {
            Some(a) => a@,
            None => default,
        },
    }
}

/// A rating from the PGN tag when it reads as an `i32`, else the archive's (cut to
/// `i32` as `as` does).
pub open spec fn rating_from(log: Seq<(Seq<char>, Seq<char>)>, key: Seq<char>, api: Option<i64>) -> Option<i32> {
    let tag = match header_value(log, key) {
        Some(v) => parse_i32_spec(v),
        None => None,
    };
    match tag {
        Some(r) => Some(r),
        None => match api {
            Some(n) => Some(n as i32),
            None => None,
        },
    }
}

/// The archive entry has what a record needs: a URL that names a game and a PGN.
pub open spec fn api_importable(api: ApiGame) -> bool {
    &&& api.url is Some
    &&& api.pgn is Some
    &&& api.pgn->0@.len() > 0
    &&& url_game_parts(api.url->0@, "/game/"@) is Some
}

/// The instant a game ended: the archive's end time where chrono can hold it, else now.
pub open spec fn end_instant(end_time: Option<i64>, now: UtcTime) -> UtcTime {
    match end_time {
        Some(s) => if timestamp_in_range(s) {
            UtcTime { secs: s, nanos: 0 }
        } else {
            now
        },
        None => now,
    }
}

/// The record imported from an archive entry, field by field.
pub open spec fn imported_record(g: Game, api: ApiGame, my_username: Seq<char>, now: UtcTime) -> bool {
    let url = api.url->0@;
    let pgn = api.pgn->0@;
    let (ty, id) = url_game_parts(url, "/game/"@)->0;
    let log = pgn_header_log(pgn);
    let white = tag_or(log, "White"@, api.white_username, "White"@);
    let black = tag_or(log, "Black"@, api.black_username, "Black"@);
    let me = folded(my_username);
    let ms = pgn_moves(pgn);
    &&& g.id@ == id
    &&& g.game_type@ == ty
    &&& opt_text(g.url) == Some(url)
    &&& g.white@ == white
    &&& g.black@ == black
    &&& if folded(white) == me {
        opt_text(g.user_color) == Some("white"@) && opt_text(g.opponent) == Some(black)
    } else if folded(black) == me {
        opt_text(g.user_color) == Some("black"@) && opt_text(g.opponent) == Some(white)
    } else {
        g.user_color is None && g.opponent is None
    }
    &&& g.white_elo == rating_from(log, "WhiteElo"@, api.white_rating)
    &&& g.black_elo == rating_from(log, "BlackElo"@, api.black_rating)
    &&& opt_text(g.result) == header_value(log, "Result"@)
    &&& opt_text(g.time_control) == match header_value(log, "TimeControl"@) {
        Some(v) => Some(v),
        None => opt_text(api.time_control),
    }
    &&& opt_text(g.eco) == header_value(log, "ECO"@)
    &&& opt_text(g.termination) == header_value(log, "Termination"@)
    &&& g.played_at == Some(end_instant(api.end_time, now))
    &&& opt_text(g.my_username) == Some(my_username)
    &&& g.pgn@ == pgn
    &&& opt_text(g.end_fen) == Some(board_fen(start_fen_spec(), ms))
    &&& g.end_ply == Some(ms.len() as u32)
    &&& g.end_uci.deep_view() == last_of(ms)
    &&& !g.has_analysis
    &&& !g.reviewed
    &&& g.analysis is None
}

fn opt_string(o: &Option<String>) -> (r: Option<String>)
    ensures
        opt_text(r) == opt_text(*o),
{
    match o {
        Some(s) => Some(s.clone()),
        None => None,
    }
}

fn tag_value(headers: &Vec<(String, String)>, key: &str) -> (r: Option<String>)
    ensures
        opt_text(r) == header_value(pairs_view(headers@), key@),
{
    match header_get(headers, key) {
        Some(v) => Some(v.clone()),
        None => None,
    }
}

fn tag_or_api(headers: &Vec<(String, String)>, key: &str, api: &Option<String>, default: &str) -> (r: String)
    ensures
        r@ == tag_or(pairs_view(headers@), key@, *api, default@),
{
    match header_get(headers, key) {
        Some(v) => v.clone(),
        None => match api {
            Some(a) => a.clone(),
            None => default.to_owned(),
        },
    }
}

fn rating(headers: &Vec<(String, String)>, key: &str, api: Option<i64>) -> (r: Option<i32>)
    ensures
        r == rating_from(pairs_view(headers@), key@, api),
{
    let tag = match header_get(headers, key) {
        Some(v) => {
            let cs = chars_of(v.as_str());
            parse_i32(&cs)
        },
        None => None,
    };
    match tag {
        Some(r) => Some(r),
        None => match api {
            Some(n) => Some(n as i32),
            None => None,
        },
    }
}

/// A library record for a chess.com archive entry, or `None` when the entry has no
/// PGN or its URL names no game. The user's side and opponent come from comparing the
/// players with `my_username` case-insensitively; the end time falls back to `now`.
pub fn record_from_pub_api(api: &ApiGame, my_username: &str, now: UtcTime) -> (r: Option<Game>)
    requires
        api_importable(*api) ==> text_bytes(api.pgn->0@) < usize::MAX && movetext_defined(api.pgn->0@),
    ensures
        r is Some <==> api_importable(*api),
        r matches Some(g) ==> imported_record(g, *api, my_username@, now),
{
    let url = match &api.url {
        Some(u) => u,
        None => return None,
    };
    let pgn = match &api.pgn {
        Some(p) => p,
        None => return None,
    };
    if pgn.as_str().is_empty() {
        return None;
    }
    let (game_type, id) = match parse_game_url(url.as_str()) {
        Some(p) => p,
        None => return None,
    };
    let headers = parse_pgn_headers(pgn.as_str());
    proof {
        reveal_strlit("White");
        reveal_strlit("Black");
    }
    let white = tag_or_api(&headers, "White", &api.white_username, "White");
    let black = tag_or_api(&headers, "Black", &api.black_username, "Black");
    let me = to_lowercase(my_username);
    let wl = to_lowercase(white.as_str());
    let bl = to_lowercase(black.as_str());
    let (user_color, opponent): (Option<String>, Option<String>) = if str_eq(wl.as_str(), me.as_str()) {
        (Some("white".to_owned()), Some(black.clone()))
    } else if str_eq(bl.as_str(), me.as_str()) {
        (Some("black".to_owned()), Some(white.clone()))
    } else {
        (None, None)
    };
    let end = match api.end_time {
        Some(s) => match utc_from_timestamp(s) {
            Some(t) => t,
            None => now,
        },
        None => now,
    };
    let (end_fen, end_ply, end_uci) = match pgn_tail(pgn.as_str()) {
        Some(tail) => (Some(tail.fen), Some(tail.ply as u32), tail.last_uci),
        None => (None, None, None),
    };
    let time_control = match tag_value(&headers, "TimeControl") {
        Some(v) => Some(v),
        None => opt_string(&api.time_control),
    };
    Some(
        Game {
            id,
            game_type,
            url: Some(url.clone()),
            white_elo: rating(&headers, "WhiteElo", api.white_rating),
            black_elo: rating(&headers, "BlackElo", api.black_rating),
            white,
            black,
            result: tag_value(&headers, "Result"),
            time_control,
            eco: tag_value(&headers, "ECO"),
            termination: tag_value(&headers, "Termination"),
            played_at: Some(end),
            user_color,
            opponent,
            my_username: Some(my_username.to_owned()),
            pgn: pgn.clone(),
            end_fen,
            end_ply,
            end_uci,
            has_analysis: false,
            reviewed: false,
            analysis: None,
        },
    )
}

// ---------------------------------------------------------------------------
// A sync pass
// ---------------------------------------------------------------------------

/// The user name a sync runs for: the one in the settings, unless it is blank.
pub open spec fn sync_user(settings: Settings) -> Option<Seq<char>> {
    match settings.my_username {
        Some(u) if trim(u@).len() > 0 => Some(u@),
        _ => None,
    }
}

pub fn sync_username(settings: &Settings) -> (r: Option<String>)
    ensures
        opt_text(r) == sync_user(*settings),
{
    match &settings.my_username {
        Some(u) => {
            let cs = chars_of(u.as_str());
            let t = trim_chars(&cs);
            if t.len() > 0 {
                Some(u.clone())
            } else {
                None
            }
        },
        None => None,
    }
}

/// Texts in the order `String` compares them (byte order, which for UTF-8 is the
/// order of code points): `a` comes strictly before `b`.
pub open spec fn text_lt(a: Seq<char>, b: Seq<char>) -> bool
    decreases a.len(),
{
    if a.len() == 0 {
        b.len() > 0
    } else if b.len() == 0 {
        false
    } else if a[0] < b[0] {
        true
    } else if a[0] == b[0] {
        text_lt(a.drop_first(), b.drop_first())
    } else {
        false
    }
}

pub proof fn lemma_text_lt_total(a: Seq<char>, b: Seq<char>)
    ensures
        a == b || text_lt(a, b) || text_lt(b, a),
        !(text_lt(a, b) && text_lt(b, a)),
        !text_lt(a, a),
    decreases a.len(),
{
    if a.len() == 0 {
        if b.len() == 0 {
            assert(a =~= b);
        }
    } else if b.len() == 0 {
        lemma_text_lt_total(a.drop_first(), a.drop_first());
    } else {
        lemma_text_lt_total(a.drop_first(), a.drop_first());
        if a[0] == b[0] {
            lemma_text_lt_total(a.drop_first(), b.drop_first());
            if a.drop_first() == b.drop_first() {
                assert(a =~= b) by {
                    assert forall|i: int| 0 <= i < a.len() implies a[i] == b[i] by {
                        if i > 0 {
                            assert(a[i] == a.drop_first()[i - 1]);
                            assert(b[i] == b.drop_first()[i - 1]);
                        }
                    }
                }
            }
        } else {
        }
    }
}

pub proof fn lemma_text_lt_trans(a: Seq<char>, b: Seq<char>, c: Seq<char>)
    requires
        text_lt(a, b),
        text_lt(b, c),
    ensures
        text_lt(a, c),
    decreases a.len(),
{
    if a.len() > 0 && b.len() > 0 && c.len() > 0 && a[0] == b[0] && b[0] == c[0] {
        lemma_text_lt_trans(a.drop_first(), b.drop_first(), c.drop_first());
    }
}

pub fn text_less(a: &Vec<char>, b: &Vec<char>) -> (r: bool)
    ensures
        r == text_lt(a@, b@),
{
    let mut i: usize = 0;
    assert(a@.skip(0) =~= a@);
    assert(b@.skip(0) =~= b@);
    while i < a.len() && i < b.len() && a[i] == b[i]
        invariant
            0 <= i <= a@.len(),
            i <= b@.len(),
            text_lt(a@, b@) == text_lt(a@.skip(i as int), b@.skip(i as int)),
        decreases a@.len() - i,
    {
        proof {
            assert(a@.skip(i as int).drop_first() =~= a@.skip(i + 1));
            assert(b@.skip(i as int).drop_first() =~= b@.skip(i + 1));
        }
        i = i + 1;
    }
    proof {
        if i < a.len() {
            assert(a@.skip(i as int)[0] == a@[i as int]);
        }
        if i < b.len() {
            assert(b@.skip(i as int)[0] == b@[i as int]);
        }
    }
    if i == a.len() {
        i < b.len()
    } else if i == b.len() {
        false
    } else {
        a[i] < b[i]
    }
}

/// `r` holds the texts of `s` rearranged (`r[k]` is `s[perm[k]]`) from the last in
/// `String` order to the first.
pub open spec fn newest_months_by(s: Seq<Seq<char>>, r: Seq<Seq<char>>, perm: Seq<int>) -> bool {
    &&& r.len() == s.len()
    &&& perm.len() == s.len()
    &&& forall|k: int| 0 <= k < r.len() ==> 0 <= #[trigger] perm[k] < s.len() && r[k] == s[perm[k]]
    &&& forall|k: int, l: int| 0 <= k < l < r.len() ==> #[trigger] perm[k] != #[trigger] perm[l]
    &&& forall|k: int, l: int| 0 <= k < l < r.len() ==> !text_lt(#[trigger] r[k], #[trigger] r[l])
}

/// The archive URLs from the newest month to the oldest: sorted, then reversed.
pub fn months_newest_first(urls: Vec<String>) -> (r: Vec<String>)
    ensures
        exists|perm: Seq<int>| newest_months_by(urls.deep_view(), r.deep_view(), perm),
{
    let ghost g = urls.deep_view();
    let n = urls.len();
    let mut src = urls;
    let mut out: Vec<String> = Vec::new();
    let mut keys: Vec<Vec<char>> = Vec::new();
    let ghost mut perm: Seq<int> = Seq::empty();
    assert(out.deep_view() =~= Seq::<Seq<char>>::empty());
    while src.len() > 0
        invariant
            n == g.len(),
            src@.len() <= n,
            src.deep_view() == g.subrange(n - src@.len(), n as int),
            keys.deep_view() == out.deep_view(),
            newest_months_by(g.subrange(0, n - src@.len()), out.deep_view(), perm),
        decreases src@.len(),
    {
        let ghost i: int = n - src@.len();
        let ghost o0 = out.deep_view();
        let ghost p0 = perm;
        let ghost sv0 = src.deep_view();
        let x = src.remove(0);
        assert(src.deep_view() =~= sv0.drop_first());
        assert(x@ == g[i]) by {
            assert(sv0[0] == g[i]);
        }
        let xk = chars_of(x.as_str());
        let mut pos: usize = out.len();
        while pos > 0 && text_less(&keys[pos - 1], &xk)
            invariant
                keys.deep_view() == o0,
                out.deep_view() == o0,
                0 <= pos <= o0.len(),
                forall|l: int| pos <= l < o0.len() ==> text_lt(#[trigger] o0[l], xk@),
            decreases pos,
        {
            assert(keys@[pos - 1]@ == o0[pos - 1]);
            pos = pos - 1;
        }
        proof {
            if pos > 0 {
                assert(keys@[pos - 1]@ == o0[pos - 1]);
            }
        }
        let ghost kv0 = keys@;
        let ghost ov0 = out@;
        out.insert(pos, x);
        keys.insert(pos, xk);
        proof {
            let r = out.deep_view();
            assert(r =~= o0.insert(pos as int, g[i])) by {
                assert forall|k: int| 0 <= k < out@.len() implies r[k] == o0.insert(pos as int, g[i])[k] by {
                    assert(out@[k]@ == r[k]);
                    if k < pos {
                        assert(out@[k] == ov0[k]);
                        assert(ov0[k]@ == o0[k]);
                    } else if k > pos {
                        assert(out@[k] == ov0[k - 1]);
                        assert(ov0[k - 1]@ == o0[k - 1]);
                    }
                }
            }
            assert(keys.deep_view() =~= o0.insert(pos as int, g[i])) by {
                assert forall|k: int| 0 <= k < keys@.len() implies keys.deep_view()[k] == o0.insert(pos as int, g[i])[k] by {
                    assert(keys@[k]@ == keys.deep_view()[k]);
                    if k < pos {
                        assert(keys@[k] == kv0[k]);
                        assert(kv0[k]@ == o0[k]);
                    } else if k > pos {
                        assert(keys@[k] == kv0[k - 1]);
                        assert(kv0[k - 1]@ == o0[k - 1]);
                    }
                }
            }
            perm = p0.insert(pos as int, i);
            let gi = g.subrange(0, i + 1);
            assert(g.subrange(0, i) =~= gi.subrange(0, i));
            assert forall|k: int| 0 <= k < r.len() implies 0 <= #[trigger] perm[k] < gi.len() && r[k]
                == gi[perm[k]] by {
                if k < pos {
                    assert(perm[k] == p0[k] && r[k] == o0[k]);
                } else if k > pos {
                    assert(perm[k] == p0[k - 1] && r[k] == o0[k - 1]);
                }
            }
            assert forall|k: int, l: int| 0 <= k < l < r.len() implies #[trigger] perm[k]
                != #[trigger] perm[l] by {
                if k != pos && l != pos {
                    let k0 = if k < pos { k } else { k - 1 };
                    let l0 = if l < pos { l } else { l - 1 };
                    assert(perm[k] == p0[k0] && perm[l] == p0[l0]);
                } else if k == pos {
                    assert(perm[l] == p0[l - 1]);
                } else {
                    assert(perm[k] == p0[k]);
                }
            }
            assert forall|k: int, l: int| 0 <= k < l < r.len() implies !text_lt(#[trigger] r[k], #[trigger] r[l]) by {
                if k != pos && l != pos {
                    let k0 = if k < pos { k } else { k - 1 };
                    let l0 = if l < pos { l } else { l - 1 };
                    assert(r[k] == o0[k0] && r[l] == o0[l0]);
                } else if k == pos {
                    assert(r[l] == o0[l - 1]);
                    assert(text_lt(o0[l - 1], g[i]));
                    lemma_text_lt_total(g[i], o0[l - 1]);
                } else {
                    assert(r[k] == o0[k]);
                    assert(!text_lt(o0[pos - 1], g[i]));
                    if k < pos - 1 {
                        assert(!text_lt(o0[k], o0[pos - 1]));
                        if text_lt(o0[k], g[i]) {
                            lemma_text_lt_total(o0[k], o0[pos - 1]);
                            lemma_text_lt_total(o0[pos - 1], g[i]);
                            if o0[k] != o0[pos - 1] {
                                lemma_text_lt_trans(o0[pos - 1], o0[k], g[i]);
                            }
                        }
                    }
                }
            }
            assert(src.deep_view() =~= g.subrange(n - src@.len(), n as int));
        }
    }
    proof {
        assert(g.subrange(0, n as int) =~= g);
    }
    out
}

/// What became of an archive entry.
#[derive(Debug, Clone, Copy, PartialEq, Eq, Structural)]
pub enum RecordFate {
    /// It made no record.
    Unreadable,
    /// The library already holds a game with its key.
    Known,
    /// It joined the library.
    Imported,
}

/// The counts and known keys of a sync pass over the archives, newest month first.
pub struct SyncState {
    pub existing: Vec<(String, String)>,
    pub imported: usize,
    pub skipped: usize,
    pub fetched: usize,
    pub months_fetched: usize,
    pub early_sent: bool,
    pub month_new: usize,
    pub month_known: usize,
}

pub open spec fn game_keys_view(games: Seq<Game>) -> Seq<(Seq<char>, Seq<char>)> {
    games.map_values(|g: Game| (g.id@, g.game_type@))
}

impl SyncState {
    /// The keys of the games the library holds, and those imported since.
    pub open spec fn known(&self) -> Seq<(Seq<char>, Seq<char>)> {
        pairs_view(self.existing@)
    }

    /// A pass over a library: every game it holds is known, nothing counted yet.
    pub fn new(library: &Library) -> (st: SyncState)
        ensures
            st.known() == game_keys_view(library.games@),
            st.imported == 0 && st.skipped == 0 && st.fetched == 0 && st.months_fetched == 0,
            !st.early_sent,
            st.month_new == 0 && st.month_known == 0,
    {
        let mut existing: Vec<(String, String)> = Vec::new();
        let mut i: usize = 0;
        while i < library.games.len()
            invariant
                0 <= i <= library.games@.len(),
                pairs_view(existing@) == game_keys_view(library.games@.take(i as int)),
            decreases library.games@.len() - i,
        {
            let ghost before = pairs_view(existing@);
            let id = library.games[i].id.clone();
            let gt = library.games[i].game_type.clone();
            existing.push((id, gt));
            proof {
                assert(pairs_view(existing@) =~= before.push((library.games@[i as int].id@, library.games@[i as int].game_type@)));
                assert(game_keys_view(library.games@.take(i + 1)) =~= game_keys_view(library.games@.take(i as int)).push(
                    (library.games@[i as int].id@, library.games@[i as int].game_type@),
                ));
            }
            i = i + 1;
        }
        proof {
            assert(library.games@.take(library.games@.len() as int) =~= library.games@);
        }
        SyncState {
            existing,
            imported: 0,
            skipped: 0,
            fetched: 0,
            months_fetched: 0,
            early_sent: false,
            month_new: 0,
            month_known: 0,
        }
    }

    /// A month's archive was read: its counts start afresh.
    pub fn start_month(&mut self)
        requires
            old(self).months_fetched < usize::MAX,
        ensures
            final(self).known() == old(self).known(),
            final(self).months_fetched == old(self).months_fetched + 1,
            final(self).month_new == 0 && final(self).month_known == 0,
            final(self).imported == old(self).imported && final(self).skipped == old(self).skipped
                && final(self).fetched == old(self).fetched && final(self).early_sent == old(self).early_sent,
    {
        self.months_fetched = self.months_fetched + 1;
        self.month_new = 0;
        self.month_known = 0;
    }

    fn is_known(&self, id: &str, game_type: &str) -> (b: bool)
        ensures
            b == self.known().contains((id@, game_type@)),
    {
        let mut i: usize = 0;
        while i < self.existing.len()
            invariant
                0 <= i <= self.existing@.len(),
                forall|k: int| 0 <= k < i ==> #[trigger] self.known()[k] != (id@, game_type@),
            decreases self.existing@.len() - i,
        {
            assert(self.known()[i as int] == (self.existing@[i as int].0@, self.existing@[i as int].1@));
            if str_eq(self.existing[i].0.as_str(), id) && str_eq(self.existing[i].1.as_str(), game_type) {
                assert(self.known()[i as int] == (id@, game_type@));
                return true;
            }
            i = i + 1;
        }
        false
    }

    /// One archive entry, newest first: a record with a new key joins the library and
    /// the known keys; one with a known key is counted as skipped.
    pub fn accept(&mut self, library: &mut Library, record: Option<Game>) -> (fate: RecordFate)
        requires
            old(self).fetched < usize::MAX,
            old(self).imported < usize::MAX,
            old(self).skipped < usize::MAX,
            old(self).month_new < usize::MAX,
            old(self).month_known < usize::MAX,
        ensures
            final(self).fetched == old(self).fetched + 1,
            final(self).months_fetched == old(self).months_fetched,
            final(self).early_sent == old(self).early_sent,
            final(library).path == old(library).path,
            final(library).settings == old(library).settings,
            match record {
                None => {
                    &&& fate == RecordFate::Unreadable
                    &&& final(self).known() == old(self).known()
                    &&& final(self).imported == old(self).imported
                    &&& final(self).skipped == old(self).skipped
                    &&& final(self).month_new == old(self).month_new
                    &&& final(self).month_known == old(self).month_known
                    &&& final(library).games@ == old(library).games@
                },
                Some(g) => if old(self).known().contains((g.id@, g.game_type@)) {
                    &&& fate == RecordFate::Known
                    &&& final(self).known() == old(self).known()
                    &&& final(self).imported == old(self).imported
                    &&& final(self).skipped == old(self).skipped + 1
                    &&& final(self).month_new == old(self).month_new
                    &&& final(self).month_known == old(self).month_known + 1
                    &&& final(library).games@ == old(library).games@
                } else {
                    &&& fate == RecordFate::Imported
                    &&& final(self).known() == old(self).known().push((g.id@, g.game_type@))
                    &&& final(self).imported == old(self).imported + 1
                    &&& final(self).skipped == old(self).skipped
                    &&& final(self).month_new == old(self).month_new + 1
                    &&& final(self).month_known == old(self).month_known
                    &&& final(library).games@ == old(library).games@.push(g)
                },
            },
    {
        self.fetched = self.fetched + 1;
        let g = match record {
            None => return RecordFate::Unreadable,
            Some(g) => g,
        };
        if self.is_known(g.id.as_str(), g.game_type.as_str()) {
            self.skipped = self.skipped + 1;
            self.month_known = self.month_known + 1;
            return RecordFate::Known;
        }
        let ghost before = self.known();
        let id = g.id.clone();
        let gt = g.game_type.clone();
        self.existing.push((id, gt));
        proof {
            assert(self.known() =~= before.push((g.id@, g.game_type@)));
        }
        library.games.push(g);
        self.imported = self.imported + 1;
        self.month_new = self.month_new + 1;
        RecordFate::Imported
    }

    /// A month whose every entry was already known (and that had one) joins local
    /// history: older months need not be read.
    pub fn month_caught_up(&self) -> (b: bool)
        ensures
            b == (self.month_new == 0 && self.month_known > 0),
    {
        self.month_new == 0 && self.month_known > 0
    }

    /// The first few new games are in: time to show them before the rest are read.
    pub fn wants_early_flush(&self) -> (b: bool)
        ensures
            b == (!self.early_sent && self.imported >= EARLY_SYNC_BATCH),
    {
        !self.early_sent && self.imported >= EARLY_SYNC_BATCH
    }

    pub fn mark_early_sent(&mut self)
        ensures
            final(self).early_sent,
            final(self).known() == old(self).known(),
            final(self).imported == old(self).imported && final(self).skipped == old(self).skipped
                && final(self).fetched == old(self).fetched && final(self).months_fetched == old(self).months_fetched
                && final(self).month_new == old(self).month_new && final(self).month_known == old(self).month_known,
    {
        self.early_sent = true;
    }
}

/// No two games share a key (id and game type).
pub open spec fn keys_distinct(games: Seq<Game>) -> bool {
    forall|i: int, j: int|
        0 <= i < j < games.len() ==> !(#[trigger] games[i].id@ == #[trigger] games[j].id@ && games[i].game_type@
            == games[j].game_type@)
}

/// A sync never doubles a game: starting from a library without repeated keys, whose
/// keys are the pass's known keys (as `SyncState::new` makes them), importing a record
/// (which `accept` does only for a key not known) keeps the keys distinct and the known
/// keys those of the library.
pub proof fn law_sync_no_duplicates(games: Seq<Game>, known: Seq<(Seq<char>, Seq<char>)>, g: Game)
    requires
        keys_distinct(games),
        known == game_keys_view(games),
        !known.contains((g.id@, g.game_type@)),
    ensures
        keys_distinct(games.push(g)),
        known.push((g.id@, g.game_type@)) == game_keys_view(games.push(g)),
{
    let ng = games.push(g);
    assert forall|i: int, j: int| 0 <= i < j < ng.len() implies !(#[trigger] ng[i].id@ == #[trigger] ng[j].id@
        && ng[i].game_type@ == ng[j].game_type@) by {
        if j == games.len() {
            if ng[i].id@ == ng[j].id@ && ng[i].game_type@ == ng[j].game_type@ {
                assert(known[i] == (g.id@, g.game_type@));
                assert(known.contains((g.id@, g.game_type@)));
            }
        }
    }
    assert(known.push((g.id@, g.game_type@)) =~= game_keys_view(ng));
}

/// The notice of new games found: "1 new game", else "N new games".
pub open spec fn new_games_text(n: nat) -> Seq<char> {
    if n == 1 {
        "1 new game"@
    } else {
        nat_text(n) + " new games"@
    }
}

pub fn new_games_label(n: usize) -> (r: String)
    ensures
        r@ == new_games_text(n as nat),
{
    if n == 1 {
        return "1 new game".to_string();
    }
    let mut out = nat_chars(n as u64);
    push_str(&mut out, " new games");
    string_from_chars(&out)
}

/// The summary line of a sync pass.
pub open spec fn sync_message_text(imported: nat, skipped: nat, fetched: nat) -> Seq<char> {
    if imported > 0 {
        "Synced "@ + nat_text(imported) + " new · "@ + nat_text(skipped) + " known · "@ + nat_text(fetched)
            + " scanned"@
    } else {
        "Up to date · "@ + nat_text(skipped) + " known · "@ + nat_text(fetched) + " scanned"@
    }
}

pub fn sync_message(imported: usize, skipped: usize, fetched: usize) -> (m: String)
    ensures
        m@ == sync_message_text(imported as nat, skipped as nat, fetched as nat),
{
    let mut out: Vec<char> = Vec::new();
    if imported > 0 {
        push_str(&mut out, "Synced ");
        let a = nat_chars(imported as u64);
        push_chars(&mut out, &a);
        push_str(&mut out, " new · ");
    } else {
        push_str(&mut out, "Up to date · ");
    }
    let b = nat_chars(skipped as u64);
    push_chars(&mut out, &b);
    push_str(&mut out, " known · ");
    let c = nat_chars(fetched as u64);
    push_chars(&mut out, &c);
    push_str(&mut out, " scanned");
    string_from_chars(&out)
}

} // verus!
