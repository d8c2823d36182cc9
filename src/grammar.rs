//! The grammar of one log line: a common header, then one of the record kinds.

use vstd::prelude::*;
use crate::state::{GameState, PlayerData, PlayerView, state_of};
use crate::text::{
    alpha_end, chars_range, digits_end, find_char, find_from, find_last_before, last_before,
    number, parse_number, parse_plus_number, plus_number, skip_alpha, skip_digits, skip_ws,
    starts_at, string_of, text_end, ws_end,
};

verus! {

/// The index just past the header `(I) [<timestamp>] [<id>]: ` (or `(E)`),
/// where the line starts with one.
pub open spec fn header_end(l: Seq<char>) -> Option<int> {
    if !(l.len() >= 3 && l[0] == '(' && (l[1] == 'I' || l[1] == 'E') && l[2] == ')') {
        None
    } else {
        let a = ws_end(l, 3);
        if a == 3 || !(a < l.len() && l[a] == '[') {
            None
        } else {
            match find_from(l, a + 1, ']') {
                None => None,
                Some(b) => {
                    let c = ws_end(l, b + 1);
                    if c == b + 1 || !(c < l.len() && l[c] == '[') {
                        None
                    } else {
                        let d = digits_end(l, c + 1);
                        if d == c + 1 || !(d + 1 < l.len() && l[d] == ']' && l[d + 1] == ':') {
                            None
                        } else {
                            let e = ws_end(l, d + 2);
                            if e == d + 2 {
                                None
                            } else {
                                Some(e)
                            }
                        }
                    }
                },
            }
        }
    }
}

/// The new state of `GameApp::SetState : new (<new>) old (<old>)` at `h`.
pub open spec fn transition_of(l: Seq<char>, h: int) -> Option<GameState> {
    let p = h + "GameApp::SetState : new ("@.len();
    if !starts_at(l, h, "GameApp::SetState : new ("@) {
        None
    } else {
        match find_from(l, p, ')') {
            None => None,
            Some(j) => if starts_at(l, j, ") old ("@) && find_from(
                l,
                j + ") old ("@.len(),
                ')',
            ) is Some {
                Some(state_of(l.subrange(p, j)))
            } else {
                None
            },
        }
    }
}

/// The player's identifier in `Read bytes [<n>,"<tag>",<identifier>` at `h`.
pub open spec fn relic_id_of(l: Seq<char>, h: int) -> Option<u64> {
    let a = h + "Read bytes ["@.len();
    let b = digits_end(l, a);
    let c = alpha_end(l, b + 2);
    let d = digits_end(l, c + 2);
    if !starts_at(l, h, "Read bytes ["@) || b == a {
        None
    } else if !(b + 1 < l.len() && l[b] == ',' && l[b + 1] == '"') || c == b + 2 {
        None
    } else if !(c + 1 < l.len() && l[c] == '"' && l[c + 1] == ',') {
        None
    } else {
        number(l.subrange(c + 2, d))
    }
}

/// Whether the player at `a` is a computer player, and where the position
/// starts.
pub open spec fn ai_marker(l: Seq<char>, a: int) -> Option<(bool, int)> {
    if starts_at(l, a, "Human Player: "@) {
        Some((false, a + "Human Player: "@.len()))
    } else if starts_at(l, a, "AI Player: "@) {
        Some((true, a + "AI Player: "@.len()))
    } else {
        None
    }
}

/// Where the player's details end: one trailing space is not part of them.
pub open spec fn details_end(l: Seq<char>) -> int {
    if l.len() > 0 && l.last() == ' ' {
        l.len() - 1
    } else {
        l.len() as int
    }
}

/// The details `<name> <identifier> <team> <faction>` from `q` on. The last
/// three space-separated tokens are faction, team and identifier; what stands
/// before them is the name, which may hold spaces. Team and identifier are
/// read as unsigned numbers with an optional `+`. A team that is no number up
/// to 255 makes the line no roster line; an identifier that is no number is
/// left unset.
pub open spec fn player_details(l: Seq<char>, q: int, ai: bool, position: u8) -> Option<PlayerView> {
    let n = details_end(l);
    let s3 = last_before(l, n, ' ');
    let s2 = last_before(l, s3->0, ' ');
    let s1 = last_before(l, s2->0, ' ');
    let has_name = s1 is Some && s1->0 >= q;
    let name = if has_name { l.subrange(q, s1->0) } else { Seq::empty() };
    let id = if has_name { l.subrange(s1->0 + 1, s2->0) } else { l.subrange(q, s2->0) };
    let team = plus_number(l.subrange(s2->0 + 1, s3->0));
    if !(s3 is Some && s3->0 >= q && s2 is Some && s2->0 >= q) {
        None
    } else if !(team is Some && team->0 <= 255) {
        None
    } else {
        Some(
            PlayerView {
                ai,
                faction: l.subrange(s3->0 + 1, n),
                relic_id: plus_number(id),
                name,
                position,
                team: team->0 as u8,
            },
        )
    }
}

/// The player of `GAME -- <Human|AI> Player: <position> <details>` at `h`.
pub open spec fn player_of(l: Seq<char>, h: int) -> Option<PlayerView> {
    let m = ai_marker(l, h + "GAME -- "@.len());
    let marker = m->0;
    let b = marker.1;
    let e = digits_end(l, b);
    let q = ws_end(l, e);
    let pos = number(l.subrange(b, e));
    if !starts_at(l, h, "GAME -- "@) || m is None {
        None
    } else if !(pos is Some && pos->0 <= 255) || q == e {
        None
    } else {
        player_details(l, q, marker.0, pos->0 as u8)
    }
}

proof fn lemma_last_before_at(s: Seq<char>, n: int, c: char, j: int)
    requires
        0 <= j < n <= s.len(),
        s[j] == c,
        forall|k: int| j < k < n ==> s[k] != c,
    ensures
        last_before(s, n, c) == Some(j),
    decreases n,
{
    if n - 1 != j {
        lemma_last_before_at(s, n - 1, c, j);
    }
}

/// Details written as name, identifier, team and faction, separated by single
/// spaces, are read back as they were written: the name whole, spaces and
/// all, and faction, team and identifier from the last three tokens.
pub proof fn lemma_player_details_round_trip(
    l: Seq<char>,
    q: int,
    ai: bool,
    position: u8,
    name: Seq<char>,
    id: Seq<char>,
    team: Seq<char>,
    faction: Seq<char>,
)
    requires
        0 <= q <= l.len(),
        l.subrange(q, l.len() as int) == name + seq![' '] + id + seq![' '] + team + seq![' ']
            + faction,
        !id.contains(' '),
        !team.contains(' '),
        !faction.contains(' '),
        faction.len() > 0,
        plus_number(team) is Some,
        plus_number(team)->0 <= 255,
    ensures
        player_details(l, q, ai, position) == Some(
            PlayerView {
                ai,
                faction,
                relic_id: plus_number(id),
                name,
                position,
                team: plus_number(team)->0 as u8,
            },
        ),
{
    let d = l.subrange(q, l.len() as int);
    let s1 = q + name.len();
    let s2 = s1 + 1 + id.len();
    let s3 = s2 + 1 + team.len();
    let n = l.len() as int;
    let parts = name + seq![' '] + id + seq![' '] + team + seq![' '] + faction;
    assert(parts.len() == name.len() + id.len() + team.len() + faction.len() + 3);
    assert(d.len() == n - q);
    assert(n == s3 + 1 + faction.len());
    assert forall|k: int| 0 <= k < d.len() implies l[q + k] == d[k] by {}
    assert(l[s1] == ' ') by { assert(d[s1 - q] == ' '); }
    assert(l[s2] == ' ') by { assert(d[s2 - q] == ' '); }
    assert(l[s3] == ' ') by { assert(d[s3 - q] == ' '); }
    assert forall|k: int| s3 < k < n implies l[k] != ' ' by {
        assert(d[k - q] == faction[k - s3 - 1]);
        if faction[k - s3 - 1] == ' ' {
            assert(faction.contains(' '));
        }
    }
    assert forall|k: int| s2 < k < s3 implies l[k] != ' ' by {
        assert(d[k - q] == team[k - s2 - 1]);
        if team[k - s2 - 1] == ' ' {
            assert(team.contains(' '));
        }
    }
    assert forall|k: int| s1 < k < s2 implies l[k] != ' ' by {
        assert(d[k - q] == id[k - s1 - 1]);
        if id[k - s1 - 1] == ' ' {
            assert(id.contains(' '));
        }
    }
    assert(d[n - 1 - q] == faction[faction.len() - 1]);
    assert(l.last() == faction.last());
    assert(details_end(l) == n);
    lemma_last_before_at(l, n, ' ', s3);
    lemma_last_before_at(l, s3, ' ', s2);
    lemma_last_before_at(l, s2, ' ', s1);
    assert forall|i: int| 0 <= i < name.len() implies l[q + i] == name[i] by {
        assert(d[i] == name[i]);
    }
    assert forall|i: int| 0 <= i < faction.len() implies l[s3 + 1 + i] == faction[i] by {
        assert(d[s3 + 1 + i - q] == faction[i]);
    }
    assert(l.subrange(q, s1) =~= name);
    assert forall|i: int| 0 <= i < id.len() implies l[s1 + 1 + i] == id[i] by {
        assert(d[s1 + 1 + i - q] == id[i]);
    }
    assert forall|i: int| 0 <= i < team.len() implies l[s2 + 1 + i] == team[i] by {
        assert(d[s2 + 1 + i - q] == team[i]);
    }
    assert(l.subrange(s1 + 1, s2) =~= id);
    assert(l.subrange(s2 + 1, s3) =~= team);
    assert(l.subrange(s3 + 1, n) =~= faction);
}

/// What one line tells.
pub enum RecordView {
    State(GameState),
    RelicId(u64),
    Player(PlayerView),
    Other,
}

/// The record a line holds; the record kinds are tried in this order, and a
/// line that none of them matches tells nothing.
pub open spec fn record_of(l: Seq<char>) -> RecordView {
    match header_end(l) {
        None => RecordView::Other,
        Some(h) => if transition_of(l, h) is Some {
            RecordView::State(transition_of(l, h)->0)
        } else if relic_id_of(l, h) is Some {
            RecordView::RelicId(relic_id_of(l, h)->0)
        } else if player_of(l, h) is Some {
            RecordView::Player(player_of(l, h)->0)
        } else {
            RecordView::Other
        },
    }
}

/// What one line tells.
pub enum LogRecord {
    State(GameState),
    RelicId(u64),
    Player(PlayerData),
    Other,
}

impl View for LogRecord {
    type V = RecordView;

    open spec fn view(&self) -> RecordView {
        match self {
            LogRecord::State(g) => RecordView::State(*g),
            LogRecord::RelicId(n) => RecordView::RelicId(*n),
            LogRecord::Player(p) => RecordView::Player(p@),
            LogRecord::Other => RecordView::Other,
        }
    }
}

/// Reads the header of a line.
pub fn parse_header(l: &Vec<char>) -> (r: Option<usize>)
    ensures
        r is Some == header_end(l@) is Some,
        r matches Some(h) ==> header_end(l@) == Some(h as int) && h <= l.len(),
{
    if l.len() < 3 || l[0] != '(' || (l[1] != 'I' && l[1] != 'E') || l[2] != ')' {
        return None;
    }
    let a = skip_ws(l, 3);
    if a == 3 || a >= l.len() || l[a] != '[' {
        return None;
    }
    let b = match find_char(l, a + 1, ']') {
        Some(b) => b,
        None => return None,
    };
    let c = skip_ws(l, b + 1);
    if c == b + 1 || c >= l.len() || l[c] != '[' {
        return None;
    }
    let d = skip_digits(l, c + 1);
    if d == c + 1 || l.len() - d <= 1 || l[d] != ']' || l[d + 1] != ':' {
        return None;
    }
    let e = skip_ws(l, d + 2);
    if e == d + 2 {
        return None;
    }
    Some(e)
}

/// Reads a state transition after the header.
pub fn parse_transition(l: &Vec<char>, h: usize) -> (r: Option<GameState>)
    requires
        h <= l.len(),
    ensures
        r == transition_of(l@, h as int),
{
    let p = match text_end(l, h, "GameApp::SetState : new (") {
        Some(p) => p,
        None => return None,
    };
    let j = match find_char(l, p, ')') {
        Some(j) => j,
        None => return None,
    };
    let k = match text_end(l, j, ") old (") {
        Some(k) => k,
        None => return None,
    };
    if find_char(l, k, ')').is_none() {
        return None;
    }
    let token = chars_range(l, p, j);
    Some(GameState::from_chars(token.as_slice()))
}

/// Reads the message that gives the local player's identifier, after the
/// header.
pub fn parse_relic_id(l: &Vec<char>, h: usize) -> (r: Option<u64>)
    requires
        h <= l.len(),
    ensures
        r == relic_id_of(l@, h as int),
{
    let a = match text_end(l, h, "Read bytes [") {
        Some(a) => a,
        None => return None,
    };
    let b = skip_digits(l, a);
    if b == a || l.len() - b <= 1 || l[b] != ',' || l[b + 1] != '"' {
        return None;
    }
    let c = skip_alpha(l, b + 2);
    if c == b + 2 || l.len() - c <= 1 || l[c] != '"' || l[c + 1] != ',' {
        return None;
    }
    let d = skip_digits(l, c + 2);
    parse_number(l, c + 2, d)
}

/// Reads a roster entry after the header.
pub fn parse_player(l: &Vec<char>, h: usize) -> (r: Option<PlayerData>)
    requires
        h <= l.len(),
    ensures
        r is Some == player_of(l@, h as int) is Some,
        r matches Some(p) ==> player_of(l@, h as int) == Some(p@),
{
    let a = match text_end(l, h, "GAME -- ") {
        Some(a) => a,
        None => return None,
    };
    let (ai, b) = match text_end(l, a, "Human Player: ") {
        Some(b) => (false, b),
        None => match text_end(l, a, "AI Player: ") {
            Some(b) => (true, b),
            None => return None,
        },
    };
    let e = skip_digits(l, b);
    let q = skip_ws(l, e);
    let position = match parse_number(l, b, e) {
        Some(p) => p,
        None => return None,
    };
    if position > 255 || q == e {
        return None;
    }
    let n = if l.len() > 0 && l[l.len() - 1] == ' ' {
        l.len() - 1
    } else {
        l.len()
    };
    let s3 = match find_last_before(l, n, ' ') {
        Some(s) => s,
        None => return None,
    };
    if s3 < q {
        return None;
    }
    let s2 = match find_last_before(l, s3, ' ') {
        Some(s) => s,
        None => return None,
    };
    if s2 < q {
        return None;
    }
    let team = match parse_plus_number(l, s2 + 1, s3) {
        Some(t) => t,
        None => return None,
    };
    if team > 255 {
        return None;
    }
    let s1 = find_last_before(l, s2, ' ');
    let (name, relic_id) = match s1 {
        Some(s1) if s1 >= q => (string_of(l, q, s1), parse_plus_number(l, s1 + 1, s2)),
        _ => (String::new(), parse_plus_number(l, q, s2)),
    };
    let faction = string_of(l, s3 + 1, n);
    Some(PlayerData { ai, faction, relic_id, name, position: position as u8, team: team as u8 })
}

/// Reads one line.
pub fn parse_record(l: &Vec<char>) -> (r: LogRecord)
    ensures
        r@ == record_of(l@),
{
    let h = match parse_header(l) {
        Some(h) => h,
        None => return LogRecord::Other,
    };
    if let Some(g) = parse_transition(l, h) {
        return LogRecord::State(g);
    }
    if let Some(n) = parse_relic_id(l, h) {
        return LogRecord::RelicId(n);
    }
    match parse_player(l, h) {
        Some(p) => LogRecord::Player(p),
        None => LogRecord::Other,
    }
}

} // verus!
