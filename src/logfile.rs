//! Reading a whole log: lines are folded in order into one state.

use vstd::prelude::*;
use crate::grammar::{LogRecord, RecordView, parse_record, record_of};
use crate::state::{
    GameState, LogView, LogfileState, PlayerView, TeamData, TeamView, add_player, empty_log,
    merge_log, no_teams, teams_view,
};
use crate::text::chars_of;

verus! {

/// A line without the carriage return of a `\r\n` terminator.
pub open spec fn strip_cr(l: Seq<char>) -> Seq<char> {
    if l.len() > 0 && l.last() == '\r' {
        l.drop_last()
    } else {
        l
    }
}

/// The complete lines of `rest`, the first of them continuing `cur`. A last
/// line without terminator is not one of them.
pub open spec fn lines_from(cur: Seq<char>, rest: Seq<char>) -> Seq<Seq<char>>
    decreases rest.len(),
{
    if rest.len() == 0 {
        Seq::empty()
    } else if rest[0] == '\n' {
        seq![strip_cr(cur)] + lines_from(Seq::empty(), rest.drop_first())
    } else {
        lines_from(cur.push(rest[0]), rest.drop_first())
    }
}

/// The complete lines of a text, each without its terminator.
pub open spec fn lines(t: Seq<char>) -> Seq<Seq<char>> {
    lines_from(Seq::empty(), t)
}

/// The state of a pass over some lines: what is known, and whether the last
/// line was a roster line, so that the next one joins the same roster.
pub struct Scan {
    pub log: LogView,
    pub in_roster: bool,
}

/// The fragment a state transition gives.
pub open spec fn state_fragment(g: GameState) -> LogView {
    LogView { game_state: Some(g), teams: None, player_relic_id: None }
}

/// The fragment the identifier message gives.
pub open spec fn relic_id_fragment(n: u64) -> LogView {
    LogView { game_state: None, teams: None, player_relic_id: Some(n) }
}

/// The fragment a run of roster lines gives.
pub open spec fn teams_fragment(t: TeamView) -> LogView {
    LogView { game_state: None, teams: Some(t), player_relic_id: None }
}

/// Folds one record in. A run of roster lines makes one roster, which
/// replaces the one known before; lines that match no record kind are
/// skipped and do not end the run, a state transition or an identifier
/// message does.
pub open spec fn step_record(s: Scan, r: RecordView) -> Scan {
    match r {
        RecordView::State(g) => Scan { log: merge_log(s.log, state_fragment(g)), in_roster: false },
        RecordView::RelicId(n) => Scan {
            log: merge_log(s.log, relic_id_fragment(n)),
            in_roster: false,
        },
        RecordView::Player(p) => {
            let base = if s.in_roster && s.log.teams is Some {
                s.log.teams->0
            } else {
                no_teams()
            };
            Scan { log: merge_log(s.log, teams_fragment(add_player(base, p))), in_roster: true }
        },
        RecordView::Other => s,
    }
}

/// Folds one line in.
pub open spec fn step(s: Scan, l: Seq<char>) -> Scan {
    step_record(s, record_of(l))
}

/// The pass over `ls`, in order, from the empty state.
pub open spec fn scan_lines(ls: Seq<Seq<char>>) -> Scan
    decreases ls.len(),
{
    if ls.len() == 0 {
        Scan { log: empty_log(), in_roster: false }
    } else {
        step(scan_lines(ls.drop_last()), ls.last())
    }
}

/// What a whole log tells.
pub open spec fn log_of(t: Seq<char>) -> LogView {
    scan_lines(lines(t)).log
}

/// The known state with the roster being read merged in.
pub open spec fn with_run(a: LogView, run: Option<TeamView>) -> LogView {
    match run {
        Some(t) => merge_log(a, teams_fragment(t)),
        None => a,
    }
}

/// Merges the roster being read, if any, into `acc`.
fn flush(acc: &mut LogfileState, run: Option<TeamData>)
    ensures
        final(acc)@ == with_run(old(acc)@, teams_view(run)),
{
    if let Some(t) = run {
        acc.merge(LogfileState { game_state: None, teams: Some(t), player_relic_id: None });
    }
}

/// Folds one record into `acc` and the roster being read.
fn fold_record(acc: &mut LogfileState, run: Option<TeamData>, rec: LogRecord) -> (next: Option<
    TeamData,
>)
    ensures
        (Scan { log: with_run(final(acc)@, teams_view(next)), in_roster: next is Some })
            == step_record(
            Scan { log: with_run(old(acc)@, teams_view(run)), in_roster: run is Some },
            rec@,
        ),
{
    match rec {
        LogRecord::Player(p) => {
            let mut t = match run {
                Some(t) => t,
                None => TeamData::new(),
            };
            t.add(p);
            Some(t)
        },
        LogRecord::State(g) => {
            flush(acc, run);
            acc.merge(LogfileState { game_state: Some(g), teams: None, player_relic_id: None });
            None
        },
        LogRecord::RelicId(n) => {
            flush(acc, run);
            acc.merge(LogfileState { game_state: None, teams: None, player_relic_id: Some(n) });
            None
        },
        LogRecord::Other => run,
    }
}

/// Reads a whole log, line by line from the start, into the state it tells.
/// Lines that match no record kind are skipped; a last line without
/// terminator is not read.
pub fn parse_logfile(input: &str) -> (r: LogfileState)
    ensures
        r@ == log_of(input@),
{
    let t = chars_of(input);
    let mut acc = LogfileState::new();
    let mut run: Option<TeamData> = None;
    let mut cur: Vec<char> = Vec::new();
    let ghost mut done: Seq<Seq<char>> = Seq::empty();
    let mut i: usize = 0;
    assert(t@.skip(0) =~= t@);
    assert(done + lines(input@) =~= lines(input@));
    assert(cur@ =~= Seq::<char>::empty());
    while i < t.len()
        invariant
            i <= t.len(),
            t@ == input@,
            lines(input@) == done + lines_from(cur@, t@.skip(i as int)),
            scan_lines(done) == (Scan {
                log: with_run(acc@, teams_view(run)),
                in_roster: run is Some,
            }),
        decreases t.len() - i,
    {
        let c = t[i];
        assert(t@.skip(i as int).drop_first() =~= t@.skip(i + 1));
        if c == '\n' {
            let ghost line = strip_cr(cur@);
            assert(lines_from(cur@, t@.skip(i as int)) == seq![line] + lines_from(
                Seq::empty(),
                t@.skip(i + 1),
            ));
            if cur.len() > 0 && cur[cur.len() - 1] == '\r' {
                cur.pop();
            }
            assert(cur@ =~= line);
            let rec = parse_record(&cur);
            run = fold_record(&mut acc, run, rec);
            proof {
                assert(done.push(line).drop_last() =~= done);
                assert(done + (seq![line] + lines_from(Seq::empty(), t@.skip(i + 1)))
                    =~= done.push(line) + lines_from(Seq::empty(), t@.skip(i + 1)));
                done = done.push(line);
            }
            cur = Vec::new();
        } else {
            cur.push(c);
        }
        i = i + 1;
    }
    flush(&mut acc, run);
    assert(done + lines_from(cur@, t@.skip(i as int)) =~= done);
    acc
}

/// Parsing the same content twice gives the same state.
pub proof fn lemma_reparse_same(a: Seq<char>, b: Seq<char>)
    requires
        a == b,
    ensures
        log_of(a) == log_of(b),
{
}

/// After a pass that ends with a roster line, that roster is still being
/// read; while one is read, a roster is known.
pub proof fn lemma_in_roster(ls: Seq<Seq<char>>)
    ensures
        ls.len() > 0 && record_of(ls.last()) is Player ==> scan_lines(ls).in_roster,
        scan_lines(ls).in_roster ==> scan_lines(ls).log.teams is Some,
    decreases ls.len(),
{
    if ls.len() > 0 {
        lemma_in_roster(ls.drop_last());
    }
}

/// A line that matches no record kind, put anywhere among the lines, changes
/// nothing of what they tell.
pub proof fn lemma_unknown_line(ls: Seq<Seq<char>>, k: int, u: Seq<char>)
    requires
        0 <= k <= ls.len(),
        record_of(u) is Other,
    ensures
        scan_lines(ls.insert(k, u)) == scan_lines(ls),
    decreases ls.len(),
{
    let ls2 = ls.insert(k, u);
    if k == ls.len() {
        assert(ls2.drop_last() =~= ls);
    } else {
        let front = ls.drop_last();
        assert(ls2.last() == ls.last());
        assert(scan_lines(ls) == step(scan_lines(front), ls.last()));
        assert(scan_lines(ls2) == step(scan_lines(ls2.drop_last()), ls.last()));
        assert(ls2.drop_last() =~= front.insert(k, u));
        lemma_unknown_line(front, k, u);
    }
}

/// Whether `a` holds complete lines only.
pub open spec fn whole_lines(a: Seq<char>) -> bool {
    a.len() == 0 || a.last() == '\n'
}

proof fn lemma_lines_from_concat(cur: Seq<char>, a: Seq<char>, b: Seq<char>)
    requires
        a.len() > 0,
        a.last() == '\n',
    ensures
        lines_from(cur, a + b) == lines_from(cur, a) + lines_from(Seq::empty(), b),
    decreases a.len(),
{
    assert((a + b).drop_first() =~= a.drop_first() + b);
    assert((a + b)[0] == a[0]);
    if a.len() == 1 {
        assert(a.drop_first() + b =~= b);
        assert(lines_from(Seq::empty(), a.drop_first()) =~= Seq::empty());
        assert(lines_from(cur, a) =~= seq![strip_cr(cur)]);
    } else {
        if a[0] == '\n' {
            lemma_lines_from_concat(Seq::empty(), a.drop_first(), b);
            assert(seq![strip_cr(cur)] + (lines_from(Seq::empty(), a.drop_first()) + lines_from(
                Seq::empty(),
                b,
            )) =~= seq![strip_cr(cur)] + lines_from(Seq::empty(), a.drop_first()) + lines_from(
                Seq::empty(),
                b,
            ));
        } else {
            lemma_lines_from_concat(cur.push(a[0]), a.drop_first(), b);
        }
    }
}

/// Complete lines followed by more text: the lines of each, in turn.
pub proof fn lemma_lines_concat(a: Seq<char>, b: Seq<char>)
    requires
        whole_lines(a),
    ensures
        lines(a + b) == lines(a) + lines(b),
{
    if a.len() == 0 {
        assert(a + b =~= b);
        assert(lines(a) =~= Seq::empty());
        assert(lines(a) + lines(b) =~= lines(b));
    } else {
        lemma_lines_from_concat(Seq::empty(), a, b);
    }
}

proof fn lemma_single_line_from(cur: Seq<char>, u: Seq<char>)
    requires
        !u.contains('\n'),
    ensures
        lines_from(cur, u.push('\n')) == seq![strip_cr(cur + u)],
    decreases u.len(),
{
    if u.len() == 0 {
        assert(u.push('\n').drop_first() =~= Seq::<char>::empty());
        assert(cur + u =~= cur);
        assert(seq![strip_cr(cur)] + lines_from(Seq::empty(), Seq::empty()) =~= seq![strip_cr(cur)]);
    } else {
        assert(u.push('\n').drop_first() =~= u.drop_first().push('\n'));
        assert(u[0] != '\n') by {
            if u[0] == '\n' {
                assert(u.contains('\n'));
            }
        }
        assert(!u.drop_first().contains('\n')) by {
            if u.drop_first().contains('\n') {
                let j = choose|j: int| 0 <= j < u.drop_first().len() && u.drop_first()[j] == '\n';
                assert(u[j + 1] == '\n');
            }
        }
        lemma_single_line_from(cur.push(u[0]), u.drop_first());
        assert(cur.push(u[0]) + u.drop_first() =~= cur + u);
    }
}

/// A text that matches no record kind, added to a log as a line of its own
/// between complete lines, changes nothing of what the log tells.
#[verifier::rlimit(40)]
pub proof fn lemma_unknown_line_in_text(a: Seq<char>, u: Seq<char>, b: Seq<char>)
    requires
        whole_lines(a),
        !u.contains('\n'),
        record_of(strip_cr(u)) is Other,
    ensures
        log_of(a + u.push('\n') + b) == log_of(a + b),
{
    let line = u.push('\n');
    let ls = lines(a) + lines(b);
    assert(lines(a + b) == ls) by {
        lemma_lines_concat(a, b);
    }
    assert(lines(line) == seq![strip_cr(u)]) by {
        lemma_single_line_from(Seq::empty(), u);
        assert(Seq::<char>::empty() + u =~= u);
    }
    assert(lines(a + line + b) == lines(a) + (seq![strip_cr(u)] + lines(b))) by {
        lemma_lines_concat(a, line + b);
        lemma_lines_concat(line, b);
        assert(a + line + b =~= a + (line + b));
    }
    let k = lines(a).len() as int;
    assert(lines(a) + (seq![strip_cr(u)] + lines(b)) =~= ls.insert(k, strip_cr(u)));
    lemma_unknown_line(ls, k, strip_cr(u));
}

/// The players of a run of roster lines, in order.
pub open spec fn roster_players(ls: Seq<Seq<char>>) -> Seq<PlayerView> {
    ls.map_values(|l: Seq<char>| record_of(l)->Player_0)
}

/// Whether a player belongs to `team`.
pub open spec fn on_team(team: u8) -> spec_fn(PlayerView) -> bool {
    |p: PlayerView| p.team == team
}

/// Consecutive roster lines give one roster: the players of team 0 on the
/// left, those of team 1 on the right, each side in the order of the lines,
/// each player as its line gives it; a player of another team is on neither.
pub proof fn lemma_roster_partition(ls: Seq<Seq<char>>)
    requires
        ls.len() > 0,
        forall|i: int| 0 <= i < ls.len() ==> record_of(#[trigger] ls[i]) is Player,
    ensures
        scan_lines(ls).log.teams == Some(
            TeamView {
                left: roster_players(ls).filter(on_team(0)),
                right: roster_players(ls).filter(on_team(1)),
            },
        ),
        scan_lines(ls).log.game_state is None,
        scan_lines(ls).log.player_relic_id is None,
    decreases ls.len(),
{
    let front = ls.drop_last();
    let ps = roster_players(ls);
    let p = record_of(ls.last())->Player_0;
    assert(ps.drop_last() =~= roster_players(front));
    assert(ps.last() == p);
    assert(scan_lines(ls) == step(scan_lines(front), ls.last()));
    reveal(Seq::filter);
    assert(ps.filter(on_team(0)) == (if p.team == 0 {
        roster_players(front).filter(on_team(0)).push(p)
    } else {
        roster_players(front).filter(on_team(0))
    }));
    assert(ps.filter(on_team(1)) == (if p.team == 1 {
        roster_players(front).filter(on_team(1)).push(p)
    } else {
        roster_players(front).filter(on_team(1))
    }));
    if front.len() == 0 {
        assert(roster_players(front) =~= Seq::<PlayerView>::empty());
        assert(roster_players(front).filter(on_team(0)) =~= Seq::<PlayerView>::empty());
        assert(roster_players(front).filter(on_team(1)) =~= Seq::<PlayerView>::empty());
    } else {
        lemma_roster_partition(front);
        lemma_in_roster(front);
        assert(record_of(front.last()) is Player);
    }
    assert(record_of(ls.last()) is Player);
}

/// The partition of a run of roster lines, as the lemma above gives it.
pub open spec fn roster_partition(ls: Seq<Seq<char>>) -> TeamView {
    TeamView {
        left: roster_players(ls).filter(on_team(0)),
        right: roster_players(ls).filter(on_team(1)),
    }
}

/// Lines without roster lines leave the known roster as it is.
proof fn lemma_no_roster_keeps_teams(ls: Seq<Seq<char>>, rest: Seq<Seq<char>>)
    requires
        forall|i: int| 0 <= i < rest.len() ==> !(record_of(#[trigger] rest[i]) is Player),
    ensures
        scan_lines(ls + rest).log.teams == scan_lines(ls).log.teams,
    decreases rest.len(),
{
    if rest.len() == 0 {
        assert(ls + rest =~= ls);
    } else {
        let front = rest.drop_last();
        assert((ls + rest).drop_last() =~= ls + front);
        assert((ls + rest).last() == rest.last());
        assert(scan_lines(ls + rest) == step(scan_lines(ls + front), rest.last()));
        assert(!(record_of(rest[rest.len() - 1]) is Player));
        lemma_no_roster_keeps_teams(ls, front);
    }
}

/// A run of roster lines followed by lines of which none is a roster line
/// leaves the roster of that run: team 0 on the left and team 1 on the
/// right, in order.
pub proof fn lemma_roster_then_rest(ls: Seq<Seq<char>>, rest: Seq<Seq<char>>)
    requires
        ls.len() > 0,
        forall|i: int| 0 <= i < ls.len() ==> record_of(#[trigger] ls[i]) is Player,
        forall|i: int| 0 <= i < rest.len() ==> !(record_of(#[trigger] rest[i]) is Player),
    ensures
        scan_lines(ls + rest).log.teams == Some(roster_partition(ls)),
{
    lemma_roster_partition(ls);
    lemma_no_roster_keeps_teams(ls, rest);
}

/// A log that begins with roster lines and has no roster line after them
/// tells the roster of those lines.
pub proof fn lemma_roster_in_text(a: Seq<char>, b: Seq<char>)
    requires
        whole_lines(a),
        lines(a).len() > 0,
        forall|i: int| 0 <= i < lines(a).len() ==> record_of(#[trigger] lines(a)[i]) is Player,
        forall|i: int| 0 <= i < lines(b).len() ==> !(record_of(#[trigger] lines(b)[i]) is Player),
    ensures
        log_of(a + b).teams == Some(roster_partition(lines(a))),
{
    lemma_lines_concat(a, b);
    lemma_roster_then_rest(lines(a), lines(b));
}

} // verus!
