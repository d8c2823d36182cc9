//! The accumulated log state and its field-wise merge.

use vstd::prelude::*;

verus! {

/// The engine's lifecycle state.
#[derive(Debug, Clone, Copy, PartialEq, Eq, Structural)]
pub enum GameState {
    Closed,
    Menu,
    Loading,
    InGame,
}

/// The state that a token of a state transition stands for.
pub open spec fn state_of(token: Seq<char>) -> GameState {
    if token == "Frontend"@ {
        GameState::Menu
    } else if token == "LoadingGame"@ {
        GameState::Loading
    } else if token == "Game"@ {
        GameState::InGame
    } else {
        GameState::Closed
    }
}

/// Whether two character sequences are equal.
pub fn chars_equal(a: &[char], b: &[char]) -> (r: bool)
    ensures
        r == (a@ == b@),
{
    if a.len() != b.len() {
        return false;
    }
    let mut k: usize = 0;
    while k < a.len()
        invariant
            a@.len() == b@.len(),
            k <= a.len(),
            forall|j: int| 0 <= j < k ==> a@[j] == b@[j],
        decreases a@.len() - k,
    {
        if a[k] != b[k] {
            return false;
        }
        k = k + 1;
    }
    assert(a@ =~= b@);
    true
}

impl GameState {
    /// Classifies the token of a state transition.
    pub fn from_state(state: &str) -> (r: GameState)
        ensures
            r == state_of(state@),
    {
        let s = crate::text::chars_of(state);
        GameState::from_chars(s.as_slice())
    }

    /// Classifies the token of a state transition, given as characters.
    pub fn from_chars(s: &[char]) -> (r: GameState)
        ensures
            r == state_of(s@),
    {
        let frontend = crate::text::chars_of("Frontend");
        let loading = crate::text::chars_of("LoadingGame");
        let game = crate::text::chars_of("Game");
        if chars_equal(s, frontend.as_slice()) {
            GameState::Menu
        } else if chars_equal(s, loading.as_slice()) {
            GameState::Loading
        } else if chars_equal(s, game.as_slice()) {
            GameState::InGame
        } else {
            GameState::Closed
        }
    }
}

/// What a roster line tells of one player.
#[derive(Debug, Clone, PartialEq, Eq)]
pub struct PlayerData {
    pub ai: bool,
    pub faction: String,
    pub relic_id: Option<u64>,
    pub name: String,
    pub position: u8,
    pub team: u8,
}

/// A player, as plain values.
pub struct PlayerView {
    pub ai: bool,
    pub faction: Seq<char>,
    pub relic_id: Option<u64>,
    pub name: Seq<char>,
    pub position: u8,
    pub team: u8,
}

impl View for PlayerData {
    type V = PlayerView;

    open spec fn view(&self) -> PlayerView {
        PlayerView {
            ai: self.ai,
            faction: self.faction@,
            relic_id: self.relic_id,
            name: self.name@,
            position: self.position,
            team: self.team,
        }
    }
}

/// The players of a match, by side, each side in order of appearance.
#[derive(Debug, Clone, PartialEq, Eq)]
pub struct TeamData {
    pub left: Vec<PlayerData>,
    pub right: Vec<PlayerData>,
}

/// Both sides of a match, as plain values.
pub struct TeamView {
    pub left: Seq<PlayerView>,
    pub right: Seq<PlayerView>,
}

/// The players of a vector, as plain values.
pub open spec fn players_view(v: Seq<PlayerData>) -> Seq<PlayerView> {
    v.map_values(|p: PlayerData| p@)
}

impl View for TeamData {
    type V = TeamView;

    open spec fn view(&self) -> TeamView {
        TeamView { left: players_view(self.left@), right: players_view(self.right@) }
    }
}

/// The sides before any player is seen.
pub open spec fn no_teams() -> TeamView {
    TeamView { left: Seq::empty(), right: Seq::empty() }
}

/// Places a player on the side its team stands for: team 0 on the left, team 1
/// on the right; a player of any other team is left out.
pub open spec fn add_player(t: TeamView, p: PlayerView) -> TeamView {
    if p.team == 0 {
        TeamView { left: t.left.push(p), right: t.right }
    } else if p.team == 1 {
        TeamView { left: t.left, right: t.right.push(p) }
    } else {
        t
    }
}

impl TeamData {
    /// Two empty sides.
    pub fn new() -> (r: TeamData)
        ensures
            r@ == no_teams(),
    {
        let r = TeamData { left: Vec::new(), right: Vec::new() };
        assert(r@.left =~= Seq::<PlayerView>::empty());
        assert(r@.right =~= Seq::<PlayerView>::empty());
        r
    }

    /// Adds a player to the side of its team; one of an unknown team is dropped.
    pub fn add(&mut self, p: PlayerData)
        ensures
            final(self)@ == add_player(old(self)@, p@),
    {
        let ghost pv = p@;
        if p.team == 0 {
            self.left.push(p);
            assert(players_view(self.left@) =~= players_view(old(self).left@).push(pv));
        } else if p.team == 1 {
            self.right.push(p);
            assert(players_view(self.right@) =~= players_view(old(self).right@).push(pv));
        }
    }
}

impl Default for TeamData {
    /// Two empty sides.
    fn default() -> (r: TeamData)
        ensures
            r@ == no_teams(),
    {
        TeamData::new()
    }
}

/// What is known of the game: each field is unset until some line sets it.
#[derive(Debug, Clone, PartialEq, Eq)]
pub struct LogfileState {
    pub game_state: Option<GameState>,
    pub teams: Option<TeamData>,
    pub player_relic_id: Option<u64>,
}

/// The known state, as plain values.
pub struct LogView {
    pub game_state: Option<GameState>,
    pub teams: Option<TeamView>,
    pub player_relic_id: Option<u64>,
}

/// An optional roster, as plain values.
pub open spec fn teams_view(t: Option<TeamData>) -> Option<TeamView> {
    match t {
        Some(d) => Some(d@),
        None => None,
    }
}

impl View for LogfileState {
    type V = LogView;

    open spec fn view(&self) -> LogView {
        LogView {
            game_state: self.game_state,
            teams: teams_view(self.teams),
            player_relic_id: self.player_relic_id,
        }
    }
}

/// The state in which no field is set.
pub open spec fn empty_log() -> LogView {
    LogView { game_state: None, teams: None, player_relic_id: None }
}

/// Field-wise last write wins: each field that `b` sets replaces that of `a`.
pub open spec fn merge_log(a: LogView, b: LogView) -> LogView {
    LogView {
        game_state: if b.game_state is Some { b.game_state } else { a.game_state },
        teams: if b.teams is Some { b.teams } else { a.teams },
        player_relic_id: if b.player_relic_id is Some { b.player_relic_id } else { a.player_relic_id },
    }
}

impl LogfileState {
    /// The state in which no field is set.
    pub fn new() -> (r: LogfileState)
        ensures
            r@ == empty_log(),
    {
        LogfileState { game_state: None, teams: None, player_relic_id: None }
    }

    /// Takes over every field that `other` sets and keeps the others.
    pub fn merge(&mut self, other: LogfileState)
        ensures
            final(self)@ == merge_log(old(self)@, other@),
    {
        if other.game_state.is_some() {
            self.game_state = other.game_state;
        }
        if other.teams.is_some() {
            self.teams = other.teams;
        }
        if other.player_relic_id.is_some() {
            self.player_relic_id = other.player_relic_id;
        }
    }
}

/// Merging two fragments in turn into the empty state leaves each field as the
/// later fragment sets it, or else as the earlier one does.
pub proof fn lemma_merge_last_write_wins(a: LogView, b: LogView)
    ensures
        merge_log(merge_log(empty_log(), a), b).game_state == (if b.game_state is Some {
            b.game_state
        } else {
            a.game_state
        }),
        merge_log(merge_log(empty_log(), a), b).teams == (if b.teams is Some {
            b.teams
        } else {
            a.teams
        }),
        merge_log(merge_log(empty_log(), a), b).player_relic_id == (if b.player_relic_id is Some {
            b.player_relic_id
        } else {
            a.player_relic_id
        }),
{
}

impl Default for LogfileState {
    /// The state in which no field is set.
    fn default() -> (r: LogfileState)
        ensures
            r@ == empty_log(),
    {
        LogfileState::new()
    }
}

/// Merging the same fragment again changes nothing.
pub proof fn lemma_merge_idempotent(a: LogView, b: LogView)
    ensures
        merge_log(merge_log(a, b), b) == merge_log(a, b),
{
}

/// Merging is associative: folding `c` into the merge of `a` and `b` is
/// folding the merge of `b` and `c` into `a`.
pub proof fn lemma_merge_associative(a: LogView, b: LogView, c: LogView)
    ensures
        merge_log(merge_log(a, b), c) == merge_log(a, merge_log(b, c)),
{
}

} // verus!
