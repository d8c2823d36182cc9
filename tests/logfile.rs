use coh3_logfile::logfile::parse_logfile;
use coh3_logfile::state::{GameState, LogfileState, PlayerData, TeamData};

fn player_line(kind: &str, position: u8, details: &str) -> String {
    format!(
        "(I) [12:00:01] [2]: GAME -- {} Player: {} {}\n",
        kind, position, details
    )
}

fn teams_of(state: &LogfileState) -> &TeamData {
    state.teams.as_ref().expect("a roster was read")
}

fn names(players: &[PlayerData]) -> Vec<String> {
    players.iter().map(|p| p.name.clone()).collect()
}

#[test]
fn state_mapping_table() {
    assert_eq!(GameState::from_state("Frontend"), GameState::Menu);
    assert_eq!(GameState::from_state("LoadingGame"), GameState::Loading);
    assert_eq!(GameState::from_state("Game"), GameState::InGame);
    assert_eq!(GameState::from_state(""), GameState::Closed);
    assert_eq!(GameState::from_state("Foo"), GameState::Closed);
    assert_eq!(GameState::from_state("game"), GameState::Closed);
}

#[test]
fn state_transition_line() {
    let r = parse_logfile("(I) [12:00:00] [1]: GameApp::SetState : new (Game) old (Frontend)\n");
    assert_eq!(r.game_state, Some(GameState::InGame));
    assert!(r.teams.is_none());
    assert_eq!(r.player_relic_id, None);
}

#[test]
fn error_indicator_and_tabs_accepted() {
    let r = parse_logfile("(E)\t[12:00:00]  [17]:\tGameApp::SetState : new (LoadingGame) old (Game)\n");
    assert_eq!(r.game_state, Some(GameState::Loading));
}

#[test]
fn last_transition_wins() {
    let text = "(I) [1] [1]: GameApp::SetState : new (Frontend) old (None)\n\
                (I) [2] [2]: GameApp::SetState : new (LoadingGame) old (Frontend)\n\
                (I) [3] [3]: GameApp::SetState : new (Game) old (LoadingGame)\n\
                (I) [4] [4]: GameApp::SetState : new (Frontend) old (Game)\n";
    assert_eq!(parse_logfile(text).game_state, Some(GameState::Menu));
}

#[test]
fn unknown_state_token_is_closed() {
    let r = parse_logfile("(I) [1] [1]: GameApp::SetState : new () old (Game)\n");
    assert_eq!(r.game_state, Some(GameState::Closed));
    let r = parse_logfile("(I) [1] [1]: GameApp::SetState : new (Foo) old (Game)\n");
    assert_eq!(r.game_state, Some(GameState::Closed));
}

#[test]
fn transition_without_old_state_is_skipped() {
    let r = parse_logfile("(I) [1] [1]: GameApp::SetState : new (Game) old (Frontend\n");
    assert_eq!(r.game_state, None);
}

#[test]
fn name_with_embedded_space() {
    let r = parse_logfile(&player_line("Human", 0, "Sgt Major 1054 0 americans"));
    let teams = teams_of(&r);
    assert_eq!(teams.right.len(), 0);
    assert_eq!(teams.left.len(), 1);
    let p = &teams.left[0];
    assert_eq!(p.name, "Sgt Major");
    assert_eq!(p.relic_id, Some(1054));
    assert_eq!(p.team, 0);
    assert_eq!(p.faction, "americans");
    assert_eq!(p.position, 0);
    assert!(!p.ai);
}

#[test]
fn two_roster_lines_split_by_team() {
    let text = player_line("Human", 0, "player0 100 0 americans")
        + &player_line("AI", 1, "player1 -1 1 germans");
    let r = parse_logfile(&text);
    let teams = teams_of(&r);
    assert_eq!(names(&teams.left), vec!["player0".to_string()]);
    assert_eq!(names(&teams.right), vec!["player1".to_string()]);
    assert!(!teams.left[0].ai);
    assert!(teams.right[0].ai);
    assert_eq!(teams.right[0].relic_id, None);
    assert_eq!(teams.right[0].position, 1);
    assert_eq!(teams.right[0].faction, "germans");
}

#[test]
fn roster_partition_keeps_order() {
    let text = player_line("Human", 0, "a 1 0 british")
        + &player_line("Human", 1, "b 2 1 germans")
        + &player_line("AI", 2, "c 3 0 americans")
        + &player_line("AI", 3, "d 4 1 afrika_korps")
        + &player_line("Human", 4, "e 5 0 british");
    let r = parse_logfile(&text);
    let teams = teams_of(&r);
    assert_eq!(names(&teams.left), vec!["a", "c", "e"]);
    assert_eq!(names(&teams.right), vec!["b", "d"]);
    let positions: Vec<u8> = teams.left.iter().map(|p| p.position).collect();
    assert_eq!(positions, vec![0, 2, 4]);
    let factions: Vec<String> = teams.right.iter().map(|p| p.faction.clone()).collect();
    assert_eq!(factions, vec!["germans", "afrika_korps"]);
}

#[test]
fn invalid_team_is_dropped_and_parsing_goes_on() {
    let text = player_line("Human", 0, "a 1 0 british")
        + &player_line("Human", 1, "b 2 7 germans")
        + &player_line("AI", 2, "c 3 1 americans")
        + "(I) [12:00:02] [3]: GameApp::SetState : new (Game) old (LoadingGame)\n";
    let r = parse_logfile(&text);
    let teams = teams_of(&r);
    assert_eq!(names(&teams.left), vec!["a"]);
    assert_eq!(names(&teams.right), vec!["c"]);
    assert_eq!(r.game_state, Some(GameState::InGame));
}

#[test]
fn non_numeric_team_line_is_skipped() {
    let text = player_line("Human", 0, "a 1 0 british")
        + &player_line("Human", 1, "b 2 x germans")
        + &player_line("AI", 2, "c 3 1 americans");
    let r = parse_logfile(&text);
    let teams = teams_of(&r);
    assert_eq!(names(&teams.left), vec!["a"]);
    assert_eq!(names(&teams.right), vec!["c"]);
}

#[test]
fn unknown_line_keeps_roster_run() {
    let text = player_line("Human", 0, "a 1 0 british")
        + "(I) [12:00:02] [3]: unrelated\n"
        + "not a log line at all\n"
        + &player_line("Human", 0, "z 9 1 germans");
    let r = parse_logfile(&text);
    let teams = teams_of(&r);
    assert_eq!(names(&teams.left), vec!["a"]);
    assert_eq!(names(&teams.right), vec!["z"]);
}

#[test]
fn state_line_ends_roster_run() {
    let text = player_line("Human", 0, "a 1 0 british")
        + "(I) [12:00:02] [3]: GameApp::SetState : new (Frontend) old (Game)\n"
        + &player_line("Human", 0, "z 9 1 germans");
    let r = parse_logfile(&text);
    let teams = teams_of(&r);
    assert_eq!(teams.left.len(), 0);
    assert_eq!(names(&teams.right), vec!["z"]);
    assert_eq!(r.game_state, Some(GameState::Menu));
}

#[test]
fn identifier_message_ends_roster_run() {
    let text = player_line("Human", 0, "a 1 0 british")
        + "(I) [1] [2]: Read bytes [0,\"x\",77]\n"
        + &player_line("Human", 0, "z 9 1 germans");
    let r = parse_logfile(&text);
    let teams = teams_of(&r);
    assert_eq!(teams.left.len(), 0);
    assert_eq!(names(&teams.right), vec!["z"]);
    assert_eq!(r.player_relic_id, Some(77));
}

#[test]
fn plus_sign_on_identifier_and_team() {
    let r = parse_logfile(&player_line("Human", 0, "Bob +5 0 f"));
    let p = &teams_of(&r).left[0];
    assert_eq!(p.name, "Bob");
    assert_eq!(p.relic_id, Some(5));
    let r = parse_logfile(&player_line("Human", 0, "Bob 5 +1 f"));
    let p = &teams_of(&r).right[0];
    assert_eq!(p.team, 1);
    assert_eq!(p.relic_id, Some(5));
    let r = parse_logfile(&player_line("Human", 0, "Bob + 0 f"));
    assert_eq!(teams_of(&r).left[0].relic_id, None);
    let r = parse_logfile(&player_line("Human", 0, "Bob ++5 0 f"));
    assert_eq!(teams_of(&r).left[0].relic_id, None);
    let r = parse_logfile(&player_line("Human", 0, "Bob 5 + f"));
    assert!(r.teams.is_none());
}

#[test]
fn defaults_are_empty() {
    let s = LogfileState::default();
    assert_eq!(s, LogfileState::new());
    assert!(s.game_state.is_none() && s.teams.is_none() && s.player_relic_id.is_none());
    let t = TeamData::default();
    assert!(t.left.is_empty() && t.right.is_empty());
}

#[test]
fn roster_edge_cases() {
    let r = parse_logfile(&player_line("Human", 0, "1054 0 americans"));
    let p = &teams_of(&r).left[0];
    assert_eq!(p.name, "");
    assert_eq!(p.relic_id, Some(1054));
    let r = parse_logfile(&player_line("Human", 0, "Some  Name abc 0 americans "));
    let p = &teams_of(&r).left[0];
    assert_eq!(p.name, "Some  Name");
    assert_eq!(p.relic_id, None);
    assert_eq!(p.faction, "americans");
    let r = parse_logfile(&player_line("Human", 0, "0 americans"));
    assert!(r.teams.is_none());
    let r = parse_logfile("(I) [1] [2]: GAME -- Human Player: 256 a 1 0 british\n");
    assert!(r.teams.is_none());
    let r = parse_logfile("(I) [1] [2]: GAME -- Human Player: 255 a 1 0 british\n");
    assert_eq!(teams_of(&r).left[0].position, 255);
}

#[test]
fn relic_id_message() {
    let r = parse_logfile("(I) [1] [2]: Read bytes [0,\"AutomatchEvent\",12345]\n");
    assert_eq!(r.player_relic_id, Some(12345));
    let r = parse_logfile("(I) [1] [2]: Read bytes [0,\"Automatch\",18446744073709551615]\n");
    assert_eq!(r.player_relic_id, Some(u64::MAX));
    let r = parse_logfile("(I) [1] [2]: Read bytes [0,\"Automatch\",18446744073709551616]\n");
    assert_eq!(r.player_relic_id, None);
    let r = parse_logfile("(I) [1] [2]: Read bytes [0,\"Auto1\",5]\n");
    assert_eq!(r.player_relic_id, None);
}

#[test]
fn unknown_lines_change_nothing() {
    let records = "(I) [1] [1]: GameApp::SetState : new (Game) old (Frontend)\n\
                   (I) [1] [2]: Read bytes [0,\"x\",77]\n";
    let noisy = "garbage\n\
                 (I) [1] [1]: GameApp::SetState : new (Game) old (Frontend)\n\
                 (I) [1] [9]: something else\n\
                 \n\
                 (W) [1] [2]: Read bytes [0,\"x\",78]\n\
                 (I) [1] [2]: Read bytes [0,\"x\",77]\n\
                 (I) [1]: missing id\n";
    assert_eq!(parse_logfile(records), parse_logfile(noisy));
}

#[test]
fn reparse_gives_same_state() {
    let text = player_line("Human", 0, "a 1 0 british")
        + "(I) [1] [1]: GameApp::SetState : new (Game) old (Frontend)\n";
    assert_eq!(parse_logfile(&text), parse_logfile(&text));
}

#[test]
fn line_terminators() {
    let r = parse_logfile("(I) [1] [1]: GameApp::SetState : new (Game) old (Frontend)\r\n");
    assert_eq!(r.game_state, Some(GameState::InGame));
    let r = parse_logfile("(I) [1] [1]: GameApp::SetState : new (Game) old (Frontend)");
    assert_eq!(r.game_state, None);
    let r = parse_logfile("");
    assert_eq!(r, LogfileState::new());
    let r = parse_logfile(&player_line("Human", 0, "a 1 0 british").replace('\n', "\r\n"));
    assert_eq!(teams_of(&r).left[0].faction, "british");
}

#[test]
fn header_must_be_complete() {
    for text in [
        "(X) [1] [1]: GameApp::SetState : new (Game) old (Frontend)\n",
        "(I)[1] [1]: GameApp::SetState : new (Game) old (Frontend)\n",
        "(I) [1] [a]: GameApp::SetState : new (Game) old (Frontend)\n",
        "(I) [1] [1] GameApp::SetState : new (Game) old (Frontend)\n",
        "(I) [1] [1]:GameApp::SetState : new (Game) old (Frontend)\n",
    ] {
        assert_eq!(parse_logfile(text).game_state, None, "{}", text);
    }
}

fn fragment(game_state: Option<GameState>, relic: Option<u64>) -> LogfileState {
    LogfileState { game_state, teams: None, player_relic_id: relic }
}

#[test]
fn merge_last_write_wins() {
    let mut acc = LogfileState::new();
    acc.merge(fragment(Some(GameState::Menu), Some(1)));
    acc.merge(fragment(Some(GameState::InGame), None));
    assert_eq!(acc.game_state, Some(GameState::InGame));
    assert_eq!(acc.player_relic_id, Some(1));
    let mut teams = TeamData::new();
    teams.add(PlayerData {
        ai: false,
        faction: "british".to_string(),
        relic_id: None,
        name: "a".to_string(),
        position: 0,
        team: 1,
    });
    acc.merge(LogfileState { game_state: None, teams: Some(teams), player_relic_id: None });
    assert_eq!(teams_of(&acc).right.len(), 1);
    acc.merge(LogfileState::new());
    assert_eq!(teams_of(&acc).right.len(), 1);
    assert_eq!(acc.game_state, Some(GameState::InGame));
}

#[test]
fn team_data_add_drops_unknown_team() {
    let mut teams = TeamData::new();
    for team in [0u8, 1, 2, 0] {
        teams.add(PlayerData {
            ai: true,
            faction: "f".to_string(),
            relic_id: Some(team as u64),
            name: format!("p{}", team),
            position: team,
            team,
        });
    }
    assert_eq!(names(&teams.left), vec!["p0", "p0"]);
    assert_eq!(names(&teams.right), vec!["p1"]);
}
