use gamebench::games::{
    build_known_games, detect_games, extract_steam_game_name, find_known, lex_less, scan_changes,
    DetectedGame, ProcessEntry,
};

fn proc(name: &str, pid: u32, path: Option<&str>) -> ProcessEntry {
    ProcessEntry { name: name.to_string(), pid, exe_path: path.map(|p| p.to_string()) }
}

#[test]
fn known_games_table() {
    let known = build_known_games();
    assert_eq!(known.len(), 63);
    let i = find_known(&known, &"eldenring.exe".to_string()).unwrap();
    assert_eq!(known[i].game_name, "Elden Ring");
    assert_eq!(known[i].app_id, 1245620);
    assert!(find_known(&known, &"notepad.exe".to_string()).is_none());
    for k in &known {
        assert_eq!(k.process_name, k.process_name.to_lowercase());
    }
}

#[test]
fn steam_game_name_from_path() {
    assert_eq!(
        extract_steam_game_name("c:/games/steamapps/common/elden ring/game/eldenring.exe"),
        Some("elden ring".to_string())
    );
    assert_eq!(
        extract_steam_game_name("x/steamapps/common/hades\\x64\\hades.exe"),
        Some("hades".to_string())
    );
    assert_eq!(extract_steam_game_name("x/steamapps/common/hades"), None);
    assert_eq!(extract_steam_game_name("c:\\steam\\steamapps\\common\\hades\\hades.exe"), None);
    assert_eq!(extract_steam_game_name(""), None);
}

#[test]
fn detects_known_and_steam_games() {
    let known = build_known_games();
    let procs = vec![
        proc("System", 4, None),
        proc("svchost.exe", 8, None),
        proc("GTA5.exe", 100, Some("C:/Games/GTA5.exe")),
        proc("gta5.exe", 101, None),
        proc("Valorant.exe", 200, None),
        proc("MyIndie.exe", 300, Some("D:/SteamLibrary/steamapps/common/My Indie/MyIndie.exe")),
        proc("myindie.exe", 301, Some("D:/SteamLibrary/steamapps/common/My Indie/MyIndie.exe")),
        proc("notepad.exe", 400, Some("C:/Windows/notepad.exe")),
        proc("explorer.exe", 500, Some("C:/steamapps/common/x/explorer.exe")),
    ];
    let games = detect_games(&procs, &known);
    assert_eq!(games.len(), 3);
    assert_eq!(games[0].process_name, "GTA5.exe");
    assert_eq!(games[0].pid, 100);
    assert_eq!(games[0].game_name.as_deref(), Some("Grand Theft Auto V"));
    assert_eq!(games[0].app_id, Some(271590));
    assert_eq!(games[1].process_name, "Valorant.exe");
    assert_eq!(games[1].app_id, None);
    assert_eq!(games[2].process_name, "MyIndie.exe");
    assert_eq!(games[2].game_name.as_deref(), Some("my indie"));
    assert_eq!(games[2].app_id, None);
}

fn game(name: &str, pid: u32) -> DetectedGame {
    DetectedGame { process_name: name.to_string(), pid, game_name: None, app_id: None }
}

#[test]
fn scan_reports_started_and_exited_games() {
    let last = vec!["a.exe".to_string(), "b.exe".to_string()];
    let now = vec![game("b.exe", 2), game("c.exe", 3), game("d.exe", 4)];
    let ch = scan_changes(&last, &now);
    assert_eq!(ch.started, vec![1, 2]);
    assert_eq!(ch.exited, vec!["a.exe".to_string()]);
    assert_eq!(ch.current, vec!["b.exe".to_string(), "c.exe".to_string(), "d.exe".to_string()]);
    let again = scan_changes(&ch.current, &now);
    assert!(again.started.is_empty());
    assert!(again.exited.is_empty());
}

#[test]
fn known_games_listing_is_sorted_and_unique() {
    let list = gamebench::games::get_known_games().unwrap();
    for w in list.windows(2) {
        assert!(w[0].0 < w[1].0);
    }
    assert!(list.iter().any(|(g, p)| g == "Grand Theft Auto V" && p == "gta5.exe"));
    assert!(list.iter().any(|(g, p)| g == "Counter-Strike 2" && p == "cs2.exe"));
    let known = build_known_games();
    let mut names: Vec<String> = known.iter().map(|k| k.game_name.clone()).collect();
    names.sort();
    names.dedup();
    assert_eq!(list.len(), names.len());
    assert_eq!(list[0].0, "Among Us");
}

#[test]
fn string_order() {
    assert!(lex_less("Apex", "Apexx"));
    assert!(lex_less("Zed", "a"));
    assert!(!lex_less("abc", "abc"));
    assert!(!lex_less("b", "abc"));
    assert!(lex_less("", "a"));
}
