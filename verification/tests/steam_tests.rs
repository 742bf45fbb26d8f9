use stui::library::{
    clone_games, games_from_acf_files, get_games_path, get_state_path, merge_scanned_games,
    refresh_playtimes, sort_games_by_name, sync_and_load_games,
};
use stui::model::Game;
use stui::playtimes::Playtimes;
use stui::text::parse_u32;
use stui::vdf::{parse_acf_file, parse_persona_state_from_vdf, parse_playtimes_from_vdf};

fn game(id: &str, name: &str, hidden: bool, playtime: u32, favorite: bool) -> Game {
    Game { id: id.into(), name: name.into(), hidden, playtime, favorite }
}

#[test]
fn test_parse_acf_file() {
    let sample_acf = r#"
"AppState"
{
	"appid"		"105600"
	"universe"		"1"
	"name"		"Terraria"
	"StateFlags"		"4"
}
"#;
    let result = parse_acf_file(sample_acf);
    assert_eq!(result, Some(("105600".to_string(), "Terraria".to_string())));
}

#[test]
fn test_parse_playtimes_from_vdf() {
    let sample_vdf = r#"
"UserLocalConfigStore"
{
	"apps"
	{
		"218"
		{
			"LastPlayed"		"1722046689"
			"Playtime"		"166"
		}
		"400"
		{
			"LastPlayed"		"1744530322"
			"Playtime"		"274"
		}
	}
}
"#;
    let map = parse_playtimes_from_vdf(sample_vdf);
    assert_eq!(map.get("218"), Some(&166));
    assert_eq!(map.get("400"), Some(&274));
    assert_eq!(map.get("99999"), None);
}

#[test]
fn test_parse_persona_state() {
    let online_vdf = r#"
"FriendStoreLocalPrefs_866787171"		"{\"ePersonaState\":1,\"strNonFriendsAllowedToMsg\":\"\"}"
"#;
    assert!(parse_persona_state_from_vdf(online_vdf));

    let offline_vdf = r#"
"FriendStoreLocalPrefs_866787171"		"{\"ePersonaState\":0,\"strNonFriendsAllowedToMsg\":\"\"}"
"#;
    assert!(!parse_persona_state_from_vdf(offline_vdf));

    let invisible_vdf = r#"
"FriendStoreLocalPrefs_866787171"		"{\"ePersonaState\":7,\"strNonFriendsAllowedToMsg\":\"\"}"
"#;
    assert!(!parse_persona_state_from_vdf(invisible_vdf));
}

#[test]
fn test_merge_scanned_games() {
    let existing = vec![
        game("105600", "Terraria", true, 100, true),
        game("620", "Portal 2 (Uninstalled)", false, 50, false),
    ];

    let scanned = vec![
        game("105600", "Terraria", false, 100, false),
        game("1113000", "Persona 4 Golden", false, 200, false),
    ];

    let merged = merge_scanned_games(&existing, scanned);
    assert_eq!(merged.len(), 2);
    // Preserved favorite and hidden for Terraria
    assert_eq!(merged[0].id, "105600");
    assert!(merged[0].hidden);
    assert!(merged[0].favorite);

    // New game keeps default
    assert_eq!(merged[1].id, "1113000");
    assert!(!merged[1].hidden);
    assert!(!merged[1].favorite);
}

#[test]
fn merge_takes_the_last_library_entry_and_is_idempotent() {
    let existing = vec![game("7", "Seven", true, 1, false), game("7", "Seven", false, 1, true)];
    let scanned = vec![game("7", "Seven (new)", false, 9, false)];
    let merged = merge_scanned_games(&existing, scanned);
    assert_eq!(merged, vec![game("7", "Seven (new)", false, 9, true)]);
    let again = merge_scanned_games(&existing, clone_games(&merged));
    assert_eq!(again, merged);
    let into_empty = merge_scanned_games(&[], clone_games(&merged));
    assert_eq!(into_empty, merged);
}

#[test]
fn playtimes_without_a_playtime_entry() {
    let vdf = r#""10" { "LastPlayed" "5" } "20" { "Playtime" "99999999999" } "30" { "Playtime" "+8" }"#;
    let map = parse_playtimes_from_vdf(vdf);
    // "10"'s block has no play time; the regex then matches from "10" up to
    // the next "Playtime" only if no '}' intervenes, which it does.
    assert_eq!(map.get("10"), None);
    // too large for a u32
    assert_eq!(map.get("20"), None);
    // "+8" is not all digits, so the pattern does not match it
    assert_eq!(map.get("30"), None);
}

#[test]
fn later_playtime_replaces_earlier() {
    let vdf = "\"5\" {\n \"Playtime\" \"1\" }\n\"5\" {\n \"Playtime\" \"2\" }";
    let map = parse_playtimes_from_vdf(vdf);
    assert_eq!(map.get("5"), Some(&2));
}

#[test]
fn persona_without_a_state_is_online() {
    assert!(parse_persona_state_from_vdf("nothing here"));
    assert!(parse_persona_state_from_vdf(r#"ePersonaState": 70"#));
    assert!(!parse_persona_state_from_vdf(r#"ePersonaState":   0"#));
}

#[test]
fn acf_without_a_name() {
    assert_eq!(parse_acf_file(r#""appid" "10""#), None);
    assert_eq!(parse_acf_file(r#""name" "Ten""#), None);
}

#[test]
fn playtimes_table() {
    let mut table = Playtimes::new();
    assert_eq!(table.get("a"), None);
    table.insert("a".to_string(), 1);
    table.insert("b".to_string(), 2);
    table.insert("a".to_string(), 3);
    assert_eq!(table.get("a"), Some(&3));
    assert_eq!(table.get("b"), Some(&2));
}

#[test]
fn parsing_u32_like_str_parse() {
    assert_eq!(parse_u32("166"), Some(166));
    assert_eq!(parse_u32("007"), Some(7));
    assert_eq!(parse_u32("+5"), Some(5));
    assert_eq!(parse_u32("4294967295"), Some(4294967295));
    assert_eq!(parse_u32("4294967296"), None);
    assert_eq!(parse_u32(""), None);
    assert_eq!(parse_u32("+"), None);
    assert_eq!(parse_u32("-1"), None);
    assert_eq!(parse_u32("1a"), None);
    for s in ["0", "12", "+3", "99999999999", "x", " 1"] {
        assert_eq!(parse_u32(s), s.parse::<u32>().ok());
    }
}

#[test]
fn refresh_takes_listed_playtimes() {
    let mut games = vec![game("1", "A", false, 5, false), game("2", "B", false, 6, false)];
    let mut table = Playtimes::new();
    table.insert("2".to_string(), 60);
    refresh_playtimes(&mut games, &table);
    assert_eq!(games[0].playtime, 5);
    assert_eq!(games[1].playtime, 60);
}

#[test]
fn sort_is_stable_and_idempotent() {
    let mut games = vec![
        game("1", "b", false, 0, false),
        game("2", "a", false, 0, false),
        game("3", "b", true, 0, false),
        game("4", "B", false, 0, false),
    ];
    sort_games_by_name(&mut games);
    let ids: Vec<&str> = games.iter().map(|g| g.id.as_str()).collect();
    assert_eq!(ids, vec!["4", "2", "1", "3"]);
    let before = clone_games(&games);
    sort_games_by_name(&mut games);
    assert_eq!(games, before);
}

#[test]
fn sync_merges_refreshes_and_sorts() {
    let loaded = vec![game("1", "Zeta", true, 1, true)];
    let scanned = vec![game("2", "Beta", false, 2, false), game("1", "Zeta", false, 3, false)];
    let mut table = Playtimes::new();
    table.insert("2".to_string(), 20);
    let synced = sync_and_load_games(loaded, Some(scanned), Some(&table));
    let saved = synced.to_save.unwrap();
    assert_eq!(saved, vec![game("2", "Beta", false, 2, false), game("1", "Zeta", true, 3, true)]);
    assert_eq!(synced.games, vec![game("2", "Beta", false, 20, false), game("1", "Zeta", true, 3, true)]);

    let synced = sync_and_load_games(vec![game("1", "b", false, 1, false), game("2", "a", false, 1, false)], None, None);
    assert!(synced.to_save.is_none());
    assert_eq!(synced.games[0].id, "2");
}

#[test]
fn games_from_manifests() {
    let contents = vec![
        "\"appid\" \"10\"\n\"name\" \"Ten\"".to_string(),
        "not a manifest".to_string(),
        "\"appid\" \"20\"\n\"name\" \"Twenty\"".to_string(),
    ];
    let mut table = Playtimes::new();
    table.insert("20".to_string(), 42);
    let games = games_from_acf_files(&contents, &table);
    assert_eq!(games, vec![game("10", "Ten", false, 0, false), game("20", "Twenty", false, 42, false)]);
}

#[test]
fn config_paths() {
    assert_eq!(get_games_path(b"/home/u/.config/stui"), b"/home/u/.config/stui/games.json".to_vec());
    assert_eq!(get_state_path(b"/home/u/.config/stui/"), b"/home/u/.config/stui/state.json".to_vec());
    assert_eq!(get_games_path(b""), b"games.json".to_vec());
    // bytes that are not UTF-8 are kept as they are
    assert_eq!(get_state_path(b"/tmp/\xff"), b"/tmp/\xff/state.json".to_vec());
}
