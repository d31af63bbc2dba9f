use steam_discovery::discover::find_steam_root;
use steam_discovery::discover::library_candidates;
use steam_discovery::discover::list_all_games;
use steam_discovery::discover::resolve_libraries;
use steam_discovery::scan::confirm_games;
use steam_discovery::scan::game_path;
use steam_discovery::scan::scan_library;
use steam_discovery::scan::steamapps_dir;
use steam_discovery::scan::ScanFile;

fn chars(s: &str) -> Vec<char> {
    s.chars().collect()
}

fn text(v: &Vec<char>) -> String {
    v.iter().collect()
}

fn file(name: &str, content: Option<&str>) -> ScanFile {
    ScanFile { name: chars(name), content: content.map(chars) }
}

#[test]
fn registered_root_wins_when_it_exists() {
    let root = find_steam_root(Some(chars("D:\\Steam")), true, true).expect("registered");
    assert_eq!(text(&root), "D:\\Steam");
}

#[test]
fn default_root_when_registered_path_is_gone() {
    let root = find_steam_root(Some(chars("D:\\Steam")), false, true).expect("default");
    assert_eq!(text(&root), "C:\\Program Files (x86)\\Steam");
    let root = find_steam_root(None, false, true).expect("default");
    assert_eq!(text(&root), "C:\\Program Files (x86)\\Steam");
}

#[test]
fn no_root_found_means_no_games() {
    assert!(find_steam_root(None, false, false).is_none());
    assert!(find_steam_root(Some(chars("D:\\Steam")), false, false).is_none());
    let games = list_all_games(false, Vec::new());
    assert_eq!(games.len(), 0);
}

#[test]
fn missing_descriptor_leaves_the_root_alone() {
    assert_eq!(library_candidates(None).len(), 0);
    let libs = resolve_libraries(&chars("/Steam"), &Vec::new());
    assert_eq!(libs.len(), 1);
    assert_eq!(text(&libs[0]), "/Steam");
}

#[test]
fn root_listed_in_descriptor_appears_once() {
    let candidates = vec![chars("/Steam"), chars("/mnt/games")];
    let libs = resolve_libraries(&chars("/Steam"), &candidates);
    assert_eq!(libs.len(), 2);
    assert_eq!(text(&libs[0]), "/Steam");
    assert_eq!(text(&libs[1]), "/mnt/games");
}

#[test]
fn duplicate_candidates_appear_once() {
    let candidates = vec![chars("/a"), chars("/b"), chars("/a"), chars("/b")];
    let libs = resolve_libraries(&chars("/Steam"), &candidates);
    assert_eq!(libs.len(), 3);
    assert_eq!(text(&libs[0]), "/Steam");
    assert_eq!(text(&libs[1]), "/a");
    assert_eq!(text(&libs[2]), "/b");
}

#[test]
fn paths_are_joined_with_slashes() {
    assert_eq!(text(&steamapps_dir(&chars("/Steam"))), "/Steam/steamapps");
    assert_eq!(
        text(&game_path(&chars("/Steam"), &chars("Team Fortress 2"))),
        "/Steam/steamapps/common/Team Fortress 2"
    );
}

#[test]
fn end_to_end_single_game() {
    let root = chars("/Steam");
    let files = vec![file(
        "appmanifest_440.acf",
        Some("\"AppState\" { \"appid\" \"440\" \"installdir\" \"Team Fortress 2\" }"),
    )];
    let candidates = scan_library(&root, &files);
    assert_eq!(candidates.len(), 1);
    // the caller would now find this directory on disk
    let confirmed = confirm_games(candidates, &vec![true]);
    let games = list_all_games(true, vec![confirmed]);
    assert_eq!(games.len(), 1);
    assert_eq!(text(&games[0].appid), "440");
    assert_eq!(text(&games[0].path), "/Steam/steamapps/common/Team Fortress 2");
}

#[test]
fn malformed_manifest_does_not_stop_the_scan() {
    let root = chars("/lib");
    let files = vec![
        file("appmanifest_1.acf", Some("\"AppState\" { \"appid\" \"1\" \"installdir\" \"one\" }")),
        file("appmanifest_2.acf", Some("\"AppState\" { \"appid\" \"2\" \"installdir\" \"two\"")),
        file("appmanifest_3.acf", Some("\"AppState\" { \"appid\" \"3\" \"installdir\" \"three\" }")),
    ];
    let candidates = scan_library(&root, &files);
    assert_eq!(candidates.len(), 2);
    assert_eq!(text(&candidates[0].appid), "1");
    assert_eq!(text(&candidates[1].appid), "3");
}

#[test]
fn files_that_yield_no_record_are_skipped() {
    let root = chars("/lib");
    let files = vec![
        // name without the manifest prefix, valid content
        file("notes.txt", Some("\"AppState\" { \"appid\" \"9\" \"installdir\" \"nine\" }")),
        // unreadable file
        file("appmanifest_8.acf", None),
        // a field missing
        file("appmanifest_7.acf", Some("\"AppState\" { \"appid\" \"7\" }")),
    ];
    assert_eq!(scan_library(&root, &files).len(), 0);
}

#[test]
fn entries_without_an_existing_path_are_dropped() {
    let root = chars("/lib");
    let files = vec![
        file("appmanifest_1.acf", Some("\"AppState\" { \"appid\" \"1\" \"installdir\" \"one\" }")),
        file("appmanifest_2.acf", Some("\"AppState\" { \"appid\" \"2\" \"installdir\" \"two\" }")),
    ];
    let candidates = scan_library(&root, &files);
    assert_eq!(candidates.len(), 2);
    let confirmed = confirm_games(candidates, &vec![false, true]);
    assert_eq!(confirmed.len(), 1);
    assert_eq!(text(&confirmed[0].appid), "2");
    assert_eq!(text(&confirmed[0].path), "/lib/steamapps/common/two");
}

#[test]
fn games_of_all_libraries_are_concatenated_in_order() {
    let a = scan_library(
        &chars("/a"),
        &vec![file("appmanifest_1.acf", Some("\"AppState\" { \"appid\" \"1\" \"installdir\" \"x\" }"))],
    );
    let b = scan_library(
        &chars("/b"),
        &vec![file("appmanifest_2.acf", Some("\"AppState\" { \"appid\" \"2\" \"installdir\" \"y\" }"))],
    );
    let a = confirm_games(a, &vec![true]);
    let b = confirm_games(b, &vec![true]);
    let games = list_all_games(true, vec![a, b]);
    assert_eq!(games.len(), 2);
    assert_eq!(text(&games[0].path), "/a/steamapps/common/x");
    assert_eq!(text(&games[1].path), "/b/steamapps/common/y");
}
