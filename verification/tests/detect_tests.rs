use flashback::detect::{
    acf_value, basename, build_map, detect_with, generic_runtime, is_app_manifest, is_minecraft_path,
    manifest_game, steam_game_from_manifests, steam_library, Detectable, DetectedGame, Executable,
    ManifestMatch,
};

fn exe(name: &str) -> Executable {
    Executable { name: name.to_string(), os: "win32".to_string(), is_launcher: false, arguments: None }
}

fn game(name: &str, exes: Vec<Executable>) -> Detectable {
    Detectable { name: name.to_string(), executables: exes }
}

#[test]
fn basename_strips_markers_dirs_space_and_case() {
    assert_eq!(basename(">>C:\\Games\\Foo/BAR.EXE  "), "bar.exe");
    assert_eq!(basename("game.exe"), "game.exe");
    assert_eq!(basename("dir/sub\\Ünïcode.EXE"), "ünïcode.exe");
    assert_eq!(basename(""), "");
}

#[test]
fn generic_runtimes_are_recognised() {
    assert!(generic_runtime("javaw.exe"));
    assert!(generic_runtime("python.exe"));
    assert!(!generic_runtime("game.exe"));
    assert!(!generic_runtime("Java.exe"));
}

#[test]
fn build_map_keeps_exes_of_one_game_only() {
    let list = vec![
        game("Alpha", vec![exe("bin/Alpha.exe"), exe("game.exe")]),
        game("Beta", vec![exe("beta.exe"), exe("game.exe")]),
    ];
    let map = build_map(list);
    assert_eq!(map.get("alpha.exe"), Some("Alpha".to_string()));
    assert_eq!(map.get("beta.exe"), Some("Beta".to_string()));
    // Shared by two games: identifies neither.
    assert_eq!(map.get("game.exe"), None);
    assert_eq!(map.len(), 2);
}

#[test]
fn build_map_skips_ineligible_executables() {
    let mut launcher = exe("launcher.exe");
    launcher.is_launcher = true;
    let mut with_args = exe("args.exe");
    with_args.arguments = Some("-x".to_string());
    let mut mac = exe("mac.exe");
    mac.os = "darwin".to_string();
    let mut any_os = exe("anyos.exe");
    any_os.os = String::new();
    let list = vec![game(
        "Gamma",
        vec![launcher, with_args, mac, any_os, exe("javaw.exe"), exe("readme.txt")],
    )];
    let map = build_map(list);
    assert_eq!(map.get("anyos.exe"), Some("Gamma".to_string()));
    assert_eq!(map.get("launcher.exe"), None);
    assert_eq!(map.get("args.exe"), None);
    assert_eq!(map.get("mac.exe"), None);
    assert_eq!(map.get("javaw.exe"), None);
    assert_eq!(map.get("readme.txt"), None);
    assert_eq!(map.len(), 1);
}

#[test]
fn build_map_same_game_listing_exe_twice_keeps_it() {
    let list = vec![game("Delta", vec![exe("delta.exe"), exe("x/delta.exe")])];
    let map = build_map(list);
    assert_eq!(map.get("delta.exe"), Some("Delta".to_string()));
}

#[test]
fn minecraft_paths() {
    assert!(is_minecraft_path("c:/users/x/appdata/roaming/.minecraft/runtime/javaw.exe"));
    assert!(is_minecraft_path("c:/lunarclient/jre/bin/javaw.exe"));
    assert!(!is_minecraft_path("c:/program files/java/bin/javaw.exe"));
}

fn sample_map() -> flashback::detect::GameMap {
    build_map(vec![game("Alpha", vec![exe("alpha.exe")])])
}

#[test]
fn detect_foreground_steam_game_wins() {
    let map = sample_map();
    let procs = vec![(10u32, "alpha.exe".to_string())];
    let steam = Some(DetectedGame { name: "Half-Life".to_string(), steam_appid: Some(70) });
    let (g, cur) = detect_with(&map, &procs, Some(10), Some("c:/x".to_string()), steam, None);
    let g = g.unwrap();
    assert_eq!(g.name, "Half-Life");
    assert_eq!(g.steam_appid, Some(70));
    let (pid, c) = cur.unwrap();
    assert_eq!(pid, 10);
    assert_eq!(c.name, "Half-Life");
}

#[test]
fn detect_foreground_exe_from_map() {
    let map = sample_map();
    let procs = vec![(3u32, "other.exe".to_string()), (10u32, "alpha.exe".to_string())];
    let (g, cur) = detect_with(&map, &procs, Some(10), Some("c:/games/alpha.exe".to_string()), None, None);
    assert_eq!(g.unwrap().name, "Alpha");
    assert_eq!(cur.unwrap().0, 10);
}

#[test]
fn detect_minecraft_on_java() {
    let map = sample_map();
    let procs = vec![(7u32, "javaw.exe".to_string())];
    let (g, _) = detect_with(&map, &procs, Some(7), Some("c:/.minecraft/javaw.exe".to_string()), None, None);
    let g = g.unwrap();
    assert_eq!(g.name, "Minecraft");
    assert_eq!(g.steam_appid, None);
}

#[test]
fn detect_keeps_last_game_while_alive() {
    let map = sample_map();
    let procs = vec![(10u32, "alpha.exe".to_string()), (20u32, "explorer.exe".to_string())];
    let current = Some((10u32, DetectedGame { name: "Alpha".to_string(), steam_appid: None }));
    let (g, cur) = detect_with(&map, &procs, Some(20), None, None, current);
    assert_eq!(g.unwrap().name, "Alpha");
    assert_eq!(cur.unwrap().0, 10);
}

#[test]
fn detect_forgets_game_whose_process_ended() {
    let map = sample_map();
    let procs = vec![(20u32, "explorer.exe".to_string())];
    let current = Some((10u32, DetectedGame { name: "Alpha".to_string(), steam_appid: None }));
    let (g, cur) = detect_with(&map, &procs, None, None, None, current);
    assert!(g.is_none());
    assert!(cur.is_none());
}

#[test]
fn steam_library_from_path() {
    let (lib, dir) = steam_library("d:/steam/steamapps/common/Half-Life 2/hl2.exe").unwrap();
    assert_eq!(lib, "d:/steam/steamapps");
    assert_eq!(dir, "Half-Life 2");
    assert!(steam_library("d:/steam/steamapps/common/").is_none());
    assert!(steam_library("c:/games/foo.exe").is_none());
}

#[test]
fn app_manifest_names() {
    assert!(is_app_manifest("appmanifest_70.acf"));
    assert!(!is_app_manifest("libraryfolders.vdf"));
    assert!(!is_app_manifest("appmanifest_70.acf.bak"));
}

const MANIFEST: &str = "\"AppState\"\n{\n\t\"appid\"\t\t\"220\"\n\t\"name\"\t\t\"Half-Life 2™\"\n\t\"installdir\"\t\t\"Half-Life 2\"\n}\n";

#[test]
fn acf_values() {
    assert_eq!(acf_value(MANIFEST, "appid"), Some("220".to_string()));
    assert_eq!(acf_value(MANIFEST, "installdir"), Some("Half-Life 2".to_string()));
    assert_eq!(acf_value(MANIFEST, "missing"), None);
    assert_eq!(acf_value("\"key\" \"unterminated", "key"), None);
}

#[test]
fn manifest_of_the_game() {
    match manifest_game(MANIFEST, "half-life 2") {
        ManifestMatch::Game(g) => {
            assert_eq!(g.name, "Half-Life 2");
            assert_eq!(g.steam_appid, Some(220));
        }
        _ => panic!("expected the game"),
    }
    assert!(matches!(manifest_game(MANIFEST, "Portal"), ManifestMatch::Other));
    let bad = "\"appid\" \"x1\"\n\"installdir\" \"Portal\"";
    assert!(matches!(manifest_game(bad, "Portal"), ManifestMatch::Invalid));
}

#[test]
fn steam_game_from_library_manifests() {
    let files = vec![
        ("libraryfolders.vdf".to_string(), Some(MANIFEST.to_string())),
        ("appmanifest_1.acf".to_string(), None),
        ("appmanifest_400.acf".to_string(), Some("\"appid\" \"400\"\n\"installdir\" \"Portal\"".to_string())),
        ("appmanifest_220.acf".to_string(), Some(MANIFEST.to_string())),
    ];
    let g = steam_game_from_manifests(&files, "Half-Life 2").unwrap();
    assert_eq!(g.name, "Half-Life 2");
    assert_eq!(g.steam_appid, Some(220));
    let portal = steam_game_from_manifests(&files, "portal").unwrap();
    assert_eq!(portal.name, "Portal");
    assert!(steam_game_from_manifests(&files, "Other").is_none());
}

#[test]
fn build_map_ignores_the_order_of_games_and_executables() {
    let a = vec![
        game("Alpha", vec![exe("alpha.exe"), exe("game.exe"), exe("tool.exe")]),
        game("Beta", vec![exe("beta.exe"), exe("game.exe")]),
    ];
    let b = vec![
        game("Beta", vec![exe("game.exe"), exe("beta.exe")]),
        game("Alpha", vec![exe("tool.exe"), exe("game.exe"), exe("alpha.exe")]),
    ];
    let ma = build_map(a);
    let mb = build_map(b);
    for name in ["alpha.exe", "beta.exe", "game.exe", "tool.exe", "other.exe"] {
        assert_eq!(ma.get(name), mb.get(name));
    }
    assert_eq!(ma.len(), mb.len());
    assert_eq!(ma.len(), 3);
}

#[test]
fn build_map_adding_games_never_reassigns_a_name() {
    let list = vec![game("Alpha", vec![exe("alpha.exe"), exe("shared.exe")])];
    let mut more = vec![game("Alpha", vec![exe("alpha.exe"), exe("shared.exe")])];
    more.push(game("Beta", vec![exe("beta.exe"), exe("shared.exe")]));
    let before = build_map(list);
    let after = build_map(more);
    assert_eq!(before.get("alpha.exe"), Some("Alpha".to_string()));
    assert_eq!(after.get("alpha.exe"), Some("Alpha".to_string()));
    // A name the new game shares is dropped, not given to it.
    assert_eq!(before.get("shared.exe"), Some("Alpha".to_string()));
    assert_eq!(after.get("shared.exe"), None);
    assert_eq!(after.get("beta.exe"), Some("Beta".to_string()));
}

#[test]
fn basename_has_no_separators() {
    assert_eq!(basename(">Bin\\Win64\\Game.EXE "), "game.exe");
    assert_eq!(basename("dir/"), "");
    assert_eq!(basename("a\\b/c\\D.exe"), "d.exe");
}
