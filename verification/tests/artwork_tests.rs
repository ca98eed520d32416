use flashback::artwork::{
    api_key, cache_key, pick_among, pick_game, slug_of_lowercase, sgdb_heroes_url, sgdb_search_url, sgdb_steam_url, slug, steam_hero_url,
    GameHit, HeroEvent, HeroFetch, HeroRequest, HeroStage,
};
use flashback::image::{bmp_data_url, mime_of, pack_rows, to_data_url};

fn hit(id: u32, name: &str, types: &[&str]) -> GameHit {
    GameHit { id, name: name.to_string(), types: types.iter().map(|t| t.to_string()).collect() }
}

#[test]
fn slug_of_names() {
    assert_eq!(slug("Half-Life 2: Episode One"), "half-life-2--episode-one");
    assert_eq!(slug("  Élden Ring!! "), "lden-ring");
    assert_eq!(slug("---"), "");
    assert_eq!(slug("DOOM"), "doom");
    // Only small ASCII letters, digits and inner dashes come out.
    assert_eq!(slug("\u{212A}ELVIN / Ümlaut_9"), "kelvin----mlaut-9");
    assert!(slug("Some GAME: Ünïcode Édition 2").chars().all(|c| c.is_ascii_lowercase() || c.is_ascii_digit() || c == '-'));
}

#[test]
fn slug_of_lowercased_text() {
    assert_eq!(slug_of_lowercase("half-life 2: episode one"), "half-life-2--episode-one");
    assert_eq!(slug_of_lowercase("--a__b--"), "a--b");
    // Capitals are kept: lower-casing is done before.
    assert_eq!(slug_of_lowercase("DOOM 2"), "DOOM-2");
}

#[test]
fn pick_among_lowercased_names() {
    let hits = vec![hit(1, "X", &[]), hit(2, "Foo", &["steam"]), hit(3, "FOO", &["steam", "gog"])];
    let names = vec!["x".to_string(), "foo".to_string(), "foo".to_string()];
    assert_eq!(pick_among(&hits, &names, "foo"), Some(3));
    assert_eq!(pick_among(&hits, &names, "bar"), Some(1));
    assert_eq!(pick_among(&[], &[], "foo"), None);
}

#[test]
fn cache_keys() {
    assert_eq!(cache_key("Anything", Some(1091500)), "steam-1091500");
    assert_eq!(cache_key("The Witcher 3", None), "the-witcher-3");
}

#[test]
fn addresses() {
    assert_eq!(steam_hero_url(570), "https://cdn.cloudflare.steamstatic.com/steam/apps/570/library_hero.jpg");
    assert_eq!(sgdb_steam_url(570), "https://www.steamgriddb.com/api/v2/games/steam/570");
    assert_eq!(sgdb_heroes_url(12), "https://www.steamgriddb.com/api/v2/heroes/game/12");
}

#[test]
fn search_address_is_url_encoded() {
    assert_eq!(
        sgdb_search_url("Half-Life 2: Episode ñ"),
        "https://www.steamgriddb.com/api/v2/search/autocomplete/Half-Life%202%3A%20Episode%20%C3%B1"
    );
    assert_eq!(sgdb_search_url("a.b_c~d"), "https://www.steamgriddb.com/api/v2/search/autocomplete/a.b_c~d");
}

#[test]
fn api_key_prefers_environment() {
    assert_eq!(api_key(Some("  abc \n".to_string()), Some("file".to_string())), Some("abc".to_string()));
    assert_eq!(api_key(Some("   ".to_string()), Some(" key\n".to_string())), Some("key".to_string()));
    assert_eq!(api_key(None, Some("".to_string())), None);
    assert_eq!(api_key(None, None), None);
}

#[test]
fn pick_game_prefers_pc_version_among_exact_names() {
    let data = vec![
        hit(1, "God of War", &[]),
        hit(2, "God of War", &["steam"]),
        hit(3, "God of War Ragnarok", &["steam"]),
    ];
    assert_eq!(pick_game(&data, "god of war"), Some(2));
}

#[test]
fn pick_game_last_of_equal_rank_wins() {
    let data = vec![hit(1, "Doom", &["gog"]), hit(2, "DOOM", &["origin"]), hit(3, "Quake", &["steam"])];
    assert_eq!(pick_game(&data, "Doom"), Some(2));
}

#[test]
fn pick_game_any_platform_beats_console_only() {
    let data = vec![hit(1, "Halo", &["gog"]), hit(2, "Halo", &[])];
    assert_eq!(pick_game(&data, "halo"), Some(1));
}

#[test]
fn pick_game_falls_back_to_first_hit() {
    let data = vec![hit(7, "Something Else", &["steam"]), hit(8, "Other", &[])];
    assert_eq!(pick_game(&data, "Unknown"), Some(7));
    assert_eq!(pick_game(&[], "Unknown"), None);
}

#[test]
fn mime_types() {
    assert_eq!(mime_of(&[0xFF, 0xD8, 0xFF, 0x00]), "image/jpeg");
    assert_eq!(mime_of(&[0x89, b'P', b'N', b'G', 0x0D]), "image/png");
    let webp = b"RIFF\x00\x00\x00\x00WEBPVP8 ";
    assert_eq!(mime_of(webp), "image/webp");
    assert_eq!(mime_of(&webp[..11]), "image/jpeg");
    assert_eq!(mime_of(&[]), "image/jpeg");
}

#[test]
fn data_url_of_image() {
    assert_eq!(to_data_url(&[0xFF, 0xD8, 0xFF, 0xE0]), "data:image/jpeg;base64,/9j/4A==");
    assert_eq!(to_data_url(b"hello"), "data:image/jpeg;base64,aGVsbG8=");
    assert_eq!(to_data_url(b""), "data:image/jpeg;base64,");
}

#[test]
fn bmp_snapshot_data_url() {
    assert_eq!(
        bmp_data_url(1, -1, &[1, 2, 3, 4]),
        "data:image/bmp;base64,Qk06AAAAAAAAADYAAAAoAAAAAQAAAP////8BACAAAAAAAAQAAAAAAAAAAAAAAAAAAAAAAAAAAQIDBA=="
    );
}

#[test]
fn hero_fetch_uses_cache_first() {
    let (mut f, req) = HeroFetch::start("Half-Life", Some(70));
    match req {
        HeroRequest::ReadCache { key } => assert_eq!(key, "steam-70"),
        _ => panic!("expected a cache read"),
    }
    match f.step(HeroEvent::Cached(Some(vec![0x89, b'P', b'N', b'G']))) {
        HeroRequest::Finish { data_url } => assert_eq!(data_url.unwrap(), "data:image/png;base64,iVBORw=="),
        _ => panic!("expected the cached image"),
    }
    assert_eq!(f.stage, HeroStage::Done);
}

#[test]
fn hero_fetch_steam_cdn_then_store() {
    let (mut f, _) = HeroFetch::start("Half-Life", Some(70));
    match f.step(HeroEvent::Cached(None)) {
        HeroRequest::SteamCdn { url } => assert_eq!(url, steam_hero_url(70)),
        _ => panic!("expected the CDN"),
    }
    match f.step(HeroEvent::Image(Some(vec![1, 2, 3]))) {
        HeroRequest::WriteCache { key, bytes } => {
            assert_eq!(key, "steam-70");
            assert_eq!(bytes, vec![1, 2, 3]);
        }
        _ => panic!("expected a cache write"),
    }
    match f.step(HeroEvent::Stored) {
        HeroRequest::Finish { data_url } => assert_eq!(data_url.unwrap(), "data:image/jpeg;base64,AQID"),
        _ => panic!("expected the image"),
    }
}

#[test]
fn hero_fetch_falls_back_to_steamgriddb_by_appid() {
    let (mut f, _) = HeroFetch::start("Half-Life", Some(70));
    f.step(HeroEvent::Cached(Some(Vec::new())));
    assert!(matches!(f.step(HeroEvent::Image(Some(Vec::new()))), HeroRequest::ApiKey));
    match f.step(HeroEvent::ApiKey(Some("k".to_string()))) {
        HeroRequest::SgdbGame { url, key } => {
            assert_eq!(url, sgdb_steam_url(70));
            assert_eq!(key, "k");
        }
        _ => panic!("expected the AppID lookup"),
    }
    match f.step(HeroEvent::GameId(Some(5))) {
        HeroRequest::SgdbHeroes { url, key } => {
            assert_eq!(url, sgdb_heroes_url(5));
            assert_eq!(key, "k");
        }
        _ => panic!("expected the heroes"),
    }
    match f.step(HeroEvent::HeroUrl(Some("https://img/h.png".to_string()))) {
        HeroRequest::Download { url } => assert_eq!(url, "https://img/h.png"),
        _ => panic!("expected the download"),
    }
    assert!(matches!(f.step(HeroEvent::Image(Some(vec![9]))), HeroRequest::WriteCache { .. }));
}

#[test]
fn hero_fetch_by_name_and_failures() {
    let (mut f, req) = HeroFetch::start("Celeste", None);
    match req {
        HeroRequest::ReadCache { key } => assert_eq!(key, "celeste"),
        _ => panic!("expected a cache read"),
    }
    assert!(matches!(f.step(HeroEvent::Cached(None)), HeroRequest::ApiKey));
    match f.step(HeroEvent::ApiKey(Some("key".to_string()))) {
        HeroRequest::SgdbSearch { url, key } => {
            assert_eq!(url, sgdb_search_url("Celeste"));
            assert_eq!(key, "key");
        }
        _ => panic!("expected the search"),
    }
    match f.step(HeroEvent::Hits(Some(vec![hit(4, "Celeste", &["steam"])]))) {
        HeroRequest::SgdbHeroes { url, .. } => assert_eq!(url, sgdb_heroes_url(4)),
        _ => panic!("expected the heroes"),
    }
    assert!(matches!(f.step(HeroEvent::HeroUrl(None)), HeroRequest::Finish { data_url: None }));

    let (mut g, _) = HeroFetch::start("Celeste", None);
    g.step(HeroEvent::Cached(None));
    assert!(matches!(g.step(HeroEvent::ApiKey(None)), HeroRequest::Finish { data_url: None }));
    // An answer of the wrong kind ends the fetch.
    let (mut h, _) = HeroFetch::start("Celeste", None);
    assert!(matches!(h.step(HeroEvent::Stored), HeroRequest::Finish { data_url: None }));
}

#[test]
fn readback_rows_are_packed() {
    // Two rows of 4 bytes, 6 bytes apart.
    let mapped = [1u8, 2, 3, 4, 99, 99, 5, 6, 7, 8];
    assert_eq!(pack_rows(&mapped, 6, 4, 2), vec![1, 2, 3, 4, 5, 6, 7, 8]);
    assert!(pack_rows(&mapped, 6, 4, 0).is_empty());
}
