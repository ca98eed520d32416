//! Game artwork: cache keys, the Steam CDN and SteamGridDB addresses, the choice of a
//! SteamGridDB search hit, and the steps of fetching a game's hero image.
use vstd::prelude::*;
use vstd::utf8::encode_utf8;
use crate::text::{
    append_str, ascii_alnum, chars_eq, chars_of, decimal, is_ascii_alnum, lemma_trim_char_shape,
    lowercase, push_decimal, string_from_chars, trim, trim_char, trim_char_chars, trim_chars,
    unicode_lowercase,
};

verus! {

// ---------------------------------------------------------------------------
// Slugs and cache keys
// ---------------------------------------------------------------------------

/// An ASCII letter or digit stays; anything else becomes `-`.
pub open spec fn slug_char(c: char) -> char {
    if is_ascii_alnum(c) {
        c
    } else {
        '-'
    }
}

/// The slug of an already lower-cased name: every character that is not an ASCII
/// letter or digit replaced by `-`, and the `-` at both ends removed.
pub open spec fn spec_slug_of_lowercase(lower: Seq<char>) -> Seq<char> {
    trim_char(lower.map_values(|c: char| slug_char(c)), '-')
}

/// A file-name-safe key for a game name: the slug of its lower-cased form.
pub open spec fn spec_slug(name: Seq<char>) -> Seq<char> {
    spec_slug_of_lowercase(unicode_lowercase(name))
}

/// A character a slug is made of: a small ASCII letter, a digit or `-`.
pub open spec fn is_slug_char(c: char) -> bool {
    'a' <= c <= 'z' || '0' <= c <= '9' || c == '-'
}

/// The slug of an already lower-cased name (see `spec_slug_of_lowercase`): ASCII
/// letters, digits and `-` only, with no `-` at either end; no capital when the text
/// holds none.
pub fn slug_of_lowercase(lower: &str) -> (r: String)
    ensures
        r@ == spec_slug_of_lowercase(lower@),
        forall|i: int| 0 <= i < r@.len() ==> is_ascii_alnum(#[trigger] r@[i]) || r@[i] == '-',
        (forall|i: int| 0 <= i < lower@.len() ==> !('A' <= #[trigger] lower@[i] <= 'Z')) ==> forall|i: int|
            0 <= i < r@.len() ==> is_slug_char(#[trigger] r@[i]),
        r@.len() > 0 ==> r@[0] != '-' && r@.last() != '-',
{
    let lv = chars_of(lower);
    let mut mapped: Vec<char> = Vec::new();
    let mut i: usize = 0;
    while i < lv.len()
        invariant
            i <= lv@.len(),
            mapped@ == lv@.subrange(0, i as int).map_values(|c: char| slug_char(c)),
        decreases lv@.len() - i,
    {
        let c = lv[i];
        let m = if ascii_alnum(c) {
            c
        } else {
            '-'
        };
        mapped.push(m);
        assert(lv@.subrange(0, (i + 1) as int).map_values(|c: char| slug_char(c)) =~= lv@.subrange(
            0,
            i as int,
        ).map_values(|c: char| slug_char(c)).push(slug_char(c)));
        i = i + 1;
    }
    assert(lv@.subrange(0, lv@.len() as int) =~= lv@);
    let t = trim_char_chars(mapped.as_slice(), '-');
    proof {
        lemma_trim_char_shape(mapped@, '-');
        let (lo, hi) = choose|lo: int, hi: int|
            0 <= lo <= hi <= mapped@.len() && trim_char(mapped@, '-') == mapped@.subrange(lo, hi);
        assert forall|i: int| 0 <= i < t@.len() implies is_ascii_alnum(#[trigger] t@[i]) || t@[i] == '-' by {
            assert(t@[i] == mapped@[lo + i]);
        }
        if forall|i: int| 0 <= i < lower@.len() ==> !('A' <= #[trigger] lower@[i] <= 'Z') {
            assert forall|i: int| 0 <= i < t@.len() implies is_slug_char(#[trigger] t@[i]) by {
                assert(t@[i] == mapped@[lo + i]);
                assert(!('A' <= lv@[lo + i] <= 'Z'));
            }
        }
    }
    string_from_chars(t.as_slice())
}

/// The slug of a game name (see `spec_slug`): small ASCII letters, digits and `-`
/// only, with no `-` at either end.
pub fn slug(name: &str) -> (r: String)
    ensures
        r@ == spec_slug(name@),
        forall|i: int| 0 <= i < r@.len() ==> is_slug_char(#[trigger] r@[i]),
        r@.len() > 0 ==> r@[0] != '-' && r@.last() != '-',
{
    let lower = lowercase(name);
    slug_of_lowercase(lower.as_str())
}

/// The artwork cache key: `steam-<appid>` for a Steam game (remasters and sequels that
/// share a name have different AppIDs), the slug of the name otherwise.
pub open spec fn spec_cache_key(name: Seq<char>, steam_appid: Option<u32>) -> Seq<char> {
    match steam_appid {
        Some(id) => "steam-"@ + decimal(id as nat),
        None => spec_slug(name),
    }
}

/// The artwork cache key of a game (see `spec_cache_key`).
pub fn cache_key(name: &str, steam_appid: Option<u32>) -> (r: String)
    ensures
        r@ == spec_cache_key(name@, steam_appid),
{
    match steam_appid {
        Some(id) => {
            let mut out: Vec<char> = Vec::new();
            append_str(&mut out, "steam-");
            push_decimal(&mut out, id as u64);
            string_from_chars(out.as_slice())
        },
        None => slug(name),
    }
}

// ---------------------------------------------------------------------------
// Addresses
// ---------------------------------------------------------------------------

/// The SteamGridDB API root.
pub open spec fn api_base() -> Seq<char> {
    "https://www.steamgriddb.com/api/v2"@
}

/// A byte that URL encoding leaves as it is: ASCII letters, digits, `-`, `.`, `_`, `~`.
pub open spec fn url_safe_byte(b: u8) -> bool {
    (48 <= b <= 57) || (65 <= b <= 90) || (97 <= b <= 122) || b == 45 || b == 46 || b == 95 || b
        == 126
}

/// An upper-case hexadecimal digit.
pub open spec fn hex_upper(d: int) -> char {
    if d < 10 {
        (48 + d) as char
    } else {
        (55 + d) as char
    }
}

/// Percent-encoding of bytes: safe bytes stay, every other byte becomes `%XY`.
pub open spec fn percent_encode(b: Seq<u8>) -> Seq<char>
    decreases b.len(),
{
    if b.len() == 0 {
        seq![]
    } else {
        let x = b[0];
        let head = if url_safe_byte(x) {
            seq![x as char]
        } else {
            seq!['%', hex_upper(x as int / 16), hex_upper(x as int % 16)]
        };
        head + percent_encode(b.drop_first())
    }
}

/// `urlencoding::encode`: the UTF-8 bytes of `s`, percent-encoded.
pub open spec fn url_encode(s: Seq<char>) -> Seq<char> {
    percent_encode(encode_utf8(s))
}

/// `urlencoding::encode` (owned). Claims what the crate documents and its source does:
/// every byte of the UTF-8 text except ASCII letters, digits, `-`, `_`, `.` and `~`
/// becomes `%` and two upper-case hexadecimal digits (`url_encode`).
#[verifier::external_body]
fn encode_component(s: &str) -> (r: String)
    ensures
        r@ == url_encode(s@),
{
    urlencoding::encode(s).into_owned()
}

/// The official hero image of a Steam game on Steam's CDN.
pub open spec fn spec_steam_hero_url(appid: u32) -> Seq<char> {
    "https://cdn.cloudflare.steamstatic.com/steam/apps/"@ + decimal(appid as nat)
        + "/library_hero.jpg"@
}

/// The address of a Steam game's hero image on Steam's CDN.
pub fn steam_hero_url(appid: u32) -> (r: String)
    ensures
        r@ == spec_steam_hero_url(appid),
{
    let mut out: Vec<char> = Vec::new();
    append_str(&mut out, "https://cdn.cloudflare.steamstatic.com/steam/apps/");
    push_decimal(&mut out, appid as u64);
    append_str(&mut out, "/library_hero.jpg");
    string_from_chars(out.as_slice())
}

/// The SteamGridDB game of a Steam AppID.
pub open spec fn spec_sgdb_steam_url(appid: u32) -> Seq<char> {
    api_base() + "/games/steam/"@ + decimal(appid as nat)
}

/// The SteamGridDB lookup of a Steam AppID.
pub fn sgdb_steam_url(appid: u32) -> (r: String)
    ensures
        r@ == spec_sgdb_steam_url(appid),
{
    let mut out: Vec<char> = Vec::new();
    append_str(&mut out, "https://www.steamgriddb.com/api/v2");
    append_str(&mut out, "/games/steam/");
    push_decimal(&mut out, appid as u64);
    string_from_chars(out.as_slice())
}

/// The SteamGridDB name search, with the name URL-encoded.
pub open spec fn spec_sgdb_search_url(name: Seq<char>) -> Seq<char> {
    api_base() + "/search/autocomplete/"@ + url_encode(name)
}

/// The SteamGridDB search for a game name.
pub fn sgdb_search_url(name: &str) -> (r: String)
    ensures
        r@ == spec_sgdb_search_url(name@),
{
    let enc = encode_component(name);
    let mut out: Vec<char> = Vec::new();
    append_str(&mut out, "https://www.steamgriddb.com/api/v2");
    append_str(&mut out, "/search/autocomplete/");
    append_str(&mut out, enc.as_str());
    string_from_chars(out.as_slice())
}

/// The SteamGridDB hero images of a SteamGridDB game.
pub open spec fn spec_sgdb_heroes_url(game_id: u32) -> Seq<char> {
    api_base() + "/heroes/game/"@ + decimal(game_id as nat)
}

/// The SteamGridDB hero list of a game.
pub fn sgdb_heroes_url(game_id: u32) -> (r: String)
    ensures
        r@ == spec_sgdb_heroes_url(game_id),
{
    let mut out: Vec<char> = Vec::new();
    append_str(&mut out, "https://www.steamgriddb.com/api/v2");
    append_str(&mut out, "/heroes/game/");
    push_decimal(&mut out, game_id as u64);
    string_from_chars(out.as_slice())
}

// ---------------------------------------------------------------------------
// The API key
// ---------------------------------------------------------------------------

/// A configured key: its text trimmed, when anything is left.
pub open spec fn spec_clean_key(raw: Seq<char>) -> Option<Seq<char>> {
    if trim(raw).len() > 0 {
        Some(trim(raw))
    } else {
        None
    }
}

/// The SteamGridDB key: the environment variable's value when it holds one, else the
/// key file's.
pub open spec fn spec_api_key(env: Option<Seq<char>>, file: Option<Seq<char>>) -> Option<Seq<char>> {
    let from_env = match env {
        Some(e) => spec_clean_key(e),
        None => None,
    };
    if from_env is Some {
        from_env
    } else {
        match file {
            Some(f) => spec_clean_key(f),
            None => None,
        }
    }
}

fn clean_key(raw: &str) -> (r: Option<String>)
    ensures
        match spec_clean_key(raw@) {
            Some(k) => r matches Some(s) && s@ == k,
            None => r is None,
        },
{
    let v = chars_of(raw);
    let t = trim_chars(v.as_slice());
    if t.len() > 0 {
        Some(string_from_chars(t.as_slice()))
    } else {
        None
    }
}

/// The SteamGridDB API key from the value of `STEAMGRIDDB_API_KEY` (if set) and the
/// text of the key file (if it could be read); see `spec_api_key`.
pub fn api_key(env: Option<String>, file: Option<String>) -> (r: Option<String>)
    ensures
        match spec_api_key(
            match env {
                Some(e) => Some(e@),
                None => None,
            },
            match file {
                Some(f) => Some(f@),
                None => None,
            },
        ) {
            Some(k) => r matches Some(s) && s@ == k,
            None => r is None,
        },
{
    if let Some(e) = &env {
        let k = clean_key(e.as_str());
        if k.is_some() {
            return k;
        }
    }
    match &file {
        Some(f) => clean_key(f.as_str()),
        None => None,
    }
}

// ---------------------------------------------------------------------------
// Choosing a search hit
// ---------------------------------------------------------------------------

/// A SteamGridDB search hit: its id, name and platforms.
pub struct GameHit {
    pub id: u32,
    pub name: String,
    pub types: Vec<String>,
}

/// The hit is on Steam.
pub open spec fn on_steam(g: GameHit) -> bool {
    exists|i: int| 0 <= i < g.types@.len() && (#[trigger] g.types@[i])@ == "steam"@
}

/// How much a hit is preferred among those with the searched name: on Steam first,
/// then on any platform (a PC version), then a console-only entry. This orders as
/// the key `(on Steam, has a platform)`.
pub open spec fn hit_rank(g: GameHit) -> int {
    (if on_steam(g) {
        2int
    } else {
        0int
    }) + (if g.types@.len() > 0 {
        1int
    } else {
        0int
    })
}

/// Hit `k` is the chosen one among the exact matches, with `names` the hits' names
/// lower-cased and `lower` the searched name lower-cased: its name is the searched
/// one, it ranks highest among those, and it is the last of those that rank highest.
pub open spec fn is_best_exact(data: Seq<GameHit>, names: Seq<Seq<char>>, lower: Seq<char>, k: int) -> bool {
    &&& 0 <= k < data.len()
    &&& names[k] == lower
    &&& forall|j: int|
        0 <= j < data.len() && #[trigger] names[j] == lower ==> hit_rank(data[j]) <= hit_rank(data[k])
    &&& forall|j: int|
        k < j < data.len() && #[trigger] names[j] == lower ==> hit_rank(data[j]) < hit_rank(data[k])
}

/// The SteamGridDB game among the hits `data`, with `names` their lower-cased names and
/// `lower` the searched name lower-cased: among the hits with the searched name the
/// best ranked (see `is_best_exact`); when none has it, the first hit; none for no hits.
pub open spec fn spec_pick_among(data: Seq<GameHit>, names: Seq<Seq<char>>, lower: Seq<char>) -> Option<u32> {
    if exists|k: int| is_best_exact(data, names, lower, k) {
        Some(data[choose|k: int| is_best_exact(data, names, lower, k)].id)
    } else if data.len() > 0 {
        Some(data[0].id)
    } else {
        None
    }
}

/// The hits' names, lower-cased.
pub open spec fn lowered_names(data: Seq<GameHit>) -> Seq<Seq<char>> {
    data.map_values(|g: GameHit| unicode_lowercase(g.name@))
}

/// The SteamGridDB game for a name: the choice among the hits (see `spec_pick_among`)
/// with the hits' names and the searched name lower-cased, so that case is ignored.
pub open spec fn spec_pick_game(data: Seq<GameHit>, name: Seq<char>) -> Option<u32> {
    spec_pick_among(data, lowered_names(data), unicode_lowercase(name))
}

/// At most one hit is the best exact match.
pub proof fn lemma_best_exact_unique(data: Seq<GameHit>, names: Seq<Seq<char>>, lower: Seq<char>, a: int, b: int)
    requires
        is_best_exact(data, names, lower, a),
        is_best_exact(data, names, lower, b),
    ensures
        a == b,
{
    if a < b {
        assert(hit_rank(data[b]) <= hit_rank(data[a]));
        assert(hit_rank(data[a]) <= hit_rank(data[b]));
        assert(hit_rank(data[b]) < hit_rank(data[a]));
    } else if b < a {
        assert(hit_rank(data[a]) < hit_rank(data[b]));
        assert(hit_rank(data[b]) <= hit_rank(data[a]));
    }
}

fn steam_listed(types: &Vec<String>) -> (r: bool)
    ensures
        r == (exists|i: int| 0 <= i < types@.len() && (#[trigger] types@[i])@ == "steam"@),
{
    let steam = chars_of("steam");
    let mut i: usize = 0;
    while i < types.len()
        invariant
            i <= types@.len(),
            steam@ == "steam"@,
            forall|j: int| 0 <= j < i ==> (#[trigger] types@[j])@ != "steam"@,
        decreases types@.len() - i,
    {
        let t = chars_of(types[i].as_str());
        if chars_eq(t.as_slice(), steam.as_slice()) {
            assert(types@[i as int]@ == "steam"@);
            return true;
        }
        i = i + 1;
    }
    false
}

fn rank_of(g: &GameHit) -> (r: u8)
    ensures
        r == hit_rank(*g),
{
    let s: u8 = if steam_listed(&g.types) {
        2
    } else {
        0
    };
    let p: u8 = if g.types.len() > 0 {
        1
    } else {
        0
    };
    s + p
}

/// Picks the SteamGridDB game among the search hits `data`, given their names
/// lower-cased (`names`, one per hit) and the searched name lower-cased (see
/// `spec_pick_among`).
pub fn pick_among(data: &[GameHit], names: &[String], lower: &str) -> (r: Option<u32>)
    requires
        names@.len() == data@.len(),
    ensures
        r == spec_pick_among(data@, names@.map_values(|n: String| n@), lower@),
{
    let ghost ns = names@.map_values(|n: String| n@);
    let lv = chars_of(lower);
    let mut best: Option<usize> = None;
    let mut best_rank: u8 = 0;
    let mut i: usize = 0;
    while i < data.len()
        invariant
            i <= data@.len(),
            names@.len() == data@.len(),
            ns == names@.map_values(|n: String| n@),
            lv@ == lower@,
            best is None ==> forall|j: int| 0 <= j < i ==> #[trigger] ns[j] != lower@,
            best matches Some(k) ==> {
                &&& k < i
                &&& ns[k as int] == lower@
                &&& best_rank == hit_rank(data@[k as int])
                &&& forall|j: int|
                    0 <= j < i && #[trigger] ns[j] == lower@ ==> hit_rank(data@[j]) <= hit_rank(data@[k as int])
                &&& forall|j: int|
                    k < j < i && #[trigger] ns[j] == lower@ ==> hit_rank(data@[j]) < hit_rank(data@[k as int])
            },
        decreases data@.len() - i,
    {
        let g = &data[i];
        let gv = chars_of(names[i].as_str());
        assert(ns[i as int] == names@[i as int]@);
        if chars_eq(gv.as_slice(), lv.as_slice()) {
            let r = rank_of(g);
            let take = match best {
                None => true,
                Some(_) => r >= best_rank,
            };
            if take {
                best = Some(i);
                best_rank = r;
            }
        }
        i = i + 1;
    }
    match best {
        Some(k) => {
            proof {
                assert(is_best_exact(data@, ns, lower@, k as int));
                let c = choose|c: int| is_best_exact(data@, ns, lower@, c);
                lemma_best_exact_unique(data@, ns, lower@, c, k as int);
            }
            Some(data[k].id)
        },
        None => {
            proof {
                if exists|k: int| is_best_exact(data@, ns, lower@, k) {
                    let c = choose|c: int| is_best_exact(data@, ns, lower@, c);
                    assert(ns[c] == lower@);
                }
            }
            if data.len() > 0 {
                Some(data[0].id)
            } else {
                None
            }
        },
    }
}

/// Picks the SteamGridDB game for `name` among the search hits (see `spec_pick_game`).
pub fn pick_game(data: &[GameHit], name: &str) -> (r: Option<u32>)
    ensures
        r == spec_pick_game(data@, name@),
{
    let lower = lowercase(name);
    let mut names: Vec<String> = Vec::new();
    let mut i: usize = 0;
    while i < data.len()
        invariant
            i <= data@.len(),
            names@.len() == i,
            forall|j: int| 0 <= j < i ==> (#[trigger] names@[j])@ == unicode_lowercase(data@[j].name@),
        decreases data@.len() - i,
    {
        names.push(lowercase(data[i].name.as_str()));
        i = i + 1;
    }
    proof {
        assert(names@.map_values(|n: String| n@) =~= lowered_names(data@));
    }
    pick_among(data, names.as_slice(), lower.as_str())
}


// ---------------------------------------------------------------------------
// Fetching a hero image
// ---------------------------------------------------------------------------

/// What the caller does next to fetch a game's hero image.
pub enum HeroRequest {
    /// Read the cached image stored under `key` (answer with `HeroEvent::Cached`).
    ReadCache { key: String },
    /// Get the Steam CDN image at `url` (answer with `HeroEvent::Image`: the body of a
    /// successful response).
    SteamCdn { url: String },
    /// Find the SteamGridDB API key (answer with `HeroEvent::ApiKey`).
    ApiKey,
    /// Look up the SteamGridDB game at `url`, authorised by `key` (answer with
    /// `HeroEvent::GameId`: the id in a successful response).
    SgdbGame { url: String, key: String },
    /// Search SteamGridDB at `url`, authorised by `key` (answer with `HeroEvent::Hits`:
    /// the hits of a successful response).
    SgdbSearch { url: String, key: String },
    /// List the game's hero images at `url`, authorised by `key` (answer with
    /// `HeroEvent::HeroUrl`: the address of the first one of a successful response).
    SgdbHeroes { url: String, key: String },
    /// Download the image at `url` (answer with `HeroEvent::Image`: the body).
    Download { url: String },
    /// Store `bytes` in the cache under `key` (answer with `HeroEvent::Stored`; a failed
    /// write is ignored).
    WriteCache { key: String, bytes: Vec<u8> },
    /// Done: the image as a `data:` URL, if one was found.
    Finish { data_url: Option<String> },
}

/// The answer to a `HeroRequest`; `None` where the step failed.
pub enum HeroEvent {
    Cached(Option<Vec<u8>>),
    Image(Option<Vec<u8>>),
    ApiKey(Option<String>),
    GameId(Option<u32>),
    Hits(Option<Vec<GameHit>>),
    HeroUrl(Option<String>),
    Stored,
}

/// Where a fetch stands: the answer it waits for.
#[derive(PartialEq, Eq, Structural, Clone, Copy, Debug)]
pub enum HeroStage {
    Cache,
    Cdn,
    Key,
    Game,
    Search,
    Heroes,
    Download,
    Store,
    Done,
}

/// The fetch of a game's hero image: the cached copy if there is one; for a Steam game
/// the official image on Steam's CDN; otherwise (or when the CDN has none) SteamGridDB,
/// the game found by AppID or by name, its first hero image. A found image is cached.
pub struct HeroFetch {
    pub name: String,
    pub steam_appid: Option<u32>,
    pub stage: HeroStage,
    pub key: String,
    pub api_key: String,
    pub image: Vec<u8>,
}

impl HeroFetch {
    /// The fetch is consistent: its cache key is the game's, and it holds an image only
    /// once one was found.
    pub open spec fn wf(&self) -> bool {
        &&& self.key@ == spec_cache_key(self.name@, self.steam_appid)
        &&& (self.stage == HeroStage::Store ==> self.image@.len() > 0 && self.image@.len() <= usize::MAX
            / 2)
    }

    /// Starts the fetch for a game: first the cache, under the game's cache key.
    pub fn start(name: &str, steam_appid: Option<u32>) -> (r: (HeroFetch, HeroRequest))
        ensures
            r.0.wf(),
            r.0.name@ == name@,
            r.0.steam_appid == steam_appid,
            r.0.stage == HeroStage::Cache,
            r.1 matches HeroRequest::ReadCache { key } && key@ == spec_cache_key(name@, steam_appid),
    {
        let key = cache_key(name, steam_appid);
        let key2 = string_from_chars(chars_of(key.as_str()).as_slice());
        let f = HeroFetch {
            name: string_from_chars(chars_of(name).as_slice()),
            steam_appid,
            stage: HeroStage::Cache,
            key,
            api_key: String::new(),
            image: Vec::new(),
        };
        (f, HeroRequest::ReadCache { key: key2 })
    }

    fn finish(&mut self, data_url: Option<String>) -> (r: HeroRequest)
        requires
            old(self).wf(),
        ensures
            final(self).wf(),
            final(self).stage == HeroStage::Done,
            final(self).name == old(self).name,
            final(self).steam_appid == old(self).steam_appid,
            final(self).api_key == old(self).api_key,
            r matches HeroRequest::Finish { data_url: d } && d == data_url,
    {
        self.stage = HeroStage::Done;
        HeroRequest::Finish { data_url }
    }

    fn found(&mut self, bytes: Vec<u8>) -> (r: HeroRequest)
        requires
            old(self).wf(),
            bytes@.len() > 0,
        ensures
            final(self).wf(),
            final(self).name == old(self).name,
            final(self).steam_appid == old(self).steam_appid,
            final(self).api_key == old(self).api_key,
            bytes@.len() <= usize::MAX / 2 ==> final(self).stage == HeroStage::Store && final(self).image@ == bytes@
                && (r matches HeroRequest::WriteCache { key, bytes: b } && key@ == spec_cache_key(
                old(self).name@,
                old(self).steam_appid,
            ) && b@ == bytes@),
            bytes@.len() > usize::MAX / 2 ==> final(self).stage == HeroStage::Done && (r matches HeroRequest::Finish {
                data_url: None,
            }),
    {
        if bytes.len() > usize::MAX / 2 {
            return self.finish(None);
        }
        let copy = copy_bytes(bytes.as_slice());
        let key = string_from_chars(chars_of(self.key.as_str()).as_slice());
        self.image = bytes;
        self.stage = HeroStage::Store;
        HeroRequest::WriteCache { key, bytes: copy }
    }

    fn ask_key(&mut self) -> (r: HeroRequest)
        requires
            old(self).wf(),
        ensures
            final(self).wf(),
            final(self).stage == HeroStage::Key,
            final(self).name == old(self).name,
            final(self).steam_appid == old(self).steam_appid,
            final(self).api_key == old(self).api_key,
            r is ApiKey,
    {
        self.stage = HeroStage::Key;
        HeroRequest::ApiKey
    }

    fn ask_heroes(&mut self, game_id: u32, key: String) -> (r: HeroRequest)
        requires
            old(self).wf(),
        ensures
            final(self).wf(),
            final(self).stage == HeroStage::Heroes,
            final(self).name == old(self).name,
            final(self).steam_appid == old(self).steam_appid,
            final(self).api_key == old(self).api_key,
            (r matches HeroRequest::SgdbHeroes { url, key: k } && url@ == spec_sgdb_heroes_url(game_id)
                && k@ == key@),
    {
        self.stage = HeroStage::Heroes;
        HeroRequest::SgdbHeroes { url: sgdb_heroes_url(game_id), key }
    }

    /// Hands the fetch the answer to its last request, and returns the next request.
    /// The cached image, when there is one, is the result. A Steam game is then looked
    /// for on Steam's CDN; a missing or empty image there, or a game without AppID,
    /// goes to SteamGridDB, which needs an API key: by AppID for a Steam game, by name
    /// otherwise (the hit chosen by `pick_game`), then the game's first hero image. A
    /// found image is written to the cache and is the result as a `data:` URL. Any
    /// step that fails, and an answer of the wrong kind, ends the fetch with no image.
    pub fn step(&mut self, ev: HeroEvent) -> (r: HeroRequest)
        requires
            old(self).wf(),
        ensures
            final(self).wf(),
            final(self).name == old(self).name,
            final(self).steam_appid == old(self).steam_appid,
            old(self).stage == HeroStage::Done ==> (r matches HeroRequest::Finish { data_url: None }),
            old(self).stage == HeroStage::Cache ==> match ev {
                HeroEvent::Cached(Some(b)) => if b@.len() > 0 && b@.len() <= usize::MAX / 2 {
                    (r matches HeroRequest::Finish { data_url: Some(u) } && u@ == crate::image::data_url(
                        crate::image::spec_mime(b@),
                        b@,
                    ))
                } else {
                    cache_missed(*old(self), *final(self), r)
                },
                HeroEvent::Cached(None) => cache_missed(*old(self), *final(self), r),
                _ => (r matches HeroRequest::Finish { data_url: None }),
            },
            old(self).stage == HeroStage::Cdn ==> match ev {
                HeroEvent::Image(Some(b)) => if b@.len() > 0 {
                    if b@.len() <= usize::MAX / 2 {
                        &&& final(self).stage == HeroStage::Store
                        &&& final(self).image@ == b@
                        &&& (r matches HeroRequest::WriteCache { key, bytes } && key@ == spec_cache_key(
                            old(self).name@,
                            old(self).steam_appid,
                        ) && bytes@ == b@)
                    } else {
                        (r matches HeroRequest::Finish { data_url: None })
                    }
                } else {
                    final(self).stage == HeroStage::Key && r is ApiKey
                },
                HeroEvent::Image(None) => final(self).stage == HeroStage::Key && r is ApiKey,
                _ => (r matches HeroRequest::Finish { data_url: None }),
            },
            old(self).stage == HeroStage::Key ==> match ev {
                HeroEvent::ApiKey(Some(k)) => match old(self).steam_appid {
                    Some(id) => final(self).stage == HeroStage::Game && final(self).api_key@ == k@ && (r matches HeroRequest::SgdbGame {
                        url,
                        key,
                    } && url@ == spec_sgdb_steam_url(id) && key@ == k@),
                    None => final(self).stage == HeroStage::Search && final(self).api_key@ == k@ && (r matches HeroRequest::SgdbSearch {
                        url,
                        key,
                    } && url@ == spec_sgdb_search_url(old(self).name@) && key@ == k@),
                },
                _ => (r matches HeroRequest::Finish { data_url: None }),
            },
            old(self).stage == HeroStage::Game ==> match ev {
                HeroEvent::GameId(Some(g)) => final(self).stage == HeroStage::Heroes && (r matches HeroRequest::SgdbHeroes {
                    url,
                    key,
                } && url@ == spec_sgdb_heroes_url(g) && key@ == old(self).api_key@),
                _ => (r matches HeroRequest::Finish { data_url: None }),
            },
            old(self).stage == HeroStage::Search ==> match ev {
                HeroEvent::Hits(Some(hits)) => match spec_pick_game(hits@, old(self).name@) {
                    Some(g) => final(self).stage == HeroStage::Heroes && (r matches HeroRequest::SgdbHeroes {
                        url,
                        key,
                    } && url@ == spec_sgdb_heroes_url(g) && key@ == old(self).api_key@),
                    None => (r matches HeroRequest::Finish { data_url: None }),
                },
                _ => (r matches HeroRequest::Finish { data_url: None }),
            },
            old(self).stage == HeroStage::Heroes ==> match ev {
                HeroEvent::HeroUrl(Some(u)) => final(self).stage == HeroStage::Download && (r matches HeroRequest::Download {
                    url,
                } && url@ == u@),
                _ => (r matches HeroRequest::Finish { data_url: None }),
            },
            old(self).stage == HeroStage::Download ==> match ev {
                HeroEvent::Image(Some(b)) => if b@.len() > 0 {
                    if b@.len() <= usize::MAX / 2 {
                        &&& final(self).stage == HeroStage::Store
                        &&& final(self).image@ == b@
                        &&& (r matches HeroRequest::WriteCache { key, bytes } && key@ == spec_cache_key(
                            old(self).name@,
                            old(self).steam_appid,
                        ) && bytes@ == b@)
                    } else {
                        (r matches HeroRequest::Finish { data_url: None })
                    }
                } else {
                    (r matches HeroRequest::Finish { data_url: None })
                },
                _ => (r matches HeroRequest::Finish { data_url: None }),
            },
            old(self).stage == HeroStage::Store ==> match ev {
                HeroEvent::Stored => (r matches HeroRequest::Finish { data_url: Some(u) } && u@
                    == crate::image::data_url(crate::image::spec_mime(old(self).image@), old(self).image@)),
                _ => (r matches HeroRequest::Finish { data_url: None }),
            },
            (r is WriteCache) ==> final(self).stage == HeroStage::Store && (r matches HeroRequest::WriteCache {
                key,
                bytes,
            } && key@ == spec_cache_key(old(self).name@, old(self).steam_appid) && bytes@ == final(self).image@),
            (r is Finish) ==> final(self).stage == HeroStage::Done,
    {
        match self.stage {
            HeroStage::Done => HeroRequest::Finish { data_url: None },
            HeroStage::Cache => match ev {
                HeroEvent::Cached(Some(b)) if b.len() > 0 && b.len() <= usize::MAX / 2 => {
                    let u = crate::image::to_data_url(b.as_slice());
                    self.finish(Some(u))
                },
                HeroEvent::Cached(_) => match self.steam_appid {
                    Some(id) => {
                        self.stage = HeroStage::Cdn;
                        HeroRequest::SteamCdn { url: steam_hero_url(id) }
                    },
                    None => self.ask_key(),
                },
                _ => self.finish(None),
            },
            HeroStage::Cdn => match ev {
                HeroEvent::Image(Some(b)) if b.len() > 0 => self.found(b),
                HeroEvent::Image(_) => self.ask_key(),
                _ => self.finish(None),
            },
            HeroStage::Key => match ev {
                HeroEvent::ApiKey(Some(k)) => match self.steam_appid {
                    Some(id) => {
                        self.api_key = string_from_chars(chars_of(k.as_str()).as_slice());
                        self.stage = HeroStage::Game;
                        HeroRequest::SgdbGame { url: sgdb_steam_url(id), key: k }
                    },
                    None => {
                        self.api_key = string_from_chars(chars_of(k.as_str()).as_slice());
                        self.stage = HeroStage::Search;
                        HeroRequest::SgdbSearch { url: sgdb_search_url(self.name.as_str()), key: k }
                    },
                },
                _ => self.finish(None),
            },
            HeroStage::Game => match ev {
                HeroEvent::GameId(Some(g)) => {
                    let k = string_from_chars(chars_of(self.api_key.as_str()).as_slice());
                    self.ask_heroes(g, k)
                },
                _ => self.finish(None),
            },
            HeroStage::Search => match ev {
                HeroEvent::Hits(Some(hits)) => match pick_game(hits.as_slice(), self.name.as_str()) {
                    Some(g) => {
                        let k = string_from_chars(chars_of(self.api_key.as_str()).as_slice());
                        self.ask_heroes(g, k)
                    },
                    None => self.finish(None),
                },
                _ => self.finish(None),
            },
            HeroStage::Heroes => match ev {
                HeroEvent::HeroUrl(Some(u)) => {
                    self.stage = HeroStage::Download;
                    HeroRequest::Download { url: u }
                },
                _ => self.finish(None),
            },
            HeroStage::Download => match ev {
                HeroEvent::Image(Some(b)) if b.len() > 0 => self.found(b),
                _ => self.finish(None),
            },
            HeroStage::Store => match ev {
                HeroEvent::Stored => {
                    let u = crate::image::to_data_url(self.image.as_slice());
                    self.finish(Some(u))
                },
                _ => self.finish(None),
            },
        }
    }
}

/// No usable cached image: a Steam game goes to Steam's CDN, any other to the API key.
pub open spec fn cache_missed(before: HeroFetch, after: HeroFetch, r: HeroRequest) -> bool {
    match before.steam_appid {
        Some(id) => after.stage == HeroStage::Cdn && (r matches HeroRequest::SteamCdn { url } && url@
            == spec_steam_hero_url(id)),
        None => after.stage == HeroStage::Key && r is ApiKey,
    }
}

fn copy_bytes(b: &[u8]) -> (r: Vec<u8>)
    ensures
        r@ == b@,
{
    let mut out: Vec<u8> = Vec::new();
    let mut i: usize = 0;
    while i < b.len()
        invariant
            i <= b@.len(),
            out@ == b@.subrange(0, i as int),
        decreases b@.len() - i,
    {
        out.push(b[i]);
        assert(b@.subrange(0, (i + 1) as int) =~= b@.subrange(0, i as int).push(b@[i as int]));
        i = i + 1;
    }
    assert(b@.subrange(0, b@.len() as int) =~= b@);
    out
}

} // verus!
