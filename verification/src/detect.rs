//! Game detection: which game the foreground process is, from Discord's list of
//! detectable games, Steam library manifests, and Minecraft's launchers.
use vstd::prelude::*;
use crate::text::{
    before_first, before_first_chars, chars_eq_ignore_ascii_case, contains, eq_ignore_ascii_case,
    find, find_chars, find_char, lemma_find_from, parse_u32, parse_u32_spec, remove_chars,
    starts_with, starts_with_chars, str_contains, sub_chars, without_chars, append_chars,
    after_last_sep, after_last_sep_chars, chars_eq, chars_of, ends_with, ends_with_chars,
    lowercase, string_from_chars, trim, trim_chars, trim_start_char, trim_start_char_chars,
    unicode_lowercase, occurs_at, is_ascii_char, is_ascii_letter, is_path_sep,
    lemma_after_last_sep_has_none, lemma_trim_shape,
};

verus! {

// ---------------------------------------------------------------------------
// Detected games
// ---------------------------------------------------------------------------

/// A detected game: its display name and, when known, its Steam AppID (which picks
/// the exact official artwork, telling apart remasters and sequels of one name).
pub struct DetectedGame {
    pub name: String,
    pub steam_appid: Option<u32>,
}

impl View for DetectedGame {
    type V = (Seq<char>, Option<u32>);

    open spec fn view(&self) -> (Seq<char>, Option<u32>) {
        (self.name@, self.steam_appid)
    }
}

impl DetectedGame {
    /// A copy of the game.
    pub fn duplicate(&self) -> (g: DetectedGame)
        ensures
            g@ == self@,
    {
        DetectedGame { name: self.name.clone(), steam_appid: self.steam_appid }
    }
}

// ---------------------------------------------------------------------------
// Executable names
// ---------------------------------------------------------------------------

/// The comparable name of an executable: leading `>` markers removed, the part after
/// the last `/` or `\`, white space trimmed, lower-cased.
pub open spec fn spec_basename(name: Seq<char>) -> Seq<char> {
    unicode_lowercase(trim(after_last_sep(trim_start_char(name, '>'))))
}

/// The comparable name of an executable (see `spec_basename`); it holds no `/` or `\`.
pub fn basename(name: &str) -> (r: String)
    ensures
        r@ == spec_basename(name@),
        forall|i: int| 0 <= i < r@.len() ==> !is_path_sep(#[trigger] r@[i]),
{
    let v = chars_of(name);
    let stripped = trim_start_char_chars(v.as_slice(), '>');
    let last = after_last_sep_chars(stripped.as_slice());
    let trimmed = trim_chars(last.as_slice());
    let s = string_from_chars(trimmed.as_slice());
    let r = lowercase(s.as_str());
    proof {
        lemma_after_last_sep_has_none(stripped@);
        lemma_trim_shape(last@);
        let (lo, hi) = choose|lo: int, hi: int|
            0 <= lo <= hi <= last@.len() && trim(last@) == last@.subrange(lo, hi);
        assert forall|i: int| 0 <= i < r@.len() implies !is_path_sep(#[trigger] r@[i]) by {
            if is_path_sep(r@[i]) {
                assert(is_ascii_char(r@[i]) && !is_ascii_letter(r@[i]));
                let j = choose|j: int| 0 <= j < s@.len() && s@[j] == r@[i];
                assert(s@[j] == last@[lo + j]);
            }
        }
    }
    r
}

/// Runtimes shared by many games, whose executable name identifies nothing.
pub open spec fn is_generic_runtime(b: Seq<char>) -> bool {
    ||| b == "javaw.exe"@
    ||| b == "java.exe"@
    ||| b == "python.exe"@
    ||| b == "pythonw.exe"@
}

/// Whether an executable name is one of the shared runtimes.
pub fn generic_runtime(b: &str) -> (r: bool)
    ensures
        r == is_generic_runtime(b@),
{
    let v = chars_of(b);
    chars_eq(v.as_slice(), chars_of("javaw.exe").as_slice()) || chars_eq(
        v.as_slice(),
        chars_of("java.exe").as_slice(),
    ) || chars_eq(v.as_slice(), chars_of("python.exe").as_slice()) || chars_eq(
        v.as_slice(),
        chars_of("pythonw.exe").as_slice(),
    )
}

// ---------------------------------------------------------------------------
// Discord's list of detectable games
// ---------------------------------------------------------------------------

/// One executable of a detectable game.
pub struct Executable {
    pub name: String,
    pub os: String,
    pub is_launcher: bool,
    pub arguments: Option<String>,
}

/// A game of Discord's detectable list, with its executables.
pub struct Detectable {
    pub name: String,
    pub executables: Vec<Executable>,
}

/// An executable that identifies its game: not a launcher, run without arguments, for
/// Windows (or any system), whose name ends in `.exe` and is not a shared runtime.
pub open spec fn eligible(e: Executable) -> bool {
    &&& !e.is_launcher
    &&& e.arguments is None
    &&& (e.os@.len() == 0 || e.os@ == "win32"@)
    &&& ends_with(spec_basename(e.name@), ".exe"@)
    &&& !is_generic_runtime(spec_basename(e.name@))
}

/// (executable name, game name) for each eligible executable of a game, in order.
pub open spec fn exe_pairs(game: Seq<char>, exes: Seq<Executable>) -> Seq<(Seq<char>, Seq<char>)>
    decreases exes.len(),
{
    if exes.len() == 0 {
        seq![]
    } else if eligible(exes.last()) {
        exe_pairs(game, exes.drop_last()).push((spec_basename(exes.last().name@), game))
    } else {
        exe_pairs(game, exes.drop_last())
    }
}

/// (executable name, game name) for each eligible executable of the list, in order.
pub open spec fn all_pairs(list: Seq<Detectable>) -> Seq<(Seq<char>, Seq<char>)>
    decreases list.len(),
{
    if list.len() == 0 {
        seq![]
    } else {
        all_pairs(list.drop_last()) + exe_pairs(list.last().name@, list.last().executables@)
    }
}

/// Who owns executable name `b` after reading `pairs`: None if it never appeared,
/// Some(Some(g)) if every occurrence so far belongs to game `g`, Some(None) once two
/// games share it.
pub open spec fn owner_after(pairs: Seq<(Seq<char>, Seq<char>)>, b: Seq<char>) -> Option<
    Option<Seq<char>>,
>
    decreases pairs.len(),
{
    if pairs.len() == 0 {
        None
    } else {
        let prev = owner_after(pairs.drop_last(), b);
        let (pb, pg) = pairs.last();
        if pb != b {
            prev
        } else {
            match prev {
                None => Some(Some(pg)),
                Some(Some(g)) => if g == pg {
                    Some(Some(g))
                } else {
                    Some(None)
                },
                Some(None) => Some(None),
            }
        }
    }
}

/// The map from executable name to game that detection uses for a list: an eligible
/// executable name maps to a game when that game is the only one it belongs to.
pub open spec fn detect_map(list: Seq<Detectable>) -> Map<Seq<char>, Seq<char>> {
    Map::new(
        |b: Seq<char>| owner_after(all_pairs(list), b) matches Some(Some(_)),
        |b: Seq<char>|
            match owner_after(all_pairs(list), b) {
                Some(Some(g)) => g,
                _ => seq![],
            },
    )
}

/// A name identifies a game exactly when it occurs in the list, and every occurrence
/// belongs to that game: shared names (`game.exe`, engine helpers, anti-cheats) are
/// dropped, whatever the order of the list.
pub proof fn law_owner_is_unique_game(pairs: Seq<(Seq<char>, Seq<char>)>, b: Seq<char>, g: Seq<char>)
    ensures
        owner_after(pairs, b) == Some(Some(g)) <==> ((exists|i: int|
            0 <= i < pairs.len() && (#[trigger] pairs[i]).0 == b) && (forall|i: int|
            0 <= i < pairs.len() && (#[trigger] pairs[i]).0 == b ==> pairs[i].1 == g)),
        owner_after(pairs, b) is None <==> (forall|i: int|
            0 <= i < pairs.len() ==> (#[trigger] pairs[i]).0 != b),
    decreases pairs.len(),
{
    if pairs.len() > 0 {
        let init = pairs.drop_last();
        let n = pairs.len() - 1;
        let last = pairs.last();
        assert(last == pairs[n]);
        assert forall|i: int| 0 <= i < init.len() implies #[trigger] init[i] == pairs[i] by {}
        law_owner_is_unique_game(init, b, g);
        let prev = owner_after(init, b);
        assert(owner_after(pairs, b) == if last.0 != b {
            prev
        } else {
            match prev {
                None => Some(Some(last.1)),
                Some(Some(g0)) => if g0 == last.1 {
                    Some(Some(g0))
                } else {
                    Some(None)
                },
                Some(None) => Some(None),
            }
        });
        if last.0 != b {
            if exists|i: int| 0 <= i < pairs.len() && (#[trigger] pairs[i]).0 == b {
                let i = choose|i: int| 0 <= i < pairs.len() && (#[trigger] pairs[i]).0 == b;
                assert(i < n);
                assert(init[i].0 == b);
            }
            if exists|i: int| 0 <= i < init.len() && (#[trigger] init[i]).0 == b {
                let i = choose|i: int| 0 <= i < init.len() && (#[trigger] init[i]).0 == b;
                assert(pairs[i].0 == b);
            }
            if (forall|i: int| 0 <= i < init.len() && (#[trigger] init[i]).0 == b ==> init[i].1 == g) {
                assert forall|i: int| 0 <= i < pairs.len() && (#[trigger] pairs[i]).0 == b implies pairs[i].1
                    == g by {
                    assert(i < n);
                    assert(init[i].0 == b);
                }
            }
            if (forall|i: int| 0 <= i < pairs.len() && (#[trigger] pairs[i]).0 == b ==> pairs[i].1 == g) {
                assert forall|i: int| 0 <= i < init.len() && (#[trigger] init[i]).0 == b implies init[i].1
                    == g by {
                    assert(pairs[i].0 == b);
                }
            }
            if (forall|i: int| 0 <= i < init.len() ==> (#[trigger] init[i]).0 != b) {
                assert forall|i: int| 0 <= i < pairs.len() implies (#[trigger] pairs[i]).0 != b by {
                    if i < n {
                        assert(init[i].0 != b);
                    }
                }
            }
        } else {
            assert(pairs[n].0 == b);
            match prev {
                None => {
                    if last.1 == g {
                        assert forall|i: int| 0 <= i < pairs.len() && (#[trigger] pairs[i]).0 == b implies pairs[i].1
                            == g by {
                            if i < n {
                                assert(init[i].0 != b);
                            }
                        }
                    } else {
                        assert(pairs[n].1 != g);
                    }
                },
                Some(Some(g0)) => {
                    law_owner_is_unique_game(init, b, g0);
                    let i0 = choose|i: int| 0 <= i < init.len() && (#[trigger] init[i]).0 == b;
                    assert(init[i0].1 == g0);
                    assert(pairs[i0].0 == b && pairs[i0].1 == g0);
                    if g0 == last.1 {
                        if g == g0 {
                            assert forall|i: int| 0 <= i < pairs.len() && (#[trigger] pairs[i]).0 == b implies pairs[i].1
                                == g by {
                                if i < n {
                                    assert(init[i].0 == b);
                                }
                            }
                        }
                    }
                },
                Some(None) => {
                    let i0 = choose|i: int| 0 <= i < init.len() && (#[trigger] init[i]).0 == b;
                    if (forall|i: int| 0 <= i < pairs.len() && (#[trigger] pairs[i]).0 == b ==> pairs[i].1 == g) {
                        assert forall|i: int| 0 <= i < init.len() && (#[trigger] init[i]).0 == b implies init[i].1
                            == g by {
                            assert(pairs[i].0 == b);
                        }
                        assert(init[i0].0 == b);
                        assert(false);
                    }
                },
            }
        }
    }
}

/// The pairs of a list made of two lists are those of the first, then the second's.
pub proof fn lemma_all_pairs_concat(a: Seq<Detectable>, b: Seq<Detectable>)
    ensures
        all_pairs(a + b) == all_pairs(a) + all_pairs(b),
    decreases b.len(),
{
    if b.len() == 0 {
        assert(a + b =~= a);
        assert(all_pairs(a) + all_pairs(b) =~= all_pairs(a));
    } else {
        assert((a + b).drop_last() =~= a + b.drop_last());
        assert((a + b).last() == b.last());
        lemma_all_pairs_concat(a, b.drop_last());
        let e = exe_pairs(b.last().name@, b.last().executables@);
        assert(all_pairs(a) + all_pairs(b.drop_last()) + e =~= all_pairs(a) + (all_pairs(b.drop_last()) + e));
    }
}

/// A game's pairs are those of its eligible executables.
proof fn lemma_exe_pairs_contains(g: Seq<char>, exes: Seq<Executable>, x: (Seq<char>, Seq<char>))
    ensures
        exe_pairs(g, exes).contains(x) <==> exists|j: int|
            0 <= j < exes.len() && eligible(#[trigger] exes[j]) && x == (spec_basename(exes[j].name@), g),
    decreases exes.len(),
{
    if exes.len() > 0 {
        let init = exes.drop_last();
        lemma_exe_pairs_contains(g, init, x);
        let p = exe_pairs(g, init);
        if exe_pairs(g, exes).contains(x) {
            let k = choose|k: int| 0 <= k < exe_pairs(g, exes).len() && exe_pairs(g, exes)[k] == x;
            if k < p.len() {
                if eligible(exes.last()) {
                    assert(exe_pairs(g, exes)[k] == p[k]);
                }
                assert(p.contains(x));
                let j = choose|j: int|
                    0 <= j < init.len() && eligible(#[trigger] init[j]) && x == (spec_basename(init[j].name@), g);
                assert(exes[j] == init[j]);
            } else {
                assert(exes[exes.len() - 1] == exes.last());
            }
        }
        if exists|j: int|
            0 <= j < exes.len() && eligible(#[trigger] exes[j]) && x == (spec_basename(exes[j].name@), g) {
            let j = choose|j: int|
                0 <= j < exes.len() && eligible(#[trigger] exes[j]) && x == (spec_basename(exes[j].name@), g);
            if j < init.len() {
                assert(init[j] == exes[j]);
                let k = choose|k: int| 0 <= k < p.len() && p[k] == x;
                if eligible(exes.last()) {
                    assert(exe_pairs(g, exes)[k] == x);
                }
            } else {
                assert(exe_pairs(g, exes)[p.len() as int] == x);
            }
        }
    }
}

/// A list's pairs are those of its games.
proof fn lemma_all_pairs_contains(l: Seq<Detectable>, x: (Seq<char>, Seq<char>))
    ensures
        all_pairs(l).contains(x) <==> exists|i: int|
            0 <= i < l.len() && exe_pairs((#[trigger] l[i]).name@, l[i].executables@).contains(x),
    decreases l.len(),
{
    if l.len() > 0 {
        let init = l.drop_last();
        lemma_all_pairs_contains(init, x);
        let a = all_pairs(init);
        let e = exe_pairs(l.last().name@, l.last().executables@);
        assert(all_pairs(l) == a + e);
        if all_pairs(l).contains(x) {
            let k = choose|k: int| 0 <= k < (a + e).len() && (a + e)[k] == x;
            if k < a.len() {
                assert(a[k] == x);
                let i = choose|i: int|
                    0 <= i < init.len() && exe_pairs((#[trigger] init[i]).name@, init[i].executables@).contains(x);
                assert(l[i] == init[i]);
            } else {
                assert(e[k - a.len()] == x);
                assert(l[l.len() - 1] == l.last());
            }
        }
        if exists|i: int| 0 <= i < l.len() && exe_pairs((#[trigger] l[i]).name@, l[i].executables@).contains(x) {
            let i = choose|i: int| 0 <= i < l.len() && exe_pairs((#[trigger] l[i]).name@, l[i].executables@).contains(x);
            if i < init.len() {
                assert(init[i] == l[i]);
                let k = choose|k: int| 0 <= k < a.len() && a[k] == x;
                assert((a + e)[k] == x);
            } else {
                let k = choose|k: int| 0 <= k < e.len() && e[k] == x;
                assert((a + e)[a.len() + k] == x);
            }
        }
    }
}

/// The map detection uses depends only on which (name, game) pairs the list has, not
/// on their order or how often they occur.
pub proof fn law_detect_map_depends_only_on_pairs(l1: Seq<Detectable>, l2: Seq<Detectable>)
    requires
        forall|x: (Seq<char>, Seq<char>)| all_pairs(l1).contains(x) <==> all_pairs(l2).contains(x),
    ensures
        detect_map(l1) == detect_map(l2),
{
    let p1 = all_pairs(l1);
    let p2 = all_pairs(l2);
    assert forall|b: Seq<char>, g: Seq<char>| owner_after(p1, b) == Some(Some(g)) implies owner_after(p2, b)
        == Some(Some(g)) by {
        law_owner_is_unique_game(p1, b, g);
        law_owner_is_unique_game(p2, b, g);
        let i = choose|i: int| 0 <= i < p1.len() && (#[trigger] p1[i]).0 == b;
        assert(p1.contains(p1[i]));
        let j = choose|j: int| 0 <= j < p2.len() && p2[j] == p1[i];
        assert(p2[j].0 == b);
        assert forall|k: int| 0 <= k < p2.len() && (#[trigger] p2[k]).0 == b implies p2[k].1 == g by {
            assert(p2.contains(p2[k]));
            let m = choose|m: int| 0 <= m < p1.len() && p1[m] == p2[k];
            assert(p1[m].0 == b);
        }
    }
    assert forall|b: Seq<char>, g: Seq<char>| owner_after(p2, b) == Some(Some(g)) implies owner_after(p1, b)
        == Some(Some(g)) by {
        law_owner_is_unique_game(p1, b, g);
        law_owner_is_unique_game(p2, b, g);
        let i = choose|i: int| 0 <= i < p2.len() && (#[trigger] p2[i]).0 == b;
        assert(p2.contains(p2[i]));
        let j = choose|j: int| 0 <= j < p1.len() && p1[j] == p2[i];
        assert(p1[j].0 == b);
        assert forall|k: int| 0 <= k < p1.len() && (#[trigger] p1[k]).0 == b implies p1[k].1 == g by {
            assert(p1.contains(p1[k]));
            let m = choose|m: int| 0 <= m < p2.len() && p2[m] == p1[k];
            assert(p2[m].0 == b);
        }
    }
    assert forall|b: Seq<char>| #[trigger] detect_map(l1).contains_key(b) <==> detect_map(l2).contains_key(b) by {
        if let Some(Some(g)) = owner_after(p1, b) {
            assert(owner_after(p2, b) == Some(Some(g)));
        }
        if let Some(Some(g)) = owner_after(p2, b) {
            assert(owner_after(p1, b) == Some(Some(g)));
        }
    }
    assert forall|b: Seq<char>| #[trigger] detect_map(l1).contains_key(b) implies detect_map(l1)[b]
        == detect_map(l2)[b] by {
        if let Some(Some(g)) = owner_after(p1, b) {
            assert(owner_after(p2, b) == Some(Some(g)));
        }
    }
    assert(detect_map(l1) =~= detect_map(l2));
}

/// Every game of `l1` is in `l2` under the same name with the same executables, in
/// any order.
pub open spec fn games_within(l1: Seq<Detectable>, l2: Seq<Detectable>) -> bool {
    forall|i: int| 0 <= i < l1.len() ==> exists|k: int| {
        &&& 0 <= k < l2.len()
        &&& (#[trigger] l2[k]).name@ == (#[trigger] l1[i]).name@
        &&& forall|j: int|
            0 <= j < l1[i].executables@.len() ==> #[trigger] l2[k].executables@.contains(
                l1[i].executables@[j],
            )
    }
}

/// Pairs of a list whose games are all found in another are pairs of that one.
proof fn lemma_pairs_within(l1: Seq<Detectable>, l2: Seq<Detectable>, x: (Seq<char>, Seq<char>))
    requires
        games_within(l1, l2),
        all_pairs(l1).contains(x),
    ensures
        all_pairs(l2).contains(x),
{
    lemma_all_pairs_contains(l1, x);
    let i = choose|i: int| 0 <= i < l1.len() && exe_pairs((#[trigger] l1[i]).name@, l1[i].executables@).contains(x);
    let g = l1[i].name@;
    lemma_exe_pairs_contains(g, l1[i].executables@, x);
    let e1 = l1[i].executables@;
    let j = choose|j: int| 0 <= j < e1.len() && eligible(#[trigger] e1[j]) && x == (spec_basename(e1[j].name@), g);
    let k = choose|k: int| {
        &&& 0 <= k < l2.len()
        &&& (#[trigger] l2[k]).name@ == l1[i].name@
        &&& forall|j: int|
            0 <= j < l1[i].executables@.len() ==> #[trigger] l2[k].executables@.contains(
                l1[i].executables@[j],
            )
    };
    let e2 = l2[k].executables@;
    assert(e2.contains(e1[j]));
    let m = choose|m: int| 0 <= m < e2.len() && e2[m] == e1[j];
    lemma_exe_pairs_contains(g, e2, x);
    assert(eligible(e2[m]) && x == (spec_basename(e2[m].name@), g));
    assert(exe_pairs(l2[k].name@, l2[k].executables@).contains(x));
    lemma_all_pairs_contains(l2, x);
}

/// Reordering the list's games, or any game's executables, changes nothing: two lists
/// with the same games under the same names and with the same executables, in any
/// order, give the same map.
pub proof fn law_detect_map_ignores_order(l1: Seq<Detectable>, l2: Seq<Detectable>)
    requires
        games_within(l1, l2),
        games_within(l2, l1),
    ensures
        detect_map(l1) == detect_map(l2),
{
    assert forall|x: (Seq<char>, Seq<char>)| all_pairs(l1).contains(x) <==> all_pairs(l2).contains(x) by {
        if all_pairs(l1).contains(x) {
            lemma_pairs_within(l1, l2, x);
        }
        if all_pairs(l2).contains(x) {
            lemma_pairs_within(l2, l1, x);
        }
    }
    law_detect_map_depends_only_on_pairs(l1, l2);
}

/// Adding games to the list can add executable names to the map, or drop names the new
/// games share, but never gives a name another game.
pub proof fn law_adding_games_never_reassigns(list: Seq<Detectable>, xs: Seq<Detectable>, b: Seq<char>)
    requires
        detect_map(list).contains_key(b),
        detect_map(list + xs).contains_key(b),
    ensures
        detect_map(list)[b] == detect_map(list + xs)[b],
{
    lemma_all_pairs_concat(list, xs);
    let p1 = all_pairs(list);
    let p = all_pairs(list + xs);
    let g1 = detect_map(list)[b];
    let g2 = detect_map(list + xs)[b];
    law_owner_is_unique_game(p1, b, g1);
    law_owner_is_unique_game(p, b, g2);
    let i = choose|i: int| 0 <= i < p1.len() && (#[trigger] p1[i]).0 == b;
    assert(p[i] == p1[i]);
}

/// The games' executable names, each mapped to the one game it identifies.
pub struct GameMap {
    entries: Vec<(Vec<char>, String)>,
}

impl GameMap {
    /// Each executable name appears once.
    #[verifier::type_invariant]
    spec fn unique_names(self) -> bool {
        forall|i: int, j: int|
            0 <= i < j < self.entries@.len() ==> (#[trigger] self.entries@[i]).0@
                != (#[trigger] self.entries@[j]).0@
    }

    /// Index of the entry for `b`, if any.
    fn position(&self, b: &[char]) -> (r: Option<usize>)
        ensures
            r matches Some(i) ==> i < self.entries@.len() && self.entries@[i as int].0@ == b@,
            r is None ==> forall|i: int|
                0 <= i < self.entries@.len() ==> (#[trigger] self.entries@[i]).0@ != b@,
    {
        let mut i: usize = 0;
        while i < self.entries.len()
            invariant
                i <= self.entries@.len(),
                forall|j: int| 0 <= j < i ==> (#[trigger] self.entries@[j]).0@ != b@,
            decreases self.entries@.len() - i,
        {
            if chars_eq(self.entries[i].0.as_slice(), b) {
                return Some(i);
            }
            i = i + 1;
        }
        None
    }

    /// The game `base` identifies, if any.
    pub fn get(&self, base: &str) -> (r: Option<String>)
        ensures
            self@.contains_key(base@) ==> (r matches Some(g) && g@ == self@[base@]),
            !self@.contains_key(base@) ==> r is None,
    {
        proof {
            use_type_invariant(self);
        }
        let b = chars_of(base);
        match self.position(b.as_slice()) {
            Some(i) => {
                proof {
                    assert(self.entries@[i as int].0@ == base@);
                    let k = choose|k: int|
                        0 <= k < self.entries@.len() && (#[trigger] self.entries@[k]).0@ == base@;
                    if k != i {
                        if k < i {
                            assert(self.entries@[k].0@ != self.entries@[i as int].0@);
                        } else {
                            assert(self.entries@[i as int].0@ != self.entries@[k].0@);
                        }
                    }
                }
                Some(self.entries[i].1.clone())
            },
            None => None,
        }
    }

    /// Number of executable names in the map.
    pub fn len(&self) -> (r: usize)
        ensures
            r == self@.dom().len(),
    {
        proof {
            use_type_invariant(self);
            self.lemma_dom_len();
        }
        self.entries.len()
    }

    proof fn lemma_dom_len(&self)
        requires
            forall|i: int, j: int|
                0 <= i < j < self.entries@.len() ==> (#[trigger] self.entries@[i]).0@
                    != (#[trigger] self.entries@[j]).0@,
        ensures
            self@.dom().len() == self.entries@.len(),
    {
        let keys = self.entries@.map_values(|e: (Vec<char>, String)| e.0@);
        assert forall|i: int, j: int| 0 <= i < j < keys.len() implies keys[i] != keys[j] by {
            assert(keys[i] == self.entries@[i].0@);
            assert(keys[j] == self.entries@[j].0@);
        }
        keys.unique_seq_to_set();
        assert(self@.dom() =~= keys.to_set()) by {
            assert forall|b: Seq<char>| self@.dom().contains(b) implies keys.to_set().contains(b) by {
                let k = choose|k: int| 0 <= k < self.entries@.len() && (#[trigger] self.entries@[k]).0@ == b;
                assert(keys[k] == b);
            }
            assert forall|b: Seq<char>| keys.to_set().contains(b) implies self@.dom().contains(b) by {
                let k = choose|k: int| 0 <= k < keys.len() && keys[k] == b;
                assert(self.entries@[k].0@ == b);
            }
        }
    }
}

impl View for GameMap {
    type V = Map<Seq<char>, Seq<char>>;

    closed spec fn view(&self) -> Map<Seq<char>, Seq<char>> {
        Map::new(
            |b: Seq<char>|
                exists|i: int| 0 <= i < self.entries@.len() && (#[trigger] self.entries@[i]).0@ == b,
            |b: Seq<char>|
                self.entries@[choose|i: int|
                    0 <= i < self.entries@.len() && (#[trigger] self.entries@[i]).0@ == b].1@,
        )
    }
}

/// Owners of executable names while the list is read.
type Owners = Vec<(Vec<char>, Option<Vec<char>>)>;

/// The view of an owner slot.
pub open spec fn slot_view(v: Option<Vec<char>>) -> Option<Seq<char>> {
    match v {
        Some(g) => Some(g@),
        None => None,
    }
}

/// `o` records exactly the owners after reading `pairs`.
spec fn owners_match(o: Seq<(Vec<char>, Option<Vec<char>>)>, pairs: Seq<(Seq<char>, Seq<char>)>) -> bool {
    &&& forall|i: int, j: int| 0 <= i < j < o.len() ==> (#[trigger] o[i]).0@ != (#[trigger] o[j]).0@
    &&& forall|i: int| 0 <= i < o.len() ==> owner_after(pairs, (#[trigger] o[i]).0@) == Some(slot_view(o[i].1))
    &&& forall|b: Seq<char>| (#[trigger] owner_after(pairs, b)) is Some ==> exists|i: int|
        0 <= i < o.len() && (#[trigger] o[i]).0@ == b
}

/// Index of the owner slot of `b`, if any.
fn find_owner(o: &Owners, b: &[char]) -> (r: Option<usize>)
    ensures
        r matches Some(i) ==> i < o@.len() && o@[i as int].0@ == b@,
        r is None ==> forall|i: int| 0 <= i < o@.len() ==> (#[trigger] o@[i]).0@ != b@,
{
    let mut i: usize = 0;
    while i < o.len()
        invariant
            i <= o@.len(),
            forall|j: int| 0 <= j < i ==> (#[trigger] o@[j]).0@ != b@,
        decreases o@.len() - i,
    {
        if chars_eq(o[i].0.as_slice(), b) {
            return Some(i);
        }
        i = i + 1;
    }
    None
}

/// Reads one more (name, game) pair into the owners.
fn record_owner(o: &mut Owners, b: Vec<char>, game: &Vec<char>, Ghost(pairs): Ghost<Seq<(Seq<char>, Seq<char>)>>)
    requires
        owners_match(old(o)@, pairs),
    ensures
        owners_match(final(o)@, pairs.push((b@, game@))),
{
    let ghost np = pairs.push((b@, game@));
    proof {
        assert(np.drop_last() =~= pairs);
    }
    match find_owner(o, b.as_slice()) {
        None => {
            proof {
                if owner_after(pairs, b@) is Some {
                    let i = choose|i: int| 0 <= i < old(o)@.len() && (#[trigger] old(o)@[i]).0@ == b@;
                }
            }
            let ghost before = o@;
            o.push((b, Some(game.clone())));
            proof {
                assert forall|i: int| 0 <= i < o@.len() implies owner_after(np, (#[trigger] o@[i]).0@)
                    == Some(slot_view(o@[i].1)) by {
                    if i < before.len() {
                        assert(o@[i] == before[i]);
                    }
                }
                assert forall|b2: Seq<char>| (#[trigger] owner_after(np, b2)) is Some implies exists|i: int|
                    0 <= i < o@.len() && (#[trigger] o@[i]).0@ == b2 by {
                    if b2 == b@ {
                        assert(o@[before.len() as int].0@ == b2);
                    } else {
                        assert(owner_after(np, b2) == owner_after(pairs, b2));
                        assert(before == old(o)@);
                        let i = choose|i: int| 0 <= i < before.len() && (#[trigger] before[i]).0@ == b2;
                        assert(o@[i] == before[i]);
                    }
                }
                assert forall|x: int, y: int| 0 <= x < y < o@.len() implies (#[trigger] o@[x]).0@
                    != (#[trigger] o@[y]).0@ by {
                    if y == before.len() {
                        assert(o@[x] == before[x]);
                    } else {
                        assert(o@[x] == before[x]);
                        assert(o@[y] == before[y]);
                    }
                }
            }
        },
        Some(i) => {
            let same = match &o[i].1 {
                Some(g0) => chars_eq(g0.as_slice(), game.as_slice()),
                None => false,
            };
            if !same {
                let ghost before = o@;
                let key = o[i].0.clone();
                o.set(i, (key, None));
                proof {
                    assert forall|j: int| 0 <= j < o@.len() implies owner_after(np, (#[trigger] o@[j]).0@)
                        == Some(slot_view(o@[j].1)) by {
                        if j != i {
                            assert(o@[j] == before[j]);
                            if j < i {
                                assert(before[j].0@ != before[i as int].0@);
                            } else {
                                assert(before[i as int].0@ != before[j].0@);
                            }
                        }
                    }
                    assert forall|b2: Seq<char>| (#[trigger] owner_after(np, b2)) is Some implies exists|j: int|
                        0 <= j < o@.len() && (#[trigger] o@[j]).0@ == b2 by {
                        if b2 == b@ {
                            assert(o@[i as int].0@ == b2);
                        } else {
                            assert(owner_after(np, b2) == owner_after(pairs, b2));
                            assert(before == old(o)@);
                            let j = choose|j: int| 0 <= j < before.len() && (#[trigger] before[j]).0@ == b2;
                            if j == i {
                                assert(before[j].0@ == b@);
                            } else {
                                assert(o@[j] == before[j]);
                            }
                        }
                    }
                    assert forall|x: int, y: int| 0 <= x < y < o@.len() implies (#[trigger] o@[x]).0@
                        != (#[trigger] o@[y]).0@ by {
                        assert(o@[x].0@ == before[x].0@);
                        assert(o@[y].0@ == before[y].0@);
                    }
                }
            } else {
                proof {
                    assert forall|j: int| 0 <= j < o@.len() implies owner_after(np, (#[trigger] o@[j]).0@)
                        == Some(slot_view(o@[j].1)) by {
                        if j != i {
                            if j < i {
                                assert(o@[j].0@ != o@[i as int].0@);
                            } else {
                                assert(o@[i as int].0@ != o@[j].0@);
                            }
                        }
                    }
                    assert forall|b2: Seq<char>| (#[trigger] owner_after(np, b2)) is Some implies exists|j: int|
                        0 <= j < o@.len() && (#[trigger] o@[j]).0@ == b2 by {
                        if b2 == b@ {
                            assert(o@[i as int].0@ == b2);
                        } else {
                            assert(owner_after(np, b2) == owner_after(pairs, b2));
                        }
                    }
                }
            }
        },
    }
}

/// The map from executable name to game (see `detect_map`): an executable name of
/// the list identifies a game only if it belongs to that game alone; names shared by
/// several games, launchers, executables run with arguments, non-Windows ones, names
/// not ending in `.exe` and shared runtimes are left out.
pub fn build_map(list: Vec<Detectable>) -> (m: GameMap)
    ensures
        m@ == detect_map(list@),
{
    let mut owners: Owners = Vec::new();
    let ghost mut pairs: Seq<(Seq<char>, Seq<char>)> = seq![];
    let mut gi: usize = 0;
    while gi < list.len()
        invariant
            gi <= list@.len(),
            pairs == all_pairs(list@.subrange(0, gi as int)),
            owners_match(owners@, pairs),
        decreases list@.len() - gi,
    {
        let game = &list[gi];
        let gname = chars_of(game.name.as_str());
        let ghost start = pairs;
        let mut ei: usize = 0;
        while ei < game.executables.len()
            invariant
                game == list@[gi as int],
                gname@ == game.name@,
                ei <= game.executables@.len(),
                pairs == start + exe_pairs(game.name@, game.executables@.subrange(0, ei as int)),
                owners_match(owners@, pairs),
            decreases game.executables@.len() - ei,
        {
            let exe = &game.executables[ei];
            let ghost sub = game.executables@.subrange(0, ei + 1);
            proof {
                assert(sub.drop_last() =~= game.executables@.subrange(0, ei as int));
                assert(sub.last() == *exe);
            }
            let os = chars_of(exe.os.as_str());
            let os_ok = os.len() == 0 || chars_eq(os.as_slice(), chars_of("win32").as_slice());
            if !exe.is_launcher && exe.arguments.is_none() && os_ok {
                let base = basename(exe.name.as_str());
                let bv = chars_of(base.as_str());
                let exe_suffix = chars_of(".exe");
                if ends_with_chars(bv.as_slice(), exe_suffix.as_slice()) && !generic_runtime(base.as_str()) {
                    record_owner(&mut owners, bv, &gname, Ghost(pairs));
                    proof {
                        pairs = pairs.push((spec_basename(exe.name@), game.name@));
                    }
                }
            }
            proof {
                assert(start + exe_pairs(game.name@, sub) =~= pairs);
            }
            ei = ei + 1;
        }
        proof {
            let sub = list@.subrange(0, gi + 1);
            assert(sub.drop_last() =~= list@.subrange(0, gi as int));
            assert(sub.last() == list@[gi as int]);
            assert(game.executables@.subrange(0, ei as int) =~= game.executables@);
        }
        gi = gi + 1;
    }
    proof {
        assert(list@.subrange(0, list@.len() as int) =~= list@);
    }
    // Keep the names with a single owner.
    let mut entries: Vec<(Vec<char>, String)> = Vec::new();
    let mut k: usize = 0;
    while k < owners.len()
        invariant
            pairs == all_pairs(list@),
            owners_match(owners@, pairs),
            k <= owners@.len(),
            forall|j: int| 0 <= j < entries@.len() ==> exists|i: int|
                0 <= i < k && (#[trigger] owners@[i]).0@ == (#[trigger] entries@[j]).0@
                    && slot_view(owners@[i].1) == Some(entries@[j].1@),
            forall|i: int| 0 <= i < k && (#[trigger] owners@[i]).1 is Some ==> exists|j: int|
                0 <= j < entries@.len() && (#[trigger] entries@[j]).0@ == owners@[i].0@,
            forall|x: int, y: int|
                0 <= x < y < entries@.len() ==> (#[trigger] entries@[x]).0@ != (#[trigger] entries@[y]).0@,
        decreases owners@.len() - k,
    {
        match &owners[k].1 {
            Some(g) => {
                let ghost before = entries@;
                let key = owners[k].0.clone();
                let name = string_from_chars(g.as_slice());
                entries.push((key, name));
                proof {
                    assert forall|j: int| 0 <= j < entries@.len() implies exists|i: int|
                        0 <= i < k + 1 && (#[trigger] owners@[i]).0@ == (#[trigger] entries@[j]).0@
                            && slot_view(owners@[i].1) == Some(entries@[j].1@) by {
                        if j < before.len() {
                            assert(entries@[j] == before[j]);
                        } else {
                            assert(owners@[k as int].0@ == entries@[j].0@);
                        }
                    }
                    assert forall|i: int| 0 <= i < k + 1 && (#[trigger] owners@[i]).1 is Some implies exists|j: int|
                        0 <= j < entries@.len() && (#[trigger] entries@[j]).0@ == owners@[i].0@ by {
                        if i == k {
                            assert(entries@[before.len() as int].0@ == owners@[i].0@);
                        } else {
                            let j = choose|j: int| 0 <= j < before.len() && (#[trigger] before[j]).0@ == owners@[i].0@;
                            assert(entries@[j] == before[j]);
                        }
                    }
                    assert forall|x: int, y: int| 0 <= x < y < entries@.len() implies (#[trigger] entries@[x]).0@
                        != (#[trigger] entries@[y]).0@ by {
                        if y == before.len() {
                            assert(entries@[x] == before[x]);
                            let i = choose|i: int| 0 <= i < k && (#[trigger] owners@[i]).0@ == before[x].0@
                                && slot_view(owners@[i].1) == Some(before[x].1@);
                            assert(owners@[i].0@ != owners@[k as int].0@);
                        } else {
                            assert(entries@[x] == before[x]);
                            assert(entries@[y] == before[y]);
                        }
                    }
                }
            },
            None => {},
        }
        k = k + 1;
    }
    let m = GameMap { entries };
    proof {
        assert(m@ =~= detect_map(list@)) by {
            assert forall|b: Seq<char>| m@.dom().contains(b) <==> detect_map(list@).dom().contains(b) by {
                if m@.dom().contains(b) {
                    let j = choose|j: int| 0 <= j < entries@.len() && (#[trigger] entries@[j]).0@ == b;
                    let i = choose|i: int| 0 <= i < owners@.len() && (#[trigger] owners@[i]).0@ == entries@[j].0@
                        && slot_view(owners@[i].1) == Some(entries@[j].1@);
                    assert(owner_after(pairs, b) == Some(Some(entries@[j].1@)));
                }
                if detect_map(list@).dom().contains(b) {
                    assert(owner_after(pairs, b) is Some);
                    let i = choose|i: int| 0 <= i < owners@.len() && (#[trigger] owners@[i]).0@ == b;
                    assert(owners@[i].1 is Some);
                    let j = choose|j: int| 0 <= j < entries@.len() && (#[trigger] entries@[j]).0@ == owners@[i].0@;
                    assert(entries@[j].0@ == b);
                }
            }
            assert forall|b: Seq<char>| m@.dom().contains(b) implies m@[b] == detect_map(list@)[b] by {
                let j = choose|j: int| 0 <= j < entries@.len() && (#[trigger] entries@[j]).0@ == b;
                let i = choose|i: int| 0 <= i < owners@.len() && (#[trigger] owners@[i]).0@ == entries@[j].0@
                    && slot_view(owners@[i].1) == Some(entries@[j].1@);
                assert(owner_after(pairs, b) == Some(Some(entries@[j].1@)));
            }
        }
    }
    m
}

// ---------------------------------------------------------------------------
// Minecraft
// ---------------------------------------------------------------------------

/// Minecraft runs on Java and its clients are not on Discord's list: the process path
/// gives the client away.
pub open spec fn mentions_minecraft(path: Seq<char>) -> bool {
    ||| contains(path, "minecraft"@)
    ||| contains(path, "lunarclient"@)
    ||| contains(path, "badlion"@)
    ||| contains(path, "feather"@)
    ||| contains(path, "labymod"@)
    ||| contains(path, "tlauncher"@)
    ||| contains(path, "prismlauncher"@)
    ||| contains(path, "multimc"@)
    ||| contains(path, "modrinth"@)
    ||| contains(path, "salwyrr"@)
    ||| contains(path, "pojav"@)
}

/// Whether a (lower-cased) process path is that of a Minecraft client.
pub fn is_minecraft_path(path: &str) -> (r: bool)
    ensures
        r == mentions_minecraft(path@),
{
    str_contains(path, "minecraft") || str_contains(path, "lunarclient") || str_contains(
        path,
        "badlion",
    ) || str_contains(path, "feather") || str_contains(path, "labymod") || str_contains(
        path,
        "tlauncher",
    ) || str_contains(path, "prismlauncher") || str_contains(path, "multimc") || str_contains(
        path,
        "modrinth",
    ) || str_contains(path, "salwyrr") || str_contains(path, "pojav")
}

// ---------------------------------------------------------------------------
// The detection decision
// ---------------------------------------------------------------------------

/// The name of the first process with id `pid`.
pub open spec fn first_proc_name(procs: Seq<(u32, String)>, pid: u32) -> Option<Seq<char>>
    decreases procs.len(),
{
    if procs.len() == 0 {
        None
    } else if procs[0].0 == pid {
        Some(procs[0].1@)
    } else {
        first_proc_name(procs.drop_first(), pid)
    }
}

/// Some process has id `pid`.
pub open spec fn proc_alive(procs: Seq<(u32, String)>, pid: u32) -> bool {
    exists|i: int| 0 <= i < procs.len() && (#[trigger] procs[i]).0 == pid
}

/// The game kept from before when nothing is in the foreground: the last one, while
/// its process lives.
pub open spec fn keep_current(procs: Seq<(u32, String)>, current: Option<(u32, (Seq<char>, Option<u32>))>) -> (
    Option<(Seq<char>, Option<u32>)>,
    Option<(u32, (Seq<char>, Option<u32>))>,
) {
    match current {
        Some((pid, g)) => if proc_alive(procs, pid) {
            (Some(g), current)
        } else {
            (None, None)
        },
        None => (None, None),
    }
}

/// What detection decides (the game, and the game remembered with its process id):
/// the foreground process wins: a Steam game found from its path first; then the
/// game its executable name identifies; then Minecraft, for a Java or Python runtime
/// whose path names a Minecraft client. Otherwise the last detected game stays while
/// its process lives.
pub open spec fn spec_detect(
    map: Map<Seq<char>, Seq<char>>,
    procs: Seq<(u32, String)>,
    foreground: Option<u32>,
    path: Option<Seq<char>>,
    steam: Option<(Seq<char>, Option<u32>)>,
    current: Option<(u32, (Seq<char>, Option<u32>))>,
) -> (Option<(Seq<char>, Option<u32>)>, Option<(u32, (Seq<char>, Option<u32>))>) {
    match foreground {
        None => keep_current(procs, current),
        Some(pid) => {
            if path is Some && steam is Some {
                (steam, Some((pid, steam->0)))
            } else {
                match first_proc_name(procs, pid) {
                    None => keep_current(procs, current),
                    Some(base) => {
                        if map.contains_key(base) {
                            let g = (map[base], None::<u32>);
                            (Some(g), Some((pid, g)))
                        } else if is_generic_runtime(base) && (path matches Some(p)
                            && mentions_minecraft(p)) {
                            let g = ("Minecraft"@, None::<u32>);
                            (Some(g), Some((pid, g)))
                        } else {
                            keep_current(procs, current)
                        }
                    },
                }
            }
        },
    }
}

/// The runtimes Minecraft clients run on.
pub open spec fn is_runtime_name(b: Seq<char>) -> bool {
    b == "javaw.exe"@ || b == "java.exe"@ || b == "python.exe"@ || b == "pythonw.exe"@
}

/// The Minecraft clients are recognised by these names in the process path: a path is
/// a Minecraft client's exactly when it contains one of them.
pub proof fn law_minecraft_hints(path: Seq<char>)
    ensures
        mentions_minecraft(path) <==> (contains(path, "minecraft"@) || contains(path, "lunarclient"@) || contains(
            path,
            "badlion"@,
        ) || contains(path, "feather"@) || contains(path, "labymod"@) || contains(path, "tlauncher"@)
            || contains(path, "prismlauncher"@) || contains(path, "multimc"@) || contains(path, "modrinth"@)
            || contains(path, "salwyrr"@) || contains(path, "pojav"@)),
{
}

/// What detection answers, in terms of its inputs. A game reported is the one
/// remembered. A game remembered for the foreground process comes from it: the Steam
/// game found from its path, the game its executable name identifies, Minecraft for a
/// Java or Python runtime whose path names a client, or the game already remembered
/// for that same process. A game remembered for any other process is the one
/// remembered before, whose process is still running: once the remembered process has
/// exited and the foreground is not recognised, nothing is reported or remembered.
pub proof fn law_detect_answers(
    map: Map<Seq<char>, Seq<char>>,
    procs: Seq<(u32, String)>,
    foreground: Option<u32>,
    path: Option<Seq<char>>,
    steam: Option<(Seq<char>, Option<u32>)>,
    current: Option<(u32, (Seq<char>, Option<u32>))>,
)
    ensures
        ({
            let r = spec_detect(map, procs, foreground, path, steam, current);
            let p = (r.1->0).0;
            let g = (r.1->0).1;
            &&& r.0 is Some <==> r.1 is Some
            &&& r.1 is Some ==> r.0 == Some(g)
            &&& r.1 is Some && foreground == Some(p) ==> {
                ||| path is Some && steam == Some(g)
                ||| (first_proc_name(procs, p) is Some && map.contains_key(first_proc_name(procs, p)->0) && g == (
                    map[first_proc_name(procs, p)->0],
                    None::<u32>,
                ))
                ||| (first_proc_name(procs, p) is Some && is_runtime_name(first_proc_name(procs, p)->0) && (
                path is Some && mentions_minecraft(path->0)) && g == ("Minecraft"@, None::<u32>))
                ||| r.1 == current && proc_alive(procs, p)
            }
            &&& r.1 is Some && foreground != Some(p) ==> r.1 == current && proc_alive(procs, p)
            &&& (current is Some ==> !proc_alive(procs, (current->0).0)) && (r.1 is Some ==> foreground != Some(p))
                ==> r.0 is None && r.1 is None
        }),
{
}

/// Which source wins for the foreground process: the Steam game found from its path
/// first, then the game its executable name identifies on the list; with no
/// foreground, the remembered game stays exactly while its process runs.
pub proof fn law_detect_priority(
    map: Map<Seq<char>, Seq<char>>,
    procs: Seq<(u32, String)>,
    foreground: Option<u32>,
    path: Option<Seq<char>>,
    steam: Option<(Seq<char>, Option<u32>)>,
    current: Option<(u32, (Seq<char>, Option<u32>))>,
)
    ensures
        ({
            let r = spec_detect(map, procs, foreground, path, steam, current);
            &&& foreground is Some && path is Some && steam is Some ==> r == (steam, Some((foreground->0, steam->0)))
            &&& foreground is Some && !(path is Some && steam is Some) && first_proc_name(procs, foreground->0) is Some
                && map.contains_key(first_proc_name(procs, foreground->0)->0) ==> r == (
                Some((map[first_proc_name(procs, foreground->0)->0], None::<u32>)),
                Some((foreground->0, (map[first_proc_name(procs, foreground->0)->0], None::<u32>))),
            )
            &&& foreground is None && current is Some && proc_alive(procs, (current->0).0) ==> r == (
                Some((current->0).1),
                current,
            )
            &&& foreground is None && (current is None || !proc_alive(procs, (current->0).0)) ==> r == (
                None::<(Seq<char>, Option<u32>)>,
                None::<(u32, (Seq<char>, Option<u32>))>,
            )
        }),
{
}

/// A Java or Python runtime in the foreground, not on the list and not a Steam game
/// found from its path, is Minecraft when its path names one of the clients.
pub proof fn law_minecraft_detected(
    map: Map<Seq<char>, Seq<char>>,
    procs: Seq<(u32, String)>,
    pid: u32,
    p: Seq<char>,
    steam: Option<(Seq<char>, Option<u32>)>,
    current: Option<(u32, (Seq<char>, Option<u32>))>,
    runtime: Seq<char>,
    hint: Seq<char>,
)
    requires
        first_proc_name(procs, pid) == Some(runtime),
        is_runtime_name(runtime),
        !map.contains_key(runtime),
        steam is None,
        hint == "minecraft"@ || hint == "lunarclient"@ || hint == "badlion"@ || hint == "feather"@ || hint
            == "labymod"@ || hint == "tlauncher"@ || hint == "prismlauncher"@ || hint == "multimc"@ || hint
            == "modrinth"@ || hint == "salwyrr"@ || hint == "pojav"@,
        contains(p, hint),
    ensures
        spec_detect(map, procs, Some(pid), Some(p), steam, current) == (
            Some(("Minecraft"@, None::<u32>)),
            Some((pid, ("Minecraft"@, None::<u32>))),
        ),
{
}

/// The view of a remembered game.
pub open spec fn current_view(c: Option<(u32, DetectedGame)>) -> Option<(u32, (Seq<char>, Option<u32>))> {
    match c {
        Some((pid, g)) => Some((pid, g@)),
        None => None,
    }
}

/// The view of an optional game.
pub open spec fn game_view(g: Option<DetectedGame>) -> Option<(Seq<char>, Option<u32>)> {
    match g {
        Some(g) => Some(g@),
        None => None,
    }
}

fn first_proc(procs: &[(u32, String)], pid: u32) -> (r: Option<String>)
    ensures
        match first_proc_name(procs@, pid) {
            Some(n) => r matches Some(s) && s@ == n,
            None => r is None,
        },
{
    let mut i: usize = 0;
    assert(procs@.subrange(0, procs@.len() as int) =~= procs@);
    while i < procs.len()
        invariant
            i <= procs@.len(),
            first_proc_name(procs@, pid) == first_proc_name(procs@.subrange(i as int, procs@.len() as int), pid),
        decreases procs@.len() - i,
    {
        let ghost rest = procs@.subrange(i as int, procs@.len() as int);
        assert(rest.drop_first() =~= procs@.subrange(i + 1, procs@.len() as int));
        if procs[i].0 == pid {
            return Some(procs[i].1.clone());
        }
        i = i + 1;
    }
    None
}

fn alive(procs: &[(u32, String)], pid: u32) -> (r: bool)
    ensures
        r == proc_alive(procs@, pid),
{
    let mut i: usize = 0;
    while i < procs.len()
        invariant
            i <= procs@.len(),
            forall|j: int| 0 <= j < i ==> (#[trigger] procs@[j]).0 != pid,
        decreases procs@.len() - i,
    {
        if procs[i].0 == pid {
            return true;
        }
        i = i + 1;
    }
    false
}

/// Decides the game being played from what the system shows (see `spec_detect`):
/// `procs` are the running processes (id, lower-cased executable name), `foreground`
/// the process of the foreground window, `path` its lower-cased path with `/`
/// separators, `steam` the Steam game found from that path, and `current` the game
/// remembered from before with its process. Returns the game and what to remember.
pub fn detect_with(
    map: &GameMap,
    procs: &[(u32, String)],
    foreground: Option<u32>,
    path: Option<String>,
    steam: Option<DetectedGame>,
    current: Option<(u32, DetectedGame)>,
) -> (r: (Option<DetectedGame>, Option<(u32, DetectedGame)>))
    ensures
        (game_view(r.0), current_view(r.1)) == spec_detect(
            map@,
            procs@,
            foreground,
            match path {
                Some(p) => Some(p@),
                None => None,
            },
            game_view(steam),
            current_view(current),
        ),
{
    if let Some(pid) = foreground {
        if path.is_some() {
            if let Some(game) = steam {
                let copy = game.duplicate();
                return (Some(game), Some((pid, copy)));
            }
        }
        if let Some(base) = first_proc(procs, pid) {
            if let Some(name) = map.get(base.as_str()) {
                let game = DetectedGame { name, steam_appid: None };
                let copy = game.duplicate();
                return (Some(game), Some((pid, copy)));
            }
            if generic_runtime(base.as_str()) {
                if let Some(p) = &path {
                    if is_minecraft_path(p.as_str()) {
                        let game = DetectedGame { name: "Minecraft".to_string(), steam_appid: None };
                        let copy = game.duplicate();
                        return (Some(game), Some((pid, copy)));
                    }
                }
            }
        }
    }
    match current {
        Some((pid, game)) => {
            if alive(procs, pid) {
                let copy = game.duplicate();
                (Some(game), Some((pid, copy)))
            } else {
                (None, None)
            }
        },
        None => (None, None),
    }
}

// ---------------------------------------------------------------------------
// Steam libraries and manifests
// ---------------------------------------------------------------------------

/// Where a Steam game lives, from the path of its executable
/// (`…/steamapps/common/<dir>/…`): the library's `steamapps` folder and the game's
/// install folder name; None when the path is not in a Steam library or names no
/// install folder.
pub open spec fn spec_steam_library(path: Seq<char>) -> Option<(Seq<char>, Seq<char>)> {
    let marker = "/steamapps/common/"@;
    match find(path, marker) {
        None => None,
        Some(i) => {
            let dir = before_first(path.subrange(i + marker.len(), path.len() as int), '/');
            if dir.len() == 0 {
                None
            } else {
                Some((path.subrange(0, i) + "/steamapps"@, dir))
            }
        },
    }
}

/// The Steam library folder and install folder of a game's executable path (see
/// `spec_steam_library`).
pub fn steam_library(path: &str) -> (r: Option<(String, String)>)
    ensures
        match spec_steam_library(path@) {
            Some((lib, dir)) => r matches Some((l, d)) && l@ == lib && d@ == dir,
            None => r is None,
        },
{
    let p = chars_of(path);
    let marker = chars_of("/steamapps/common/");
    let idx = match find_chars(p.as_slice(), marker.as_slice()) {
        Some(i) => i,
        None => return None,
    };
    proof {
        lemma_find_from(p@, marker@, 0);
        assert(find(p@, marker@) == Some(idx as int));
        assert(occurs_at(p@, marker@, idx as int));
    }
    let plen = p.len();
    let rest = sub_chars(p.as_slice(), idx + marker.len(), plen);
    let dir = before_first_chars(rest.as_slice(), '/');
    if dir.len() == 0 {
        return None;
    }
    let mut lib = sub_chars(p.as_slice(), 0, idx);
    let suffix = chars_of("/steamapps");
    append_chars(&mut lib, suffix.as_slice());
    Some((string_from_chars(lib.as_slice()), string_from_chars(dir.as_slice())))
}

/// A Steam app manifest file name: `appmanifest_*.acf`.
pub fn is_app_manifest(file_name: &str) -> (r: bool)
    ensures
        r == (starts_with(file_name@, "appmanifest_"@) && ends_with(file_name@, ".acf"@)),
{
    let f = chars_of(file_name);
    starts_with_chars(f.as_slice(), chars_of("appmanifest_").as_slice()) && ends_with_chars(
        f.as_slice(),
        chars_of(".acf").as_slice(),
    )
}

/// The value of the first `"key"  "value"` pair of a Valve KeyValues (ACF) text: the
/// text between the first two quotes that follow the quoted key.
pub open spec fn spec_acf_value(content: Seq<char>, key: Seq<char>) -> Option<Seq<char>> {
    let needle = seq!['"'] + key + seq!['"'];
    match find(content, needle) {
        None => None,
        Some(i) => {
            let after = content.subrange(i + needle.len(), content.len() as int);
            match find(after, seq!['"']) {
                None => None,
                Some(j) => {
                    let rest = after.subrange(j + 1, after.len() as int);
                    match find(rest, seq!['"']) {
                        None => None,
                        Some(k) => Some(rest.subrange(0, k)),
                    }
                },
            }
        },
    }
}

/// The value of key `key` in an ACF text (see `spec_acf_value`).
pub fn acf_value(content: &str, key: &str) -> (r: Option<String>)
    ensures
        match spec_acf_value(content@, key@) {
            Some(v) => r matches Some(s) && s@ == v,
            None => r is None,
        },
{
    let c = chars_of(content);
    let mut needle: Vec<char> = Vec::new();
    needle.push('"');
    let k = chars_of(key);
    append_chars(&mut needle, k.as_slice());
    needle.push('"');
    assert(needle@ =~= seq!['"'] + key@ + seq!['"']);
    let i = match find_chars(c.as_slice(), needle.as_slice()) {
        Some(i) => i,
        None => return None,
    };
    proof {
        lemma_find_from(c@, needle@, 0);
        assert(find(c@, needle@) == Some(i as int));
        assert(occurs_at(c@, needle@, i as int));
    }
    let clen = c.len();
    let after = sub_chars(c.as_slice(), i + needle.len(), clen);
    let j = match find_char(after.as_slice(), '"') {
        Some(j) => j,
        None => return None,
    };
    proof {
        lemma_find_from(after@, seq!['"'], 0);
    }
    let rest = sub_chars(after.as_slice(), j + 1, after.len());
    let e = match find_char(rest.as_slice(), '"') {
        Some(e) => e,
        None => return None,
    };
    proof {
        lemma_find_from(rest@, seq!['"'], 0);
    }
    let value = sub_chars(rest.as_slice(), 0, e);
    Some(string_from_chars(value.as_slice()))
}

/// What one manifest says of the game installed in folder `installdir`.
pub enum ManifestMatch {
    /// The manifest is of another game (or names no install folder).
    Other,
    /// The manifest is of this game but has no valid AppID: the lookup gives up.
    Invalid,
    /// The game, with its AppID.
    Game(DetectedGame),
}

/// The marks removed from Steam game names: ™, ® and ©.
pub open spec fn trade_marks() -> Seq<char> {
    seq!['\u{2122}', '\u{AE}', '\u{A9}']
}

/// Reads a manifest (see `ManifestMatch`): it is of the game when its `installdir`
/// equals `installdir` ignoring ASCII case; then its `appid` must parse as a number,
/// and the game's name is its `name` (or the install folder), without trade marks and
/// trimmed.
pub open spec fn spec_manifest_game(content: Seq<char>, installdir: Seq<char>) -> Option<
    Option<(Seq<char>, Option<u32>)>,
> {
    match spec_acf_value(content, "installdir"@) {
        None => None,
        Some(dir) => if !eq_ignore_ascii_case(dir, installdir) {
            None
        } else {
            match spec_acf_value(content, "appid"@) {
                None => Some(None),
                Some(a) => match parse_u32_spec(a) {
                    None => Some(None),
                    Some(appid) => {
                        let raw = match spec_acf_value(content, "name"@) {
                            Some(n) => n,
                            None => dir,
                        };
                        Some(Some((trim(without_chars(raw, trade_marks())), Some(appid))))
                    },
                },
            }
        },
    }
}

/// What a manifest says of the game installed in `installdir` (see
/// `spec_manifest_game`: None = another game, Some(None) = invalid, Some(Some(g)) = the
/// game).
pub fn manifest_game(content: &str, installdir: &str) -> (r: ManifestMatch)
    ensures
        match spec_manifest_game(content@, installdir@) {
            None => r is Other,
            Some(None) => r is Invalid,
            Some(Some(g)) => r matches ManifestMatch::Game(d) && d@ == g,
        },
{
    let dir = match acf_value(content, "installdir") {
        Some(d) => d,
        None => return ManifestMatch::Other,
    };
    let dv = chars_of(dir.as_str());
    let iv = chars_of(installdir);
    if !chars_eq_ignore_ascii_case(dv.as_slice(), iv.as_slice()) {
        return ManifestMatch::Other;
    }
    let appid = match acf_value(content, "appid") {
        Some(a) => {
            let av = chars_of(a.as_str());
            match parse_u32(av.as_slice()) {
                Some(n) => n,
                None => return ManifestMatch::Invalid,
            }
        },
        None => return ManifestMatch::Invalid,
    };
    let raw = match acf_value(content, "name") {
        Some(n) => chars_of(n.as_str()),
        None => dv,
    };
    let marks = ['\u{2122}', '\u{AE}', '\u{A9}'];
    assert(marks@ =~= trade_marks());
    let cleaned = remove_chars(raw.as_slice(), marks.as_slice());
    let trimmed = trim_chars(cleaned.as_slice());
    ManifestMatch::Game(DetectedGame { name: string_from_chars(trimmed.as_slice()), steam_appid: Some(appid) })
}


/// The game of a Steam library's manifests (`files`: each file's name, and its text
/// when it could be read, in the order the folder lists them): the first app manifest
/// that is of the game installed in `installdir` decides (`spec_manifest_game`); none
/// when no manifest is, or when that manifest has no valid AppID.
pub open spec fn spec_steam_game(files: Seq<(Seq<char>, Option<Seq<char>>)>, installdir: Seq<char>) -> Option<
    (Seq<char>, Option<u32>),
>
    decreases files.len(),
{
    if files.len() == 0 {
        None
    } else {
        let (name, content) = files[0];
        let verdict = if starts_with(name, "appmanifest_"@) && ends_with(name, ".acf"@) {
            match content {
                Some(c) => spec_manifest_game(c, installdir),
                None => None,
            }
        } else {
            None
        };
        match verdict {
            Some(found) => found,
            None => spec_steam_game(files.drop_first(), installdir),
        }
    }
}

/// The views of a library folder's files (name, text if read).
pub open spec fn files_view(files: Seq<(String, Option<String>)>) -> Seq<(Seq<char>, Option<Seq<char>>)> {
    files.map_values(
        |f: (String, Option<String>)|
            (
                f.0@,
                match f.1 {
                    Some(c) => Some(c@),
                    None => None,
                },
            ),
    )
}

/// The Steam game installed in `installdir`, from the files of its library's
/// `steamapps` folder (see `spec_steam_game`).
pub fn steam_game_from_manifests(files: &[(String, Option<String>)], installdir: &str) -> (r: Option<
    DetectedGame,
>)
    ensures
        game_view(r) == spec_steam_game(files_view(files@), installdir@),
{
    let mut i: usize = 0;
    let ghost fv = files_view(files@);
    assert(fv.subrange(0, fv.len() as int) =~= fv);
    while i < files.len()
        invariant
            i <= files@.len(),
            fv == files_view(files@),
            fv.len() == files@.len(),
            spec_steam_game(fv, installdir@) == spec_steam_game(fv.subrange(i as int, fv.len() as int), installdir@),
        decreases files@.len() - i,
    {
        let ghost rest = fv.subrange(i as int, fv.len() as int);
        assert(rest.drop_first() =~= fv.subrange(i + 1, fv.len() as int));
        assert(rest[0] == fv[i as int]);
        let (name, content) = &files[i];
        if is_app_manifest(name.as_str()) {
            if let Some(c) = content {
                match manifest_game(c.as_str(), installdir) {
                    ManifestMatch::Other => {},
                    ManifestMatch::Invalid => {
                        return None;
                    },
                    ManifestMatch::Game(g) => {
                        return Some(g);
                    },
                }
            }
        }
        i = i + 1;
    }
    None
}

} // verus!
