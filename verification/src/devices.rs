//! What the capture picks among the system's devices and windows: the hardware H.264
//! encoder, the game's main window and a monitor by its device name, and the text of
//! the UTF-16 names that Windows reports for them.
use vstd::prelude::*;
use crate::text::{chars_eq, chars_of, contains, contains_chars, lowercase, string_from_chars, unicode_lowercase};

verus! {

// ---------------------------------------------------------------------------
// UTF-16 names
// ---------------------------------------------------------------------------

/// Lossy UTF-16 decoding: a surrogate pair is one character, any other unit outside the
/// surrogate range is its own character, and an unpaired surrogate becomes U+FFFD.
pub open spec fn decode_utf16_lossy(u: Seq<u16>) -> Seq<char>
    decreases u.len(),
{
    if u.len() == 0 {
        seq![]
    } else {
        let x = u[0] as int;
        if x < 0xD800 || x > 0xDFFF {
            seq![x as char] + decode_utf16_lossy(u.drop_first())
        } else if x <= 0xDBFF && u.len() >= 2 && 0xDC00 <= u[1] <= 0xDFFF {
            seq![(0x10000 + (x - 0xD800) * 0x400 + (u[1] - 0xDC00)) as char] + decode_utf16_lossy(
                u.subrange(2, u.len() as int),
            )
        } else {
            seq!['\u{FFFD}'] + decode_utf16_lossy(u.drop_first())
        }
    }
}

/// `String::from_utf16_lossy`. Claims what its documentation says: the text of the
/// UTF-16 units, with U+FFFD for invalid data (`decode_utf16_lossy`).
#[verifier::external_body]
fn utf16_lossy(units: &[u16]) -> (r: String)
    ensures
        r@ == decode_utf16_lossy(units@),
{
    String::from_utf16_lossy(units)
}

/// The units of a NUL-terminated buffer before its first NUL (all of them when it has
/// none).
pub open spec fn until_nul(u: Seq<u16>) -> Seq<u16>
    decreases u.len(),
{
    if u.len() == 0 {
        u
    } else if u[0] == 0 {
        seq![]
    } else {
        seq![u[0]] + until_nul(u.drop_first())
    }
}

fn nul_prefix(u: &[u16]) -> (r: Vec<u16>)
    ensures
        r@ == until_nul(u@),
{
    let mut out: Vec<u16> = Vec::new();
    let mut i: usize = 0;
    assert(u@.subrange(0, u@.len() as int) =~= u@);
    while i < u.len()
        invariant
            i <= u@.len(),
            forall|j: int| 0 <= j < i ==> u@[j] != 0,
            out@ == u@.subrange(0, i as int),
            until_nul(u@) == out@ + until_nul(u@.subrange(i as int, u@.len() as int)),
        decreases u@.len() - i,
    {
        let ghost rest = u@.subrange(i as int, u@.len() as int);
        if u[i] == 0 {
            assert(until_nul(rest) =~= Seq::<u16>::empty());
            assert(until_nul(u@) =~= out@);
            return out;
        }
        assert(rest.drop_first() =~= u@.subrange(i + 1, u@.len() as int));
        assert(until_nul(rest) =~= seq![u@[i as int]] + until_nul(rest.drop_first()));
        out.push(u[i]);
        assert(out@ =~= u@.subrange(0, (i + 1) as int));
        assert(until_nul(u@) =~= out@ + until_nul(u@.subrange(i + 1, u@.len() as int)));
        i = i + 1;
    }
    assert(until_nul(u@.subrange(i as int, u@.len() as int)) =~= Seq::<u16>::empty());
    assert(until_nul(u@) =~= out@);
    out
}

/// A monitor's device name (`\\.\DISPLAY1`), from its NUL-terminated `szDevice`.
pub fn device_name(sz_device: &[u16]) -> (r: String)
    ensures
        r@ == decode_utf16_lossy(until_nul(sz_device@)),
{
    let p = nul_prefix(sz_device);
    utf16_lossy(p.as_slice())
}

/// A process's executable name as detection compares it: the NUL-terminated
/// `szExeFile`, lower-cased.
pub fn process_exe_name(sz_exe_file: &[u16]) -> (r: String)
    ensures
        r@ == unicode_lowercase(decode_utf16_lossy(until_nul(sz_exe_file@))),
{
    let p = nul_prefix(sz_exe_file);
    let s = utf16_lossy(p.as_slice());
    lowercase(s.as_str())
}

/// `\` becomes `/`.
pub open spec fn forward_slash(c: char) -> char {
    if c == '\\' {
        '/'
    } else {
        c
    }
}

/// A process's image path as detection reads it: lower-cased, with `/` separators.
pub open spec fn spec_process_path(units: Seq<u16>) -> Seq<char> {
    unicode_lowercase(decode_utf16_lossy(units)).map_values(|c: char| forward_slash(c))
}

/// Every `\` of a text turned into `/`.
pub fn forward_slashes(text: &str) -> (r: String)
    ensures
        r@ == text@.map_values(|c: char| forward_slash(c)),
{
    let v = chars_of(text);
    let mut out: Vec<char> = Vec::new();
    let mut i: usize = 0;
    while i < v.len()
        invariant
            i <= v@.len(),
            out@ == v@.subrange(0, i as int).map_values(|c: char| forward_slash(c)),
        decreases v@.len() - i,
    {
        let c = v[i];
        out.push(if c == '\\' {
            '/'
        } else {
            c
        });
        assert(v@.subrange(0, (i + 1) as int).map_values(|c: char| forward_slash(c)) =~= v@.subrange(
            0,
            i as int,
        ).map_values(|c: char| forward_slash(c)).push(forward_slash(c)));
        i = i + 1;
    }
    assert(v@.subrange(0, v@.len() as int) =~= v@);
    string_from_chars(out.as_slice())
}

/// The path of a process image from the units `QueryFullProcessImageNameW` wrote (see
/// `spec_process_path`).
pub fn process_path_text(units: &[u16]) -> (r: String)
    ensures
        r@ == spec_process_path(units@),
{
    let s = utf16_lossy(units);
    let l = lowercase(s.as_str());
    forward_slashes(l.as_str())
}

// ---------------------------------------------------------------------------
// Hardware encoder
// ---------------------------------------------------------------------------

/// A slot of the hardware encoder list: whether it holds an encoder, and its friendly
/// name when it could be read.
pub struct EncoderSlot {
    pub present: bool,
    pub name: Option<String>,
}

/// The words that identify the preferred vendor's encoder (the preference lower-cased):
/// NVENC, AMF or Quick Sync; none for any other preference.
pub open spec fn encoder_keywords(pref: Seq<char>) -> Seq<Seq<char>> {
    if pref == "nvenc"@ {
        seq!["nvenc"@, "nvidia"@]
    } else if pref == "amf"@ {
        seq!["amf"@, "amd"@]
    } else if pref == "quick sync"@ {
        seq!["quick sync"@, "intel"@]
    } else {
        seq![]
    }
}

/// The slot holds an encoder whose name, lower-cased (`lname`), contains one of the
/// words.
pub open spec fn slot_matches(s: EncoderSlot, lname: Option<Seq<char>>, words: Seq<Seq<char>>) -> bool {
    &&& s.present
    &&& lname matches Some(n)
    &&& exists|k: int| 0 <= k < words.len() && contains(n, #[trigger] words[k])
}

/// The first slot from `i` on that holds an encoder.
pub open spec fn first_present_from(s: Seq<EncoderSlot>, i: int) -> Option<int>
    decreases s.len() - i,
{
    if i < 0 || i >= s.len() {
        None
    } else if s[i].present {
        Some(i)
    } else {
        first_present_from(s, i + 1)
    }
}

/// The first slot from `i` on whose encoder matches the words, with `names` the slots'
/// names lower-cased.
pub open spec fn first_match_from(
    s: Seq<EncoderSlot>,
    names: Seq<Option<Seq<char>>>,
    words: Seq<Seq<char>>,
    i: int,
) -> Option<int>
    decreases s.len() - i,
{
    if i < 0 || i >= s.len() {
        None
    } else if slot_matches(s[i], names[i], words) {
        Some(i)
    } else {
        first_match_from(s, names, words, i + 1)
    }
}

/// The hardware encoder to use, with the preference and the slots' names lower-cased:
/// the first of the preferred vendor's, else the first listed (the system's own
/// preference order); none when the list holds none.
pub open spec fn spec_pick_encoder_among(
    pref_lower: Seq<char>,
    s: Seq<EncoderSlot>,
    names: Seq<Option<Seq<char>>>,
) -> Option<int> {
    let words = encoder_keywords(pref_lower);
    if words.len() > 0 && first_match_from(s, names, words, 0) is Some {
        first_match_from(s, names, words, 0)
    } else {
        first_present_from(s, 0)
    }
}

/// A slot's name lower-cased, if it has one.
pub open spec fn lowered_name(s: EncoderSlot) -> Option<Seq<char>> {
    match s.name {
        Some(n) => Some(unicode_lowercase(n@)),
        None => None,
    }
}

/// The hardware encoder to use for a preference in any case (see
/// `spec_pick_encoder_among`, with the preference and names lower-cased).
pub open spec fn spec_pick_encoder(pref: Seq<char>, s: Seq<EncoderSlot>) -> Option<int> {
    spec_pick_encoder_among(unicode_lowercase(pref), s, s.map_values(|x: EncoderSlot| lowered_name(x)))
}

proof fn lemma_first_match_reaches(
    s: Seq<EncoderSlot>,
    names: Seq<Option<Seq<char>>>,
    words: Seq<Seq<char>>,
    start: int,
    i: int,
)
    requires
        0 <= start <= i < s.len(),
        slot_matches(s[i], names[i], words),
    ensures
        first_match_from(s, names, words, start) matches Some(j) && start <= j <= i && slot_matches(
            s[j],
            names[j],
            words,
        ),
    decreases i - start,
{
    if !slot_matches(s[start], names[start], words) {
        lemma_first_match_reaches(s, names, words, start + 1, i);
    }
}

/// The vendor preferences and the words that find their encoders: `nvenc` finds a name
/// containing "nvenc" or "nvidia", `amf` one containing "amf" or "amd", `quick sync`
/// one containing "quick sync" or "intel". With such a preference, a present encoder
/// whose lower-cased name contains one of its words is chosen over every slot before
/// it that does not: the choice is a preferred one at or before it. Any other
/// preference has no words, and the first present slot is chosen.
pub proof fn law_preferred_vendor_wins(
    pref_lower: Seq<char>,
    s: Seq<EncoderSlot>,
    names: Seq<Option<Seq<char>>>,
    i: int,
    word: Seq<char>,
)
    requires
        s.len() == names.len(),
    ensures
        encoder_keywords("nvenc"@) == seq!["nvenc"@, "nvidia"@],
        encoder_keywords("amf"@) == seq!["amf"@, "amd"@],
        encoder_keywords("quick sync"@) == seq!["quick sync"@, "intel"@],
        pref_lower != "nvenc"@ && pref_lower != "amf"@ && pref_lower != "quick sync"@ ==> spec_pick_encoder_among(
            pref_lower,
            s,
            names,
        ) == first_present_from(s, 0),
        ({
            let words_ok = (pref_lower == "nvenc"@ && (word == "nvenc"@ || word == "nvidia"@)) || (pref_lower
                == "amf"@ && (word == "amf"@ || word == "amd"@)) || (pref_lower == "quick sync"@ && (word
                == "quick sync"@ || word == "intel"@));
            words_ok && 0 <= i < s.len() && s[i].present && names[i] is Some && contains(names[i]->0, word) ==> (
            spec_pick_encoder_among(pref_lower, s, names) matches Some(j) && j <= i && s[j].present
                && names[j] is Some && exists|k: int|
                0 <= k < encoder_keywords(pref_lower).len() && contains(
                    names[j]->0,
                    #[trigger] encoder_keywords(pref_lower)[k],
                ))
        }),
{
    reveal_strlit("nvenc");
    reveal_strlit("amf");
    reveal_strlit("quick sync");
    assert("quick sync"@ != "nvenc"@ && "quick sync"@ != "amf"@ && "amf"@ != "nvenc"@) by {
        assert("quick sync"@.len() != "nvenc"@.len());
        assert("quick sync"@.len() != "amf"@.len());
        assert("amf"@.len() != "nvenc"@.len());
    }
    let words = encoder_keywords(pref_lower);
    let words_ok = (pref_lower == "nvenc"@ && (word == "nvenc"@ || word == "nvidia"@)) || (pref_lower == "amf"@
        && (word == "amf"@ || word == "amd"@)) || (pref_lower == "quick sync"@ && (word == "quick sync"@
        || word == "intel"@));
    if words_ok && 0 <= i < s.len() && s[i].present && names[i] is Some && contains(names[i]->0, word) {
        let k: int = if word == words[0] {
            0
        } else {
            1
        };
        assert(words[k] == word);
        assert(slot_matches(s[i], names[i], words));
        lemma_first_match_reaches(s, names, words, 0, i);
    }
}

/// The words of a lower-cased preference (see `encoder_keywords`).
pub fn encoder_keywords_of(pref_lower: &str) -> (r: Vec<Vec<char>>)
    ensures
        r@.len() == encoder_keywords(pref_lower@).len(),
        forall|k: int| 0 <= k < r@.len() ==> (#[trigger] r@[k])@ == encoder_keywords(pref_lower@)[k],
{
    let lv = chars_of(pref_lower);
    let mut out: Vec<Vec<char>> = Vec::new();
    if chars_eq(lv.as_slice(), chars_of("nvenc").as_slice()) {
        out.push(chars_of("nvenc"));
        out.push(chars_of("nvidia"));
    } else if chars_eq(lv.as_slice(), chars_of("amf").as_slice()) {
        out.push(chars_of("amf"));
        out.push(chars_of("amd"));
    } else if chars_eq(lv.as_slice(), chars_of("quick sync").as_slice()) {
        out.push(chars_of("quick sync"));
        out.push(chars_of("intel"));
    }
    out
}

fn name_matches(lname: &str, words: &Vec<Vec<char>>) -> (r: bool)
    ensures
        r == exists|k: int| 0 <= k < words@.len() && contains(lname@, #[trigger] words@[k]@),
{
    let lv = chars_of(lname);
    let mut k: usize = 0;
    while k < words.len()
        invariant
            k <= words@.len(),
            lv@ == lname@,
            forall|j: int| 0 <= j < k ==> !contains(lname@, #[trigger] words@[j]@),
        decreases words@.len() - k,
    {
        if contains_chars(lv.as_slice(), words[k].as_slice()) {
            return true;
        }
        k = k + 1;
    }
    false
}

/// The names of optional strings, as text.
pub open spec fn name_views(names: Seq<Option<String>>) -> Seq<Option<Seq<char>>> {
    names.map_values(
        |n: Option<String>|
            match n {
                Some(t) => Some(t@),
                None => None,
            },
    )
}

/// Picks the hardware encoder for a lower-cased preference among the listed slots,
/// given their names lower-cased (`names`, one per slot; see
/// `spec_pick_encoder_among`).
pub fn pick_encoder_among(pref_lower: &str, slots: &[EncoderSlot], names: &[Option<String>]) -> (r: Option<usize>)
    requires
        names@.len() == slots@.len(),
    ensures
        match spec_pick_encoder_among(pref_lower@, slots@, name_views(names@)) {
            Some(i) => r == Some(i as usize),
            None => r is None,
        },
{
    let words = encoder_keywords_of(pref_lower);
    let ghost ws = encoder_keywords(pref_lower@);
    let ghost nv = name_views(names@);
    let mut chosen: Option<usize> = None;
    let mut i: usize = 0;
    while i < slots.len()
        invariant
            i <= slots@.len(),
            names@.len() == slots@.len(),
            nv == name_views(names@),
            ws == encoder_keywords(pref_lower@),
            words@.len() == ws.len(),
            forall|k: int| 0 <= k < words@.len() ==> (#[trigger] words@[k])@ == ws[k],
            chosen is None ==> first_present_from(slots@, 0) == first_present_from(slots@, i as int),
            chosen matches Some(c) ==> first_present_from(slots@, 0) == Some(c as int),
            ws.len() > 0 ==> first_match_from(slots@, nv, ws, 0) == first_match_from(slots@, nv, ws, i as int),
        decreases slots@.len() - i,
    {
        let s = &slots[i];
        if s.present {
            if chosen.is_none() {
                chosen = Some(i);
            }
            if words.len() > 0 {
                if let Some(n) = &names[i] {
                    assert(nv[i as int] == Some(n@));
                    let m = name_matches(n.as_str(), &words);
                    proof {
                        if m {
                            let k = choose|k: int| 0 <= k < words@.len() && contains(n@, #[trigger] words@[k]@);
                            assert(contains(n@, ws[k]));
                        } else {
                            assert forall|k: int| 0 <= k < ws.len() implies !contains(n@, #[trigger] ws[k]) by {
                                assert(words@[k]@ == ws[k]);
                            }
                        }
                    }
                    if m {
                        assert(first_match_from(slots@, nv, ws, i as int) == Some(i as int));
                        return Some(i);
                    }
                } else {
                    assert(nv[i as int] is None);
                }
            }
        }
        proof {
            if ws.len() > 0 {
                assert(!slot_matches(slots@[i as int], nv[i as int], ws));
            }
        }
        i = i + 1;
    }
    chosen
}

/// Picks the hardware encoder for a preference (`"nvenc"`, `"amf"`, `"quick sync"`,
/// any case; anything else means no preference) among the listed slots (see
/// `spec_pick_encoder`).
pub fn pick_encoder(pref: &str, slots: &[EncoderSlot]) -> (r: Option<usize>)
    ensures
        match spec_pick_encoder(pref@, slots@) {
            Some(i) => r == Some(i as usize),
            None => r is None,
        },
{
    let pref_lower = lowercase(pref);
    let mut names: Vec<Option<String>> = Vec::new();
    let mut i: usize = 0;
    while i < slots.len()
        invariant
            i <= slots@.len(),
            names@.len() == i,
            forall|j: int|
                0 <= j < i ==> name_views(names@)[j] == lowered_name(#[trigger] slots@[j]),
        decreases slots@.len() - i,
    {
        let l = match &slots[i].name {
            Some(n) => Some(lowercase(n.as_str())),
            None => None,
        };
        let ghost before = names@;
        names.push(l);
        proof {
            assert forall|j: int| 0 <= j < i + 1 implies name_views(names@)[j] == lowered_name(
                #[trigger] slots@[j],
            ) by {
                if j < i {
                    assert(names@[j] == before[j]);
                }
            }
        }
        i = i + 1;
    }
    proof {
        assert(name_views(names@) =~= slots@.map_values(|x: EncoderSlot| lowered_name(x)));
    }
    pick_encoder_among(pref_lower.as_str(), slots, names.as_slice())
}

// ---------------------------------------------------------------------------
// The game's main window
// ---------------------------------------------------------------------------

/// A top-level window, as the window enumeration sees it.
pub struct WindowCandidate {
    pub pid: u32,
    pub visible: bool,
    pub minimized: bool,
    pub owned: bool,
    /// `left, top, right, bottom`, when the rectangle could be read.
    pub rect: Option<(i32, i32, i32, i32)>,
}

/// A window that may be the game's: of its process, visible, not minimised, not owned
/// by another window, with a known rectangle.
pub open spec fn eligible_window(w: WindowCandidate, pid: u32) -> bool {
    w.pid == pid && w.visible && !w.minimized && !w.owned && w.rect is Some
}

/// A window's area.
pub open spec fn window_area(w: WindowCandidate) -> int {
    match w.rect {
        Some((l, t, r, b)) => (r - l) * (b - t),
        None => 0,
    }
}

/// Window `k` is the game's main window: the first eligible window of the largest
/// area, which must be positive.
pub open spec fn is_main_window(ws: Seq<WindowCandidate>, pid: u32, k: int) -> bool {
    &&& 0 <= k < ws.len()
    &&& eligible_window(ws[k], pid)
    &&& window_area(ws[k]) > 0
    &&& forall|j: int|
        0 <= j < k && eligible_window(#[trigger] ws[j], pid) ==> window_area(ws[j]) < window_area(ws[k])
    &&& forall|j: int|
        k < j < ws.len() && eligible_window(#[trigger] ws[j], pid) ==> window_area(ws[j]) <= window_area(
            ws[k],
        )
}

fn area_of(rect: (i32, i32, i32, i32)) -> (a: i128)
    ensures
        a == (rect.2 - rect.0) * (rect.3 - rect.1),
{
    let w: i128 = rect.2 as i128 - rect.0 as i128;
    let h: i128 = rect.3 as i128 - rect.1 as i128;
    assert(-0x1_0000_0000 <= w <= 0x1_0000_0000);
    assert(-0x1_0000_0000 <= h <= 0x1_0000_0000);
    assert(-0x1_0000_0000_0000_0000 <= w * h <= 0x1_0000_0000_0000_0000) by (nonlinear_arith)
        requires
            -0x1_0000_0000 <= w <= 0x1_0000_0000,
            -0x1_0000_0000 <= h <= 0x1_0000_0000,
    ;
    w * h
}

/// The main window of process `pid` among the enumerated windows: the largest eligible
/// one (the first of the largest), none when no eligible window has a positive area.
pub fn find_main_window(windows: &[WindowCandidate], pid: u32) -> (r: Option<usize>)
    ensures
        match r {
            Some(k) => is_main_window(windows@, pid, k as int),
            None => forall|j: int|
                0 <= j < windows@.len() && eligible_window(#[trigger] windows@[j], pid) ==> window_area(
                    windows@[j],
                ) <= 0,
        },
{
    let mut best: Option<usize> = None;
    let mut best_area: i128 = 0;
    let mut i: usize = 0;
    while i < windows.len()
        invariant
            i <= windows@.len(),
            best is None ==> best_area == 0 && forall|j: int|
                0 <= j < i && eligible_window(#[trigger] windows@[j], pid) ==> window_area(windows@[j]) <= 0,
            best matches Some(k) ==> {
                &&& k < i
                &&& eligible_window(windows@[k as int], pid)
                &&& best_area == window_area(windows@[k as int])
                &&& best_area > 0
                &&& forall|j: int|
                    0 <= j < k && eligible_window(#[trigger] windows@[j], pid) ==> window_area(windows@[j])
                        < best_area
                &&& forall|j: int|
                    k < j < i && eligible_window(#[trigger] windows@[j], pid) ==> window_area(windows@[j])
                        <= best_area
            },
        decreases windows@.len() - i,
    {
        let w = &windows[i];
        if w.pid == pid && w.visible && !w.minimized && !w.owned {
            if let Some(rect) = w.rect {
                let a = area_of(rect);
                if a > best_area {
                    best_area = a;
                    best = Some(i);
                }
            }
        }
        i = i + 1;
    }
    best
}

// ---------------------------------------------------------------------------
// Monitors
// ---------------------------------------------------------------------------

/// The first monitor whose device name (when its information could be read) is `id`.
pub open spec fn is_monitor_of(names: Seq<Option<String>>, id: Seq<char>, k: int) -> bool {
    &&& 0 <= k < names.len()
    &&& names[k] matches Some(n) && n@ == id
    &&& forall|j: int| 0 <= j < k ==> !(#[trigger] names[j] matches Some(n) && n@ == id)
}

/// The monitor with device name `id` among the enumerated monitors' names.
pub fn find_monitor(names: &[Option<String>], id: &str) -> (r: Option<usize>)
    ensures
        match r {
            Some(k) => is_monitor_of(names@, id@, k as int),
            None => forall|j: int| 0 <= j < names@.len() ==> !(#[trigger] names@[j] matches Some(n) && n@ == id@),
        },
{
    let idv = chars_of(id);
    let mut i: usize = 0;
    while i < names.len()
        invariant
            i <= names@.len(),
            idv@ == id@,
            forall|j: int| 0 <= j < i ==> !(#[trigger] names@[j] matches Some(n) && n@ == id@),
        decreases names@.len() - i,
    {
        if let Some(n) = &names[i] {
            let nv = chars_of(n.as_str());
            if chars_eq(nv.as_slice(), idv.as_slice()) {
                return Some(i);
            }
        }
        i = i + 1;
    }
    None
}

/// The primary monitor flag of `MONITORINFO::dwFlags`.
pub fn is_primary(flags: u32) -> (r: bool)
    ensures
        r == (flags % 2 == 1),
{
    let b = flags & 1;
    assert(flags & 1 == flags % 2) by (bit_vector);
    b != 0
}

} // verus!
