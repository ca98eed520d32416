//! Character and string helpers shared by the library's modules.
//!
//! Strings are reasoned about through their `Seq<char>` views. Work on characters
//! happens on `Vec<char>`; `chars_of` and `string_from_chars` cross between the two.
use vstd::prelude::*;

verus! {

// ---------------------------------------------------------------------------
// Conversions between `str`/`String` and `Vec<char>`
// ---------------------------------------------------------------------------

/// The characters of `s`, in order.
pub fn chars_of(s: &str) -> (out: Vec<char>)
    ensures
        out@ == s@,
{
    let mut out: Vec<char> = Vec::new();
    for c in it: s.chars()
        invariant
            out@ == it.seq().take(it.index() as int),
            it.seq() == s@,
    {
        out.push(c);
    }
    out
}

/// `String::push`: appends one character.
#[verifier::external_body]
fn push_char(s: &mut String, c: char)
    ensures
        final(s)@ == old(s)@.push(c),
{
    s.push(c);
}

/// A `String` holding exactly the characters of `v`.
pub fn string_from_chars(v: &[char]) -> (s: String)
    ensures
        s@ == v@,
{
    let mut s = String::new();
    let mut i: usize = 0;
    while i < v.len()
        invariant
            i <= v@.len(),
            s@ == v@.take(i as int),
        decreases v@.len() - i,
    {
        push_char(&mut s, v[i]);
        assert(v@.take((i + 1) as int) =~= v@.take(i as int).push(v@[i as int]));
        i = i + 1;
    }
    assert(v@.take(v@.len() as int) =~= v@);
    s
}

/// Appends the characters of `src` to `dst`.
pub fn append_chars(dst: &mut Vec<char>, src: &[char])
    ensures
        final(dst)@ == old(dst)@ + src@,
{
    let mut i: usize = 0;
    while i < src.len()
        invariant
            i <= src@.len(),
            dst@ == old(dst)@ + src@.take(i as int),
        decreases src@.len() - i,
    {
        dst.push(src[i]);
        assert(src@.take((i + 1) as int) =~= src@.take(i as int).push(src@[i as int]));
        i = i + 1;
    }
    assert(src@.take(src@.len() as int) =~= src@);
}

/// Appends the characters of `src` to `dst`.
pub fn append_str(dst: &mut Vec<char>, src: &str)
    ensures
        final(dst)@ == old(dst)@ + src@,
{
    let v = chars_of(src);
    append_chars(dst, v.as_slice());
}

/// The characters `v[lo..hi]`.
pub fn sub_chars(v: &[char], lo: usize, hi: usize) -> (out: Vec<char>)
    requires
        lo <= hi <= v@.len(),
    ensures
        out@ == v@.subrange(lo as int, hi as int),
{
    let mut out: Vec<char> = Vec::new();
    let mut i: usize = lo;
    while i < hi
        invariant
            lo <= i <= hi <= v@.len(),
            out@ == v@.subrange(lo as int, i as int),
        decreases hi - i,
    {
        out.push(v[i]);
        assert(v@.subrange(lo as int, (i + 1) as int) =~= v@.subrange(lo as int, i as int).push(
            v@[i as int],
        ));
        i = i + 1;
    }
    out
}

/// Whether two character slices are equal.
pub fn chars_eq(a: &[char], b: &[char]) -> (r: bool)
    ensures
        r == (a@ == b@),
{
    if a.len() != b.len() {
        return false;
    }
    let mut i: usize = 0;
    while i < a.len()
        invariant
            a@.len() == b@.len(),
            i <= a@.len(),
            forall|j: int| 0 <= j < i ==> a@[j] == b@[j],
        decreases a@.len() - i,
    {
        if a[i] != b[i] {
            return false;
        }
        i = i + 1;
    }
    assert(a@ =~= b@);
    true
}

// ---------------------------------------------------------------------------
// Character classes
// ---------------------------------------------------------------------------

/// ASCII decimal digit.
pub open spec fn is_ascii_digit(c: char) -> bool {
    '0' <= c <= '9'
}

/// ASCII letter or digit (`char::is_ascii_alphanumeric`).
pub open spec fn is_ascii_alnum(c: char) -> bool {
    ||| '0' <= c <= '9'
    ||| 'a' <= c <= 'z'
    ||| 'A' <= c <= 'Z'
}

/// `char::is_ascii_alphanumeric`.
pub fn ascii_alnum(c: char) -> (b: bool)
    ensures
        b == is_ascii_alnum(c),
{
    ('0' <= c && c <= '9') || ('a' <= c && c <= 'z') || ('A' <= c && c <= 'Z')
}

/// ASCII lower-casing of one character (`char::to_ascii_lowercase`).
pub open spec fn ascii_lower(c: char) -> char {
    if 'A' <= c <= 'Z' {
        ((c as u32) + 32) as char
    } else {
        c
    }
}

/// `char::to_ascii_lowercase`.
pub fn to_ascii_lower(c: char) -> (r: char)
    ensures
        r == ascii_lower(c),
{
    if 'A' <= c && c <= 'Z' {
        let code: u8 = (c as u32) as u8;
        ((code + 32) as char)
    } else {
        c
    }
}

/// `str::eq_ignore_ascii_case`: same length and equal after ASCII lower-casing.
pub open spec fn eq_ignore_ascii_case(a: Seq<char>, b: Seq<char>) -> bool {
    &&& a.len() == b.len()
    &&& forall|i: int| 0 <= i < a.len() ==> ascii_lower(#[trigger] a[i]) == ascii_lower(b[i])
}

/// `str::eq_ignore_ascii_case` over character slices.
pub fn chars_eq_ignore_ascii_case(a: &[char], b: &[char]) -> (r: bool)
    ensures
        r == eq_ignore_ascii_case(a@, b@),
{
    if a.len() != b.len() {
        return false;
    }
    let mut i: usize = 0;
    while i < a.len()
        invariant
            a@.len() == b@.len(),
            i <= a@.len(),
            forall|j: int| 0 <= j < i ==> ascii_lower(#[trigger] a@[j]) == ascii_lower(b@[j]),
        decreases a@.len() - i,
    {
        if to_ascii_lower(a[i]) != to_ascii_lower(b[i]) {
            return false;
        }
        i = i + 1;
    }
    true
}

/// The Unicode `White_Space` property, which `char::is_whitespace` answers: tab, line
/// feed, vertical tab, form feed, carriage return, space, next line, no-break space,
/// Ogham space mark, the spaces U+2000 to U+200A, line and paragraph separators, narrow
/// no-break space, medium mathematical space and ideographic space.
pub open spec fn unicode_whitespace(c: char) -> bool {
    let u = c as u32;
    ||| 0x09 <= u <= 0x0D
    ||| u == 0x20
    ||| u == 0x85
    ||| u == 0xA0
    ||| u == 0x1680
    ||| 0x2000 <= u <= 0x200A
    ||| u == 0x2028
    ||| u == 0x2029
    ||| u == 0x202F
    ||| u == 0x205F
    ||| u == 0x3000
}

/// `char::is_whitespace` (see `unicode_whitespace`).
pub fn is_whitespace(c: char) -> (b: bool)
    ensures
        b == unicode_whitespace(c),
{
    let u = c as u32;
    (0x09 <= u && u <= 0x0D) || u == 0x20 || u == 0x85 || u == 0xA0 || u == 0x1680 || (0x2000 <= u
        && u <= 0x200A) || u == 0x2028 || u == 0x2029 || u == 0x202F || u == 0x205F || u == 0x3000
}

/// What `str::to_lowercase` returns for a string: its Unicode lowercase mapping.
pub uninterp spec fn unicode_lowercase(s: Seq<char>) -> Seq<char>;

/// An ASCII character.
pub open spec fn is_ascii_char(c: char) -> bool {
    (c as u32) < 128
}

/// An ASCII letter.
pub open spec fn is_ascii_letter(c: char) -> bool {
    'a' <= c <= 'z' || 'A' <= c <= 'Z'
}

/// `str::to_lowercase`. Claims that the result is the Unicode lowercase mapping of the
/// argument's characters (named, not spelled out: it follows the Unicode `Lowercase`
/// tables, which can change the length of the text), and these facts of those tables
/// on ASCII: a text of ASCII characters is lower-cased character by character as
/// `char::to_ascii_lowercase` does (`A`-`Z` become `a`-`z`, the rest stay); no
/// character lower-cases to an ASCII capital; and an ASCII character that is not a
/// letter comes only from itself. (Non-ASCII characters can give ASCII letters: the
/// Kelvin sign gives `k`.)
#[verifier::external_body]
pub(crate) fn lowercase(s: &str) -> (r: String)
    ensures
        r@ == unicode_lowercase(s@),
        (forall|i: int| 0 <= i < s@.len() ==> is_ascii_char(#[trigger] s@[i])) ==> r@ == s@.map_values(
            |c: char| ascii_lower(c),
        ),
        forall|i: int| 0 <= i < r@.len() ==> !('A' <= #[trigger] r@[i] <= 'Z'),
        forall|i: int|
            0 <= i < r@.len() && is_ascii_char(#[trigger] r@[i]) && !is_ascii_letter(r@[i]) ==> s@.contains(
                r@[i],
            ),
{
    s.to_lowercase()
}

// ---------------------------------------------------------------------------
// Stripping characters from the ends
// ---------------------------------------------------------------------------

/// `s` without its longest prefix of characters satisfying `p`.
pub open spec fn strip_start(s: Seq<char>, p: spec_fn(char) -> bool) -> Seq<char>
    decreases s.len(),
{
    if s.len() > 0 && p(s[0]) {
        strip_start(s.drop_first(), p)
    } else {
        s
    }
}

/// `s` without its longest suffix of characters satisfying `p`.
pub open spec fn strip_end(s: Seq<char>, p: spec_fn(char) -> bool) -> Seq<char>
    decreases s.len(),
{
    if s.len() > 0 && p(s.last()) {
        strip_end(s.drop_last(), p)
    } else {
        s
    }
}

/// The white-space predicate, as a value.
pub open spec fn whitespace_pred() -> spec_fn(char) -> bool {
    |c: char| unicode_whitespace(c)
}

/// The predicate "is `ch`", as a value.
pub open spec fn char_pred(ch: char) -> spec_fn(char) -> bool {
    |c: char| c == ch
}

/// `str::trim`: white space removed from both ends.
pub open spec fn trim(s: Seq<char>) -> Seq<char> {
    strip_end(strip_start(s, whitespace_pred()), whitespace_pred())
}

/// `str::trim_matches(ch)`: every `ch` removed from both ends.
pub open spec fn trim_char(s: Seq<char>, ch: char) -> Seq<char> {
    strip_end(strip_start(s, char_pred(ch)), char_pred(ch))
}

/// `str::trim_start_matches(ch)`.
pub open spec fn trim_start_char(s: Seq<char>, ch: char) -> Seq<char> {
    strip_start(s, char_pred(ch))
}

/// What `strip_start` leaves is a suffix of `s` that does not start with a stripped
/// character.
pub proof fn lemma_strip_start_shape(s: Seq<char>, p: spec_fn(char) -> bool)
    ensures
        strip_start(s, p).len() <= s.len(),
        strip_start(s, p) == s.subrange(s.len() - strip_start(s, p).len(), s.len() as int),
        strip_start(s, p).len() > 0 ==> !p(strip_start(s, p)[0]),
    decreases s.len(),
{
    if s.len() > 0 && p(s[0]) {
        lemma_strip_start_shape(s.drop_first(), p);
        let r = strip_start(s.drop_first(), p);
        assert(s.drop_first().subrange(s.len() - 1 - r.len(), s.len() - 1) =~= s.subrange(
            s.len() - r.len(),
            s.len() as int,
        ));
    } else {
        assert(s.subrange(0, s.len() as int) =~= s);
    }
}

/// What `strip_end` leaves is a prefix of `s` that does not end with a stripped
/// character.
pub proof fn lemma_strip_end_shape(s: Seq<char>, p: spec_fn(char) -> bool)
    ensures
        strip_end(s, p).len() <= s.len(),
        strip_end(s, p) == s.subrange(0, strip_end(s, p).len() as int),
        strip_end(s, p).len() > 0 ==> !p(strip_end(s, p).last()),
    decreases s.len(),
{
    if s.len() > 0 && p(s.last()) {
        lemma_strip_end_shape(s.drop_last(), p);
        let r = strip_end(s.drop_last(), p);
        assert(s.drop_last().subrange(0, r.len() as int) =~= s.subrange(0, r.len() as int));
    } else {
        assert(s.subrange(0, s.len() as int) =~= s);
    }
}

/// `trim_char(s, ch)` is a stretch of `s` that neither starts nor ends with `ch`.
pub proof fn lemma_trim_char_shape(s: Seq<char>, ch: char)
    ensures
        exists|lo: int, hi: int| 0 <= lo <= hi <= s.len() && trim_char(s, ch) == s.subrange(lo, hi),
        trim_char(s, ch).len() > 0 ==> trim_char(s, ch)[0] != ch && trim_char(s, ch).last() != ch,
{
    let p = char_pred(ch);
    lemma_strip_start_shape(s, p);
    let a = strip_start(s, p);
    lemma_strip_end_shape(a, p);
    let r = strip_end(a, p);
    let lo = s.len() - a.len();
    assert(r =~= s.subrange(lo, lo + r.len()));
    if r.len() > 0 {
        assert(r[0] == a[0]);
    }
}

/// `trim(s)` is a stretch of `s`.
pub proof fn lemma_trim_shape(s: Seq<char>)
    ensures
        exists|lo: int, hi: int| 0 <= lo <= hi <= s.len() && trim(s) == s.subrange(lo, hi),
{
    let p = whitespace_pred();
    lemma_strip_start_shape(s, p);
    let a = strip_start(s, p);
    lemma_strip_end_shape(a, p);
    let r = strip_end(a, p);
    let lo = s.len() - a.len();
    assert(r =~= s.subrange(lo, lo + r.len()));
}

proof fn lemma_strip_start_step(s: Seq<char>, i: int, p: spec_fn(char) -> bool)
    requires
        0 <= i < s.len(),
        p(s[i]),
    ensures
        strip_start(s.subrange(i, s.len() as int), p) == strip_start(
            s.subrange(i + 1, s.len() as int),
            p,
        ),
{
    assert(s.subrange(i, s.len() as int).drop_first() =~= s.subrange(i + 1, s.len() as int));
}

proof fn lemma_strip_end_step(s: Seq<char>, lo: int, j: int, p: spec_fn(char) -> bool)
    requires
        0 <= lo < j <= s.len(),
        p(s[j - 1]),
    ensures
        strip_end(s.subrange(lo, j), p) == strip_end(s.subrange(lo, j - 1), p),
{
    assert(s.subrange(lo, j).drop_last() =~= s.subrange(lo, j - 1));
}

/// Index of the first character of `v` that is not white space, and the end of the
/// last one: `v[lo..hi]` is `trim(v)`.
fn trim_bounds(v: &[char]) -> (r: (usize, usize))
    ensures
        r.0 <= r.1 <= v@.len(),
        v@.subrange(r.0 as int, r.1 as int) == trim(v@),
{
    let ghost p = whitespace_pred();
    let n = v.len();
    let mut lo: usize = 0;
    assert(v@.subrange(0, n as int) =~= v@);
    while lo < n && is_whitespace(v[lo])
        invariant
            lo <= n == v@.len(),
            p == whitespace_pred(),
            strip_start(v@, p) == strip_start(v@.subrange(lo as int, n as int), p),
        decreases n - lo,
    {
        proof {
            lemma_strip_start_step(v@, lo as int, p);
        }
        lo = lo + 1;
    }
    proof {
        let t = v@.subrange(lo as int, n as int);
        if lo < n {
            assert(t[0] == v@[lo as int]);
        } else {
            assert(t.len() == 0);
        }
        assert(strip_start(v@, p) == t);
    }
    let mut hi: usize = n;
    while hi > lo && is_whitespace(v[hi - 1])
        invariant
            lo <= hi <= n == v@.len(),
            p == whitespace_pred(),
            strip_end(strip_start(v@, p), p) == strip_end(v@.subrange(lo as int, hi as int), p),
        decreases hi,
    {
        proof {
            lemma_strip_end_step(v@, lo as int, hi as int, p);
        }
        hi = hi - 1;
    }
    proof {
        let t = v@.subrange(lo as int, hi as int);
        if hi > lo {
            assert(t.last() == v@[hi - 1]);
        }
    }
    (lo, hi)
}

/// `str::trim` over characters.
pub fn trim_chars(v: &[char]) -> (out: Vec<char>)
    ensures
        out@ == trim(v@),
{
    let (lo, hi) = trim_bounds(v);
    sub_chars(v, lo, hi)
}

/// `str::trim_matches(ch)` over characters.
pub fn trim_char_chars(v: &[char], ch: char) -> (out: Vec<char>)
    ensures
        out@ == trim_char(v@, ch),
{
    let ghost p = char_pred(ch);
    let n = v.len();
    let mut lo: usize = 0;
    assert(v@.subrange(0, n as int) =~= v@);
    while lo < n && v[lo] == ch
        invariant
            lo <= n == v@.len(),
            p == char_pred(ch),
            strip_start(v@, p) == strip_start(v@.subrange(lo as int, n as int), p),
        decreases n - lo,
    {
        proof {
            lemma_strip_start_step(v@, lo as int, p);
        }
        lo = lo + 1;
    }
    proof {
        let t = v@.subrange(lo as int, n as int);
        if lo < n {
            assert(t[0] == v@[lo as int]);
        }
        assert(strip_start(v@, p) == t);
    }
    let mut hi: usize = n;
    while hi > lo && v[hi - 1] == ch
        invariant
            lo <= hi <= n == v@.len(),
            p == char_pred(ch),
            strip_end(strip_start(v@, p), p) == strip_end(v@.subrange(lo as int, hi as int), p),
        decreases hi,
    {
        proof {
            lemma_strip_end_step(v@, lo as int, hi as int, p);
        }
        hi = hi - 1;
    }
    proof {
        let t = v@.subrange(lo as int, hi as int);
        if hi > lo {
            assert(t.last() == v@[hi - 1]);
        }
    }
    sub_chars(v, lo, hi)
}

/// `str::trim_start_matches(ch)` over characters.
pub fn trim_start_char_chars(v: &[char], ch: char) -> (out: Vec<char>)
    ensures
        out@ == trim_start_char(v@, ch),
{
    let ghost p = char_pred(ch);
    let n = v.len();
    let mut lo: usize = 0;
    assert(v@.subrange(0, n as int) =~= v@);
    while lo < n && v[lo] == ch
        invariant
            lo <= n == v@.len(),
            p == char_pred(ch),
            strip_start(v@, p) == strip_start(v@.subrange(lo as int, n as int), p),
        decreases n - lo,
    {
        proof {
            lemma_strip_start_step(v@, lo as int, p);
        }
        lo = lo + 1;
    }
    proof {
        let t = v@.subrange(lo as int, n as int);
        if lo < n {
            assert(t[0] == v@[lo as int]);
            assert(!p(t[0]));
        }
        assert(strip_start(v@, p) == t);
    }
    sub_chars(v, lo, n)
}

// ---------------------------------------------------------------------------
// Searching
// ---------------------------------------------------------------------------

/// `n` occurs in `h` starting at index `i`.
pub open spec fn occurs_at(h: Seq<char>, n: Seq<char>, i: int) -> bool {
    &&& 0 <= i
    &&& i + n.len() <= h.len()
    &&& h.subrange(i, i + n.len()) == n
}

/// Index of the first occurrence of `n` in `h` at or after `i` (`str::find` when `i` is 0).
pub open spec fn find_from(h: Seq<char>, n: Seq<char>, i: int) -> Option<int>
    decreases h.len() + 1 - i,
    when 0 <= i
{
    if i + n.len() > h.len() {
        None
    } else if occurs_at(h, n, i) {
        Some(i)
    } else {
        find_from(h, n, i + 1)
    }
}

/// `str::find`: index of the first occurrence of `n` in `h`.
pub open spec fn find(h: Seq<char>, n: Seq<char>) -> Option<int> {
    find_from(h, n, 0)
}

/// `str::contains`.
pub open spec fn contains(h: Seq<char>, n: Seq<char>) -> bool {
    find(h, n) is Some
}

/// What `find_from` means: the first occurrence at or after `i`, or none.
pub proof fn lemma_find_from(h: Seq<char>, n: Seq<char>, i: int)
    requires
        0 <= i,
    ensures
        find_from(h, n, i) matches Some(k) ==> {
            &&& i <= k
            &&& occurs_at(h, n, k)
            &&& forall|j: int| i <= j < k ==> !occurs_at(h, n, j)
        },
        find_from(h, n, i) is None ==> forall|j: int| i <= j ==> !occurs_at(h, n, j),
    decreases h.len() + 1 - i,
{
    if i + n.len() > h.len() {
    } else if occurs_at(h, n, i) {
    } else {
        lemma_find_from(h, n, i + 1);
    }
}

/// Whether `n` occurs in `h` at index `i`.
fn matches_at(h: &[char], n: &[char], i: usize) -> (r: bool)
    requires
        i + n@.len() <= h@.len(),
    ensures
        r == occurs_at(h@, n@, i as int),
{
    let mut k: usize = 0;
    while k < n.len()
        invariant
            i + n@.len() <= h@.len(),
            h@.len() == h.len(),
            k <= n@.len(),
            forall|j: int| 0 <= j < k ==> h@[i + j] == n@[j],
        decreases n@.len() - k,
    {
        if h[i + k] != n[k] {
            assert(h@.subrange(i as int, i + n@.len())[k as int] != n@[k as int]);
            return false;
        }
        k = k + 1;
    }
    assert(h@.subrange(i as int, i + n@.len()) =~= n@);
    true
}

/// `str::find` over characters: index of the first occurrence of `n` in `h`.
pub fn find_chars(h: &[char], n: &[char]) -> (r: Option<usize>)
    ensures
        r matches Some(k) ==> find(h@, n@) == Some(k as int),
        r is None ==> find(h@, n@) is None,
{
    if n.len() > h.len() {
        return None;
    }
    let last = h.len() - n.len();
    let mut i: usize = 0;
    while i <= last
        invariant
            last + n@.len() == h@.len(),
            find(h@, n@) == find_from(h@, n@, i as int),
            i <= last + 1,
        decreases last + 1 - i,
    {
        if matches_at(h, n, i) {
            return Some(i);
        }
        if i == last {
            proof {
                assert(find_from(h@, n@, i + 1) is None);
            }
            return None;
        }
        i = i + 1;
    }
    None
}

/// `str::find` of a single character.
pub fn find_char(h: &[char], c: char) -> (r: Option<usize>)
    ensures
        r matches Some(k) ==> find(h@, seq![c]) == Some(k as int),
        r is None ==> find(h@, seq![c]) is None,
{
    let n = vec![c];
    assert(n@ =~= seq![c]);
    find_chars(h, n.as_slice())
}

/// `str::contains` over characters.
pub fn contains_chars(h: &[char], n: &[char]) -> (r: bool)
    ensures
        r == contains(h@, n@),
{
    find_chars(h, n).is_some()
}

/// `str::contains` over strings.
pub fn str_contains(h: &str, n: &str) -> (r: bool)
    ensures
        r == contains(h@, n@),
{
    let hv = chars_of(h);
    let nv = chars_of(n);
    contains_chars(hv.as_slice(), nv.as_slice())
}

/// `s` starts with `p`.
pub open spec fn starts_with(s: Seq<char>, p: Seq<char>) -> bool {
    p.len() <= s.len() && s.subrange(0, p.len() as int) == p
}

/// `s` ends with `p`.
pub open spec fn ends_with(s: Seq<char>, p: Seq<char>) -> bool {
    p.len() <= s.len() && s.subrange(s.len() - p.len(), s.len() as int) == p
}

/// `str::starts_with` over characters.
pub fn starts_with_chars(s: &[char], p: &[char]) -> (r: bool)
    ensures
        r == starts_with(s@, p@),
{
    if p.len() > s.len() {
        return false;
    }
    let r = matches_at(s, p, 0);
    r
}

/// `str::ends_with` over characters.
pub fn ends_with_chars(s: &[char], p: &[char]) -> (r: bool)
    ensures
        r == ends_with(s@, p@),
{
    if p.len() > s.len() {
        return false;
    }
    matches_at(s, p, s.len() - p.len())
}

// ---------------------------------------------------------------------------
// Decimal numbers
// ---------------------------------------------------------------------------

/// The ASCII digit for `d` (0 to 9).
pub open spec fn digit_char(d: int) -> char {
    (48 + d) as char
}

/// The decimal representation of `n`, without leading zeros (`{}` formatting).
pub open spec fn decimal(n: nat) -> Seq<char>
    decreases n,
{
    if n < 10 {
        seq![digit_char(n as int)]
    } else {
        decimal(n / 10).push(digit_char((n % 10) as int))
    }
}

/// `s` left-padded with `'0'` to at least `w` characters (`{:0w}` formatting).
pub open spec fn zero_pad(s: Seq<char>, w: nat) -> Seq<char> {
    if s.len() < w {
        Seq::new((w - s.len()) as nat, |i: int| '0') + s
    } else {
        s
    }
}

/// Appends the decimal representation of `n`.
pub fn push_decimal(out: &mut Vec<char>, n: u64)
    ensures
        final(out)@ == old(out)@ + decimal(n as nat),
    decreases n,
{
    if n >= 10 {
        push_decimal(out, n / 10);
    }
    let d: u8 = (n % 10) as u8;
    let c = (48u8 + d) as char;
    out.push(c);
    proof {
        if n >= 10 {
            assert(decimal(n as nat) == decimal((n / 10) as nat).push(digit_char((n % 10) as int)));
        }
    }
    assert(final(out)@ =~= old(out)@ + decimal(n as nat));
}

/// Appends the decimal representation of `n`, left-padded with zeros to `width`.
pub fn push_padded_decimal(out: &mut Vec<char>, n: u64, width: usize)
    ensures
        final(out)@ == old(out)@ + zero_pad(decimal(n as nat), width as nat),
{
    let mut digits: Vec<char> = Vec::new();
    push_decimal(&mut digits, n);
    assert(digits@ =~= decimal(n as nat));
    let len = digits.len();
    if len < width {
        let pad = width - len;
        let mut k: usize = 0;
        let ghost start = out@;
        while k < pad
            invariant
                k <= pad,
                out@ == start + Seq::new(k as nat, |i: int| '0'),
            decreases pad - k,
        {
            out.push('0');
            assert(start + Seq::new((k + 1) as nat, |i: int| '0') =~= (start + Seq::new(
                k as nat,
                |i: int| '0',
            )).push('0'));
            k = k + 1;
        }
        append_chars(out, digits.as_slice());
        assert(out@ =~= start + zero_pad(decimal(n as nat), width as nat));
    } else {
        append_chars(out, digits.as_slice());
    }
}

// ---------------------------------------------------------------------------
// Splitting
// ---------------------------------------------------------------------------

/// A path separator: `/` or `\`.
pub open spec fn is_path_sep(c: char) -> bool {
    c == '/' || c == '\\'
}

/// The text after the last path separator (`rsplit(['/', '\\']).next()`): all of `s`
/// when it has none.
pub open spec fn after_last_sep(s: Seq<char>) -> Seq<char>
    decreases s.len(),
{
    if s.len() == 0 {
        s
    } else if is_path_sep(s.last()) {
        seq![]
    } else {
        after_last_sep(s.drop_last()).push(s.last())
    }
}

/// The text after the last separator holds no separator.
pub proof fn lemma_after_last_sep_has_none(s: Seq<char>)
    ensures
        forall|i: int| 0 <= i < after_last_sep(s).len() ==> !is_path_sep(#[trigger] after_last_sep(s)[i]),
    decreases s.len(),
{
    if s.len() > 0 && !is_path_sep(s.last()) {
        lemma_after_last_sep_has_none(s.drop_last());
        let r = after_last_sep(s.drop_last());
        assert(after_last_sep(s) == r.push(s.last()));
        assert forall|i: int| 0 <= i < r.push(s.last()).len() implies !is_path_sep(
            #[trigger] r.push(s.last())[i],
        ) by {
            if i < r.len() {
                assert(r.push(s.last())[i] == r[i]);
            }
        }
    } else if s.len() > 0 {
        assert(after_last_sep(s) =~= Seq::<char>::empty());
    }
}

/// `rsplit(['/', '\\']).next()` over characters.
pub fn after_last_sep_chars(v: &[char]) -> (out: Vec<char>)
    ensures
        out@ == after_last_sep(v@),
{
    let n = v.len();
    let mut i: usize = n;
    assert(v@.subrange(0, n as int) =~= v@);
    assert(v@.subrange(n as int, n as int) =~= Seq::<char>::empty());
    while i > 0 && !(v[i - 1] == '/' || v[i - 1] == '\\')
        invariant
            i <= n == v@.len(),
            after_last_sep(v@) == after_last_sep(v@.subrange(0, i as int)) + v@.subrange(
                i as int,
                n as int,
            ),
        decreases i,
    {
        let ghost pre = v@.subrange(0, i as int);
        assert(pre.drop_last() =~= v@.subrange(0, i - 1));
        assert(pre.last() == v@[i - 1]);
        assert(after_last_sep(pre) == after_last_sep(v@.subrange(0, i - 1)).push(v@[i - 1]));
        assert(v@.subrange(i - 1, n as int) =~= seq![v@[i - 1]] + v@.subrange(i as int, n as int));
        assert(after_last_sep(v@.subrange(0, i - 1)).push(v@[i - 1]) + v@.subrange(i as int, n as int)
            =~= after_last_sep(v@.subrange(0, i - 1)) + v@.subrange(i - 1, n as int));
        i = i - 1;
    }
    proof {
        let pre = v@.subrange(0, i as int);
        if i > 0 {
            assert(pre.last() == v@[i - 1]);
            assert(after_last_sep(pre) =~= Seq::<char>::empty());
        } else {
            assert(pre =~= Seq::<char>::empty());
        }
        assert(after_last_sep(v@) =~= v@.subrange(i as int, n as int));
    }
    sub_chars(v, i, n)
}

/// The text before the first `c` (`split(c).next()`): all of `s` when it has none.
pub open spec fn before_first(s: Seq<char>, c: char) -> Seq<char> {
    match find(s, seq![c]) {
        Some(k) => s.subrange(0, k),
        None => s,
    }
}

/// `split(c).next()` over characters.
pub fn before_first_chars(v: &[char], c: char) -> (out: Vec<char>)
    ensures
        out@ == before_first(v@, c),
{
    match find_char(v, c) {
        Some(k) => {
            proof {
                lemma_find_from(v@, seq![c], 0);
            }
            sub_chars(v, 0, k)
        },
        None => {
            assert(v@.subrange(0, v@.len() as int) =~= v@);
            sub_chars(v, 0, v.len())
        },
    }
}

/// `s` without any of the characters of `marks`.
pub open spec fn without_chars(s: Seq<char>, marks: Seq<char>) -> Seq<char>
    decreases s.len(),
{
    if s.len() == 0 {
        s
    } else if marks.contains(s.last()) {
        without_chars(s.drop_last(), marks)
    } else {
        without_chars(s.drop_last(), marks).push(s.last())
    }
}

/// `str::replace(marks, "")`: the characters of `v` that are not in `marks`.
pub fn remove_chars(v: &[char], marks: &[char]) -> (out: Vec<char>)
    ensures
        out@ == without_chars(v@, marks@),
{
    let mut out: Vec<char> = Vec::new();
    let mut i: usize = 0;
    while i < v.len()
        invariant
            i <= v@.len(),
            out@ == without_chars(v@.subrange(0, i as int), marks@),
        decreases v@.len() - i,
    {
        let c = v[i];
        let mut hit = false;
        let mut k: usize = 0;
        while k < marks.len()
            invariant
                k <= marks@.len(),
                hit == (exists|j: int| 0 <= j < k && marks@[j] == c),
            decreases marks@.len() - k,
        {
            if marks[k] == c {
                hit = true;
            }
            k = k + 1;
        }
        assert(v@.subrange(0, i + 1).drop_last() =~= v@.subrange(0, i as int));
        assert(v@.subrange(0, i + 1).last() == c);
        if !hit {
            out.push(c);
        } else {
            proof {
                let j = choose|j: int| 0 <= j < marks@.len() && marks@[j] == c;
                assert(marks@.contains(c));
            }
        }
        i = i + 1;
    }
    assert(v@.subrange(0, v@.len() as int) =~= v@);
    out
}

// ---------------------------------------------------------------------------
// Parsing
// ---------------------------------------------------------------------------

/// The value of a sequence of decimal digits.
pub open spec fn digits_value(s: Seq<char>) -> nat
    decreases s.len(),
{
    if s.len() == 0 {
        0
    } else {
        digits_value(s.drop_last()) * 10 + ((s.last() as u32) - 48) as nat
    }
}

/// Whether every character is an ASCII digit.
pub open spec fn all_digits(s: Seq<char>) -> bool {
    forall|i: int| 0 <= i < s.len() ==> is_ascii_digit(#[trigger] s[i])
}

/// What `str::parse::<u32>` accepts: an optional `+`, then at least one digit, with a
/// value that fits in 32 bits; None otherwise.
pub open spec fn parse_u32_spec(s: Seq<char>) -> Option<u32> {
    let digits = if s.len() > 0 && s[0] == '+' {
        s.drop_first()
    } else {
        s
    };
    if digits.len() > 0 && all_digits(digits) && digits_value(digits) <= u32::MAX {
        Some(digits_value(digits) as u32)
    } else {
        None
    }
}

proof fn lemma_digits_value_monotone(s: Seq<char>, i: int)
    requires
        all_digits(s),
        0 <= i <= s.len(),
    ensures
        digits_value(s.subrange(0, i)) <= digits_value(s),
    decreases s.len() - i,
{
    if i < s.len() {
        lemma_digits_value_monotone(s, i + 1);
        let a = s.subrange(0, i);
        let b = s.subrange(0, i + 1);
        assert(b.drop_last() =~= a);
        assert(digits_value(b) == digits_value(a) * 10 + ((b.last() as u32) - 48) as nat);
    } else {
        assert(s.subrange(0, i) =~= s);
    }
}

/// `str::parse::<u32>` over characters (decimal, optional leading `+`).
pub fn parse_u32(v: &[char]) -> (r: Option<u32>)
    ensures
        r == parse_u32_spec(v@),
{
    let n = v.len();
    let start: usize = if n > 0 && v[0] == '+' {
        1
    } else {
        0
    };
    let ghost digits = if v@.len() > 0 && v@[0] == '+' {
        v@.drop_first()
    } else {
        v@
    };
    assert(digits =~= v@.subrange(start as int, n as int));
    assert(parse_u32_spec(v@) == (if digits.len() > 0 && all_digits(digits) && digits_value(digits)
        <= u32::MAX {
        Some(digits_value(digits) as u32)
    } else {
        None
    }));
    if start >= n {
        return None;
    }
    let mut acc: u64 = 0;
    let mut i: usize = start;
    assert(v@.subrange(start as int, start as int) =~= Seq::<char>::empty());
    while i < n
        invariant
            start <= i <= n == v@.len(),
            start < n,
            digits == v@.subrange(start as int, n as int),
            parse_u32_spec(v@) == (if digits.len() > 0 && all_digits(digits) && digits_value(digits)
                <= u32::MAX {
                Some(digits_value(digits) as u32)
            } else {
                None
            }),
            all_digits(v@.subrange(start as int, i as int)),
            acc == digits_value(v@.subrange(start as int, i as int)),
            acc <= u32::MAX,
        decreases n - i,
    {
        let c = v[i];
        if !('0' <= c && c <= '9') {
            proof {
                assert(digits[i - start] == c);
                assert(!is_ascii_digit(digits[i - start]));
                assert(!all_digits(digits));
            }
            return None;
        }
        let d: u64 = ((c as u32) - 48) as u64;
        let next = acc * 10 + d;
        proof {
            let pre = v@.subrange(start as int, i as int);
            let nxt = v@.subrange(start as int, i + 1);
            assert(nxt.drop_last() =~= pre);
            assert(nxt.last() == c);
            assert(all_digits(nxt));
            assert(digits_value(nxt) == digits_value(pre) * 10 + ((c as u32) - 48) as nat);
            assert(digits_value(nxt) == next);
        }
        if next > 4294967295u64 {
            proof {
                if all_digits(digits) {
                    lemma_digits_value_monotone(digits, i + 1 - start);
                    assert(digits.subrange(0, i + 1 - start) =~= v@.subrange(start as int, i + 1));
                    assert(digits_value(digits) > u32::MAX);
                }
            }
            return None;
        }
        acc = next;
        i = i + 1;
    }
    assert(v@.subrange(start as int, n as int) == digits);
    Some(acc as u32)
}

} // verus!
