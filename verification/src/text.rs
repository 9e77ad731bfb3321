//! Character-level string utilities with exact specifications.
use vstd::prelude::*;
use vstd::std_specs::iter::IteratorSpec;
use vstd::utf8::*;

verus! {

/// What `str::to_lowercase` returns for a string that is not all ASCII.
pub uninterp spec fn unicode_lowercase(s: Seq<char>) -> Seq<char>;

/// All characters are ASCII.
pub open spec fn is_ascii_text(s: Seq<char>) -> bool {
    forall|i: int| 0 <= i < s.len() ==> (#[trigger] s[i] as u32) < 0x80
}

/// The ASCII lowercase of a character: `A`-`Z` become `a`-`z`, every other
/// character stays.
pub open spec fn ascii_lower(c: char) -> char {
    if 'A' <= c && c <= 'Z' {
        ((c as u32) + 32) as char
    } else {
        c
    }
}

/// Each character of `s` in ASCII lowercase.
pub open spec fn ascii_lower_text(s: Seq<char>) -> Seq<char> {
    s.map_values(|c: char| ascii_lower(c))
}

/// What `str::to_lowercase` returns: on ASCII text each character in ASCII
/// lowercase, on other text the named result.
pub open spec fn lowercase_of(s: Seq<char>) -> Seq<char> {
    if is_ascii_text(s) {
        ascii_lower_text(s)
    } else {
        unicode_lowercase(s)
    }
}

/// Calls `str::to_lowercase`. On ASCII text it maps `A`-`Z` to `a`-`z` and
/// leaves every other character as it is; on other text (Unicode case
/// mapping, with the final-sigma rule) its result is named
/// `unicode_lowercase` of the input and nothing more is stated.
#[verifier::external_body]
pub fn to_lowercase(s: &str) -> (r: String)
    ensures
        r@ == lowercase_of(s@),
        !is_ascii_text(s@) ==> r@ == unicode_lowercase(s@),
{
    s.to_lowercase()
}

/// Calls `String::push`, which appends one character at the end.
#[verifier::external_body]
pub fn push_char(s: &mut String, c: char)
    ensures
        final(s)@ == old(s)@.push(c),
{
    s.push(c)
}

/// The characters of a string slice, in order.
pub fn chars_of(s: &str) -> (v: Vec<char>)
    ensures
        v@ == s@,
{
    let mut v: Vec<char> = Vec::new();
    for c in it: s.chars()
        invariant
            v@ == it.seq().take(it.index() as int),
    {
        v.push(c);
    }
    v
}

/// A string made of the given characters.
pub fn string_of(v: &[char]) -> (s: String)
    ensures
        s@ == v@,
{
    let mut s = String::new();
    let mut i: usize = 0;
    while i < v.len()
        invariant
            i <= v.len(),
            s@ == v@.take(i as int),
        decreases v.len() - i,
    {
        push_char(&mut s, v[i]);
        assert(v@.take(i + 1) == v@.take(i as int).push(v@[i as int]));
        i += 1;
    }
    assert(v@.take(v.len() as int) == v@);
    s
}


/// The Unicode `White_Space` property, as `char::is_whitespace` and `str::trim` use it.
pub open spec fn is_ws(c: char) -> bool {
    let u: u32 = c as u32;
    ||| 0x9 <= u <= 0xD
    ||| u == 0x20
    ||| u == 0x85
    ||| u == 0xA0
    ||| u == 0x1680
    ||| 0x2000 <= u <= 0x200A
    ||| u == 0x2028
    ||| u == 0x2029
    ||| u == 0x202F
    ||| u == 0x205F
    ||| u == 0x3000
}

/// Whether a character is white space.
pub fn is_whitespace(c: char) -> (r: bool)
    ensures
        r == is_ws(c),
{
    let u: u32 = c as u32;
    (0x9 <= u && u <= 0xD) || u == 0x20 || u == 0x85 || u == 0xA0 || u == 0x1680 || (0x2000 <= u
        && u <= 0x200A) || u == 0x2028 || u == 0x2029 || u == 0x202F || u == 0x205F || u == 0x3000
}

/// A class of characters that trimming removes.
pub enum CharClass {
    Whitespace,
    Exactly(char),
}

impl CharClass {
    pub open spec fn has(self, c: char) -> bool {
        match self {
            CharClass::Whitespace => is_ws(c),
            CharClass::Exactly(x) => c == x,
        }
    }

    pub fn test(&self, c: char) -> (r: bool)
        ensures
            r == self.has(c),
    {
        match self {
            CharClass::Whitespace => is_whitespace(c),
            CharClass::Exactly(x) => c == *x,
        }
    }
}

/// `s` without the leading characters of class `cls`.
pub open spec fn trim_start_by(s: Seq<char>, cls: CharClass) -> Seq<char>
    decreases s.len(),
{
    if s.len() > 0 && cls.has(s[0]) {
        trim_start_by(s.drop_first(), cls)
    } else {
        s
    }
}

/// `s` without the trailing characters of class `cls`.
pub open spec fn trim_end_by(s: Seq<char>, cls: CharClass) -> Seq<char>
    decreases s.len(),
{
    if s.len() > 0 && cls.has(s.last()) {
        trim_end_by(s.drop_last(), cls)
    } else {
        s
    }
}

/// `s` without leading and trailing characters of class `cls`.
pub open spec fn trim_by(s: Seq<char>, cls: CharClass) -> Seq<char> {
    trim_end_by(trim_start_by(s, cls), cls)
}

/// What `str::trim` returns.
pub open spec fn trim(s: Seq<char>) -> Seq<char> {
    trim_by(s, CharClass::Whitespace)
}

/// What `str::trim_matches(c)` returns for a single character `c`.
pub open spec fn trim_char(s: Seq<char>, c: char) -> Seq<char> {
    trim_by(s, CharClass::Exactly(c))
}

pub proof fn lemma_trim_start_at(s: Seq<char>, cls: CharClass, a: int)
    requires
        0 <= a <= s.len(),
        forall|k: int| 0 <= k < a ==> cls.has(#[trigger] s[k]),
        a == s.len() || !cls.has(s[a]),
    ensures
        trim_start_by(s, cls) == s.subrange(a, s.len() as int),
    decreases a,
{
    if a == 0 {
        assert(s.subrange(0, s.len() as int) == s);
    } else {
        let t = s.drop_first();
        assert forall|k: int| 0 <= k < a - 1 implies cls.has(#[trigger] t[k]) by {
            assert(t[k] == s[k + 1]);
        }
        lemma_trim_start_at(t, cls, a - 1);
        assert(t.subrange(a - 1, t.len() as int) == s.subrange(a, s.len() as int));
    }
}

proof fn lemma_trim_end_at(s: Seq<char>, cls: CharClass, b: int)
    requires
        0 <= b <= s.len(),
        forall|k: int| b <= k < s.len() ==> cls.has(#[trigger] s[k]),
        b == 0 || !cls.has(s[b - 1]),
    ensures
        trim_end_by(s, cls) == s.subrange(0, b),
    decreases s.len() - b,
{
    if b == s.len() {
        assert(s.subrange(0, b) == s);
    } else {
        let t = s.drop_last();
        assert forall|k: int| b <= k < t.len() implies cls.has(#[trigger] t[k]) by {
            assert(t[k] == s[k]);
        }
        lemma_trim_end_at(t, cls, b);
        assert(t.subrange(0, b) == s.subrange(0, b));
    }
}

/// The characters `v[a..b]`.
pub fn sub_chars(v: &Vec<char>, a: usize, b: usize) -> (r: Vec<char>)
    requires
        a <= b <= v.len(),
    ensures
        r@ == v@.subrange(a as int, b as int),
{
    let mut r: Vec<char> = Vec::new();
    let mut k: usize = a;
    while k < b
        invariant
            a <= k <= b <= v.len(),
            r@ == v@.subrange(a as int, k as int),
        decreases b - k,
    {
        r.push(v[k]);
        assert(v@.subrange(a as int, k + 1) == v@.subrange(a as int, k as int).push(v@[k as int]));
        k += 1;
    }
    r
}

/// The bounds `(a, b)` of `v` trimmed of the characters of class `cls`.
pub fn trim_bounds(v: &Vec<char>, cls: &CharClass) -> (r: (usize, usize))
    ensures
        r.0 <= r.1 <= v.len(),
        v@.subrange(r.0 as int, r.1 as int) == trim_by(v@, *cls),
{
    let mut a: usize = 0;
    while a < v.len() && cls.test(v[a])
        invariant
            a <= v.len(),
            forall|k: int| 0 <= k < a ==> cls.has(#[trigger] v@[k]),
        decreases v.len() - a,
    {
        a += 1;
    }
    proof {
        lemma_trim_start_at(v@, *cls, a as int);
    }
    let mut b: usize = v.len();
    while b > a && cls.test(v[b - 1])
        invariant
            a <= b <= v.len(),
            forall|k: int| b <= k < v.len() ==> cls.has(#[trigger] v@[k]),
        decreases b,
    {
        b -= 1;
    }
    proof {
        let t = v@.subrange(a as int, v.len() as int);
        assert forall|k: int| b - a <= k < t.len() implies cls.has(#[trigger] t[k]) by {
            assert(t[k] == v@[k + a]);
        }
        if b > a {
            assert(t[b - a - 1] == v@[b - 1]);
        }
        lemma_trim_end_at(t, *cls, b - a);
        assert(t.subrange(0, b - a) == v@.subrange(a as int, b as int));
    }
    (a, b)
}

/// `v` without its leading characters of class `cls`.
pub fn trim_start_chars(v: &Vec<char>, cls: &CharClass) -> (r: Vec<char>)
    ensures
        r@ == trim_start_by(v@, *cls),
{
    let mut a: usize = 0;
    while a < v.len() && cls.test(v[a])
        invariant
            a <= v.len(),
            forall|k: int| 0 <= k < a ==> cls.has(#[trigger] v@[k]),
        decreases v.len() - a,
    {
        a += 1;
    }
    proof {
        lemma_trim_start_at(v@, *cls, a as int);
    }
    sub_chars(v, a, v.len())
}

/// `v` trimmed of the characters of class `cls` at both ends.
pub fn trim_chars(v: &Vec<char>, cls: &CharClass) -> (r: Vec<char>)
    ensures
        r@ == trim_by(v@, *cls),
{
    let (a, b): (usize, usize) = trim_bounds(v, cls);
    sub_chars(v, a, b)
}

/// `str::trim`: the string without leading and trailing white space.
pub fn trim_str(s: &str) -> (r: String)
    ensures
        r@ == trim(s@),
{
    let v = chars_of(s);
    let t = trim_chars(&v, &CharClass::Whitespace);
    string_of(t.as_slice())
}

/// `str::trim_matches(c)`: the string without leading and trailing `c`.
pub fn trim_matches(s: &str, c: char) -> (r: String)
    ensures
        r@ == trim_char(s@, c),
{
    let v = chars_of(s);
    let t = trim_chars(&v, &CharClass::Exactly(c));
    string_of(t.as_slice())
}


/// `n` occurs in `h` starting at index `i`.
pub open spec fn occurs_at(h: Seq<char>, n: Seq<char>, i: int) -> bool {
    0 <= i && i + n.len() <= h.len() && h.subrange(i, i + n.len()) == n
}

/// What `str::contains` returns for a string pattern: `n` is a substring of `h`.
pub open spec fn contains_seq(h: Seq<char>, n: Seq<char>) -> bool {
    exists|i: int| occurs_at(h, n, i)
}

/// What `str::starts_with` returns.
pub open spec fn starts_with(h: Seq<char>, n: Seq<char>) -> bool {
    n.len() <= h.len() && h.take(n.len() as int) == n
}

/// What `str::ends_with` returns.
pub open spec fn ends_with(h: Seq<char>, n: Seq<char>) -> bool {
    n.len() <= h.len() && h.skip(h.len() - n.len()) == n
}

/// Whether `n` occurs in `h` at index `i`.
pub fn matches_at(h: &Vec<char>, n: &Vec<char>, i: usize) -> (r: bool)
    ensures
        r == occurs_at(h@, n@, i as int),
{
    if i > h.len() || n.len() > h.len() - i {
        return false;
    }
    let mut k: usize = 0;
    while k < n.len()
        invariant
            i + n.len() <= h.len(),
            k <= n.len(),
            forall|j: int| 0 <= j < k ==> h@[i + j] == n@[j],
        decreases n.len() - k,
    {
        if h[i + k] != n[k] {
            assert(h@.subrange(i as int, i + n.len())[k as int] != n@[k as int]);
            return false;
        }
        k += 1;
    }
    assert(h@.subrange(i as int, i + n.len()) =~= n@);
    true
}

/// Whether `n` is a substring of `h`.
pub fn contains_chars(h: &Vec<char>, n: &Vec<char>) -> (r: bool)
    ensures
        r == contains_seq(h@, n@),
{
    if n.len() > h.len() {
        return false;
    }
    let mut i: usize = 0;
    loop
        invariant
            n.len() <= h.len(),
            i <= h.len() - n.len(),
            forall|j: int| 0 <= j < i ==> !occurs_at(h@, n@, j),
        decreases h.len() - n.len() - i,
    {
        if matches_at(h, n, i) {
            return true;
        }
        if i == h.len() - n.len() {
            assert forall|j: int| !occurs_at(h@, n@, j) by {
                if 0 <= j < i {
                }
            }
            return false;
        }
        i += 1;
    }
}

/// `str::contains` with a string pattern.
pub fn contains_str(h: &str, n: &str) -> (r: bool)
    ensures
        r == contains_seq(h@, n@),
{
    let hv = chars_of(h);
    let nv = chars_of(n);
    contains_chars(&hv, &nv)
}

/// `str::starts_with` with a string pattern.
pub fn starts_with_str(h: &str, n: &str) -> (r: bool)
    ensures
        r == starts_with(h@, n@),
{
    let hv = chars_of(h);
    let nv = chars_of(n);
    let r = matches_at(&hv, &nv, 0);
    assert(r ==> hv@.subrange(0, nv@.len() as int) == hv@.take(nv@.len() as int));
    r
}

/// `str::ends_with` with a string pattern.
pub fn ends_with_str(h: &str, n: &str) -> (r: bool)
    ensures
        r == ends_with(h@, n@),
{
    let hv = chars_of(h);
    let nv = chars_of(n);
    if nv.len() > hv.len() {
        return false;
    }
    let r = matches_at(&hv, &nv, hv.len() - nv.len());
    assert(hv@.subrange(hv.len() - nv.len(), hv.len() as int) == hv@.skip(hv.len() - nv.len()));
    r
}

/// Whether two strings have the same characters.
pub fn same_str(a: &str, b: &str) -> (r: bool)
    ensures
        r == (a@ == b@),
{
    let av = chars_of(a);
    let bv = chars_of(b);
    if av.len() != bv.len() {
        return false;
    }
    let r = matches_at(&av, &bv, 0);
    assert(r ==> av@.subrange(0, bv@.len() as int) == av@);
    proof {
        if av@ == bv@ {
            assert(av@.subrange(0, bv@.len() as int) == bv@);
        }
    }
    r
}

/// The part of `s` after the last `c` (all of `s` when `c` does not occur),
/// which is what `s.rsplit(c).next()` yields.
pub open spec fn after_last(s: Seq<char>, c: char) -> Seq<char>
    decreases s.len(),
{
    if s.len() == 0 {
        s
    } else if s.last() == c {
        Seq::empty()
    } else {
        after_last(s.drop_last(), c).push(s.last())
    }
}

/// The part of `s` before the first `c` (all of `s` when `c` does not occur),
/// which is what `s.split(c).next()` yields.
pub open spec fn before_first(s: Seq<char>, c: char) -> Seq<char>
    decreases s.len(),
{
    if s.len() == 0 {
        s
    } else if s[0] == c {
        Seq::empty()
    } else {
        seq![s[0]] + before_first(s.drop_first(), c)
    }
}

proof fn lemma_after_last_at(s: Seq<char>, c: char, a: int)
    requires
        0 <= a <= s.len(),
        forall|k: int| a <= k < s.len() ==> #[trigger] s[k] != c,
        a == 0 || s[a - 1] == c,
    ensures
        after_last(s, c) == s.subrange(a, s.len() as int),
    decreases s.len() - a,
{
    if a == s.len() {
        if a > 0 {
            assert(s.last() == c);
        }
    } else {
        let t = s.drop_last();
        lemma_after_last_at(t, c, a);
        assert(s.subrange(a, s.len() as int) == t.subrange(a, t.len() as int).push(s.last()));
    }
}

proof fn lemma_before_first_at(s: Seq<char>, c: char, b: int)
    requires
        0 <= b <= s.len(),
        forall|k: int| 0 <= k < b ==> #[trigger] s[k] != c,
        b == s.len() || s[b] == c,
    ensures
        before_first(s, c) == s.take(b),
    decreases b,
{
    if b == 0 {
    } else {
        let t = s.drop_first();
        assert forall|k: int| 0 <= k < b - 1 implies #[trigger] t[k] != c by {
            assert(t[k] == s[k + 1]);
        }
        lemma_before_first_at(t, c, b - 1);
        assert(s.take(b) == seq![s[0]] + t.take(b - 1));
    }
}

/// The characters of `v` after the last `c`.
pub fn after_last_chars(v: &Vec<char>, c: char) -> (r: Vec<char>)
    ensures
        r@ == after_last(v@, c),
{
    let mut a: usize = v.len();
    while a > 0 && v[a - 1] != c
        invariant
            a <= v.len(),
            forall|k: int| a <= k < v.len() ==> #[trigger] v@[k] != c,
        decreases a,
    {
        a -= 1;
    }
    proof {
        lemma_after_last_at(v@, c, a as int);
    }
    sub_chars(v, a, v.len())
}

/// `s.rsplit(c).next().unwrap_or("")`: the part of `s` after the last `c`.
pub fn after_last_str(s: &str, c: char) -> (r: String)
    ensures
        r@ == after_last(s@, c),
{
    let v = chars_of(s);
    let t = after_last_chars(&v, c);
    string_of(t.as_slice())
}

/// `s.split(c).next()`: the part of `s` before the first `c`.
pub fn before_first_str(s: &str, c: char) -> (r: String)
    ensures
        r@ == before_first(s@, c),
{
    let v = chars_of(s);
    let mut b: usize = 0;
    while b < v.len() && v[b] != c
        invariant
            b <= v.len(),
            forall|k: int| 0 <= k < b ==> #[trigger] v@[k] != c,
        decreases v.len() - b,
    {
        b += 1;
    }
    proof {
        lemma_before_first_at(v@, c, b as int);
    }
    let t = sub_chars(&v, 0, b);
    assert(t@ == v@.take(b as int));
    string_of(t.as_slice())
}

/// The concatenation of two strings.
pub fn concat_str(a: &str, b: &str) -> (r: String)
    ensures
        r@ == a@ + b@,
{
    let mut r = String::from_str(a);
    r.append(b);
    r
}

/// The concatenation of three strings.
pub fn concat3(a: &str, b: &str, c: &str) -> (r: String)
    ensures
        r@ == a@ + b@ + c@,
{
    let mut r = String::from_str(a);
    r.append(b);
    r.append(c);
    r
}


/// Splitting `s` at the positions `sep` marks, after its first `n` characters:
/// the fields completed so far and the field being read.
pub open spec fn fields_state(s: Seq<char>, sep: spec_fn(int) -> bool, n: int) -> (
    Seq<Seq<char>>,
    Seq<char>,
)
    decreases n,
{
    if n <= 0 {
        (Seq::empty(), Seq::empty())
    } else {
        let prev = fields_state(s, sep, n - 1);
        if sep(n - 1) {
            if prev.1.len() > 0 {
                (prev.0.push(prev.1), Seq::empty())
            } else {
                prev
            }
        } else {
            (prev.0, prev.1.push(s[n - 1]))
        }
    }
}

/// The non-empty maximal runs of characters of `s` at positions that `sep` does not mark.
pub open spec fn fields(s: Seq<char>, sep: spec_fn(int) -> bool) -> Seq<Seq<char>> {
    let st = fields_state(s, sep, s.len() as int);
    if st.1.len() > 0 {
        st.0.push(st.1)
    } else {
        st.0
    }
}

/// The positions of `s` that hold white space.
pub open spec fn ws_positions(s: Seq<char>) -> spec_fn(int) -> bool {
    |i: int| is_ws(s[i])
}

/// What `str::split_whitespace` yields.
pub open spec fn words(s: Seq<char>) -> Seq<Seq<char>> {
    fields(s, ws_positions(s))
}

/// The views of a vector of character vectors.
pub open spec fn views_of(v: Seq<Vec<char>>) -> Seq<Seq<char>> {
    v.map_values(|w: Vec<char>| w@)
}

/// The views of a vector of strings.
pub open spec fn string_views(v: Seq<String>) -> Seq<Seq<char>> {
    v.map_values(|w: String| w@)
}

/// `str::split_whitespace`, collected.
pub fn split_words(v: &Vec<char>) -> (r: Vec<Vec<char>>)
    ensures
        views_of(r@) == words(v@),
{
    let ghost sep = ws_positions(v@);
    let mut done: Vec<Vec<char>> = Vec::new();
    let mut cur: Vec<char> = Vec::new();
    let mut i: usize = 0;
    while i < v.len()
        invariant
            i <= v.len(),
            sep == ws_positions(v@),
            (views_of(done@), cur@) == fields_state(v@, sep, i as int),
        decreases v.len() - i,
    {
        let ghost prev_done = views_of(done@);
        if is_whitespace(v[i]) {
            if cur.len() > 0 {
                let w = cur;
                done.push(w);
                cur = Vec::new();
                assert(views_of(done@) == prev_done.push(w@));
            }
        } else {
            cur.push(v[i]);
        }
        i += 1;
    }
    if cur.len() > 0 {
        let ghost prev_done = views_of(done@);
        let w = cur;
        done.push(w);
        assert(views_of(done@) == prev_done.push(w@));
    }
    done
}

/// `parts` joined with `sep` between consecutive parts, as `[_]::join` does.
pub open spec fn join_with(parts: Seq<Seq<char>>, sep: Seq<char>) -> Seq<char>
    decreases parts.len(),
{
    if parts.len() == 0 {
        Seq::empty()
    } else if parts.len() == 1 {
        parts[0]
    } else {
        join_with(parts.drop_last(), sep) + sep + parts.last()
    }
}

/// `parts.join(sep)`.
pub fn join_strings(parts: &Vec<String>, sep: &str) -> (r: String)
    ensures
        r@ == join_with(string_views(parts@), sep@),
{
    let ghost views = string_views(parts@);
    let mut r = String::new();
    let mut i: usize = 0;
    while i < parts.len()
        invariant
            i <= parts.len(),
            views == string_views(parts@),
            r@ == join_with(views.take(i as int), sep@),
        decreases parts.len() - i,
    {
        assert(views.take(i + 1).drop_last() == views.take(i as int));
        if i > 0 {
            r.append(sep);
        }
        r.append(parts[i].as_str());
        i += 1;
    }
    assert(views.take(parts.len() as int) == views);
    r
}

/// The decimal digit `d` as a character.
pub open spec fn digit_char(d: int) -> char {
    if d == 0 {
        '0'
    } else if d == 1 {
        '1'
    } else if d == 2 {
        '2'
    } else if d == 3 {
        '3'
    } else if d == 4 {
        '4'
    } else if d == 5 {
        '5'
    } else if d == 6 {
        '6'
    } else if d == 7 {
        '7'
    } else if d == 8 {
        '8'
    } else {
        '9'
    }
}

/// The decimal representation of `n`, as `Display` writes an unsigned integer.
pub open spec fn decimal(n: nat) -> Seq<char>
    decreases n,
{
    if n < 10 {
        seq![digit_char(n as int)]
    } else {
        decimal(n / 10).push(digit_char((n % 10) as int))
    }
}

/// The decimal representation of `n`, as `Display` writes a signed integer.
pub open spec fn signed_decimal(n: int) -> Seq<char> {
    if n < 0 {
        seq!['-'] + decimal((-n) as nat)
    } else {
        decimal(n as nat)
    }
}

fn digit(d: u64) -> (c: char)
    requires
        d < 10,
    ensures
        c == digit_char(d as int),
{
    if d == 0 {
        '0'
    } else if d == 1 {
        '1'
    } else if d == 2 {
        '2'
    } else if d == 3 {
        '3'
    } else if d == 4 {
        '4'
    } else if d == 5 {
        '5'
    } else if d == 6 {
        '6'
    } else if d == 7 {
        '7'
    } else if d == 8 {
        '8'
    } else {
        '9'
    }
}

fn push_decimal(n: u64, out: &mut String)
    ensures
        final(out)@ == old(out)@ + decimal(n as nat),
    decreases n,
{
    if n >= 10 {
        push_decimal(n / 10, out);
    }
    push_char(out, digit(n % 10));
}

/// The decimal text of an unsigned integer.
pub fn u64_text(n: u64) -> (r: String)
    ensures
        r@ == decimal(n as nat),
{
    let mut r = String::new();
    push_decimal(n, &mut r);
    r
}

/// The decimal text of a signed integer.
pub fn i32_text(n: i32) -> (r: String)
    ensures
        r@ == signed_decimal(n as int),
{
    let mut r = String::new();
    if n < 0 {
        push_char(&mut r, '-');
        let m: i64 = -(n as i64);
        push_decimal(m as u64, &mut r);
    } else {
        push_decimal(n as u64, &mut r);
    }
    r
}

/// The length in bytes of the UTF-8 encoding of `s`, which is what `str::len` returns.
pub open spec fn utf8_len(s: Seq<char>) -> nat {
    encode_utf8(s).len()
}

/// The length in bytes of the UTF-8 encoding of `c`.
pub open spec fn char_width(c: char) -> nat {
    encode_scalar(c as u32).len()
}

proof fn lemma_encode_utf8_append(a: Seq<char>, b: Seq<char>)
    ensures
        encode_utf8(a + b) == encode_utf8(a) + encode_utf8(b),
    decreases a.len(),
{
    if a.len() == 0 {
        assert(a + b == b);
    } else {
        assert((a + b).drop_first() == a.drop_first() + b);
        lemma_encode_utf8_append(a.drop_first(), b);
    }
}

/// The byte length of a sequence with one more character.
pub proof fn lemma_utf8_len_push(s: Seq<char>, c: char)
    ensures
        utf8_len(s.push(c)) == utf8_len(s) + char_width(c),
{
    lemma_encode_utf8_append(s, seq![c]);
    assert(s + seq![c] == s.push(c));
    assert(seq![c].drop_first() == Seq::<char>::empty());
    assert(encode_utf8(Seq::<char>::empty()) == Seq::<u8>::empty());
    assert(encode_utf8(seq![c]) == encode_scalar(c as u32) + encode_utf8(Seq::<char>::empty()));
    assert(encode_scalar(c as u32) + Seq::<u8>::empty() == encode_scalar(c as u32));
}

/// Byte lengths grow strictly with the number of characters.
pub proof fn lemma_utf8_len_take_mono(s: Seq<char>, i: int, j: int)
    requires
        0 <= i < j <= s.len(),
    ensures
        utf8_len(s.take(i)) < utf8_len(s.take(j)),
    decreases j - i,
{
    lemma_char_width_pos(s[j - 1]);
    assert(s.take(j) == s.take(j - 1).push(s[j - 1]));
    lemma_utf8_len_push(s.take(j - 1), s[j - 1]);
    if i < j - 1 {
        lemma_utf8_len_take_mono(s, i, j - 1);
    }
}

/// Every character takes one to four bytes.
pub proof fn lemma_char_width_pos(c: char)
    ensures
        1 <= char_width(c) <= 4,
{
    char_is_scalar(c);
}

/// The number of bytes of the UTF-8 encoding of a character.
pub fn utf8_width(c: char) -> (w: usize)
    ensures
        w == char_width(c),
        1 <= w <= 4,
{
    proof {
        char_is_scalar(c);
    }
    let u: u32 = c as u32;
    if u <= 0x7F {
        1
    } else if u <= 0x7FF {
        2
    } else if u <= 0xFFFF {
        3
    } else {
        4
    }
}

/// Byte offset `b` of the UTF-8 encoding of `s` falls between two characters.
pub open spec fn is_boundary(s: Seq<char>, b: int) -> bool {
    exists|k: int| 0 <= k <= s.len() && utf8_len(s.take(k)) == b
}

/// The number of characters that make up the first `b` bytes of `s`, where
/// `b` is a boundary.
pub open spec fn chars_in_bytes(s: Seq<char>, b: int) -> int {
    choose|k: int| 0 <= k <= s.len() && utf8_len(s.take(k)) == b
}

/// The characters of the first `b` bytes of `s`: `&s[..b]`.
pub open spec fn byte_prefix(s: Seq<char>, b: int) -> Seq<char> {
    s.take(chars_in_bytes(s, b))
}

/// The characters after the first `b` bytes of `s`: `&s[b..]`.
pub open spec fn byte_suffix(s: Seq<char>, b: int) -> Seq<char> {
    s.skip(chars_in_bytes(s, b))
}

proof fn lemma_chars_in_bytes_unique(s: Seq<char>, b: int, k: int)
    requires
        0 <= k <= s.len(),
        utf8_len(s.take(k)) == b,
    ensures
        is_boundary(s, b),
        chars_in_bytes(s, b) == k,
{
    let c = chars_in_bytes(s, b);
    if c < k {
        lemma_utf8_len_take_mono(s, c, k);
    } else if k < c {
        lemma_utf8_len_take_mono(s, k, c);
    }
}

/// The number of characters in the first `b` bytes of `v`, when byte `b` is a
/// boundary between characters.
pub fn boundary_index(v: &Vec<char>, b: u128) -> (r: Option<usize>)
    ensures
        r is Some <==> is_boundary(v@, b as int),
        r matches Some(k) ==> k <= v.len() && k == chars_in_bytes(v@, b as int),
{
    let mut k: usize = 0;
    let mut acc: u128 = 0;
    assert(v@.take(0) == Seq::<char>::empty());
    while acc < b && k < v.len()
        invariant
            k <= v.len(),
            acc == utf8_len(v@.take(k as int)),
            acc <= 4 * k,
            forall|j: int| 0 <= j < k ==> utf8_len(v@.take(j)) < b,
        decreases v.len() - k,
    {
        let w: usize = utf8_width(v[k]);
        proof {
            assert(v@.take(k + 1) == v@.take(k as int).push(v@[k as int]));
            lemma_utf8_len_push(v@.take(k as int), v@[k as int]);
        }
        acc = acc + w as u128;
        k += 1;
    }
    if acc == b {
        proof {
            lemma_chars_in_bytes_unique(v@, b as int, k as int);
        }
        Some(k)
    } else {
        proof {
            assert forall|j: int| 0 <= j <= v.len() implies utf8_len(v@.take(j)) != b by {
                if j < k {
                } else if j > k {
                    lemma_utf8_len_take_mono(v@, k as int, j);
                }
            }
        }
        None
    }
}

/// The number of bytes of the UTF-8 encoding of `v`.
pub fn byte_len(v: &Vec<char>) -> (r: u128)
    ensures
        r == utf8_len(v@),
{
    let mut k: usize = 0;
    let mut acc: u128 = 0;
    assert(v@.take(0) == Seq::<char>::empty());
    while k < v.len()
        invariant
            k <= v.len(),
            acc == utf8_len(v@.take(k as int)),
            acc <= 4 * k,
        decreases v.len() - k,
    {
        let w: usize = utf8_width(v[k]);
        proof {
            assert(v@.take(k + 1) == v@.take(k as int).push(v@[k as int]));
            lemma_utf8_len_push(v@.take(k as int), v@[k as int]);
        }
        acc = acc + w as u128;
        k += 1;
    }
    assert(v@.take(v.len() as int) == v@);
    acc
}

/// A sequence of ASCII characters takes one byte per character.
pub proof fn lemma_ascii_len(s: Seq<char>)
    requires
        forall|i: int| 0 <= i < s.len() ==> (#[trigger] s[i] as u32) < 0x80,
    ensures
        utf8_len(s) == s.len(),
    decreases s.len(),
{
    if s.len() > 0 {
        let t = s.drop_last();
        assert forall|i: int| 0 <= i < t.len() implies (#[trigger] t[i] as u32) < 0x80 by {
            assert(t[i] == s[i]);
        }
        lemma_ascii_len(t);
        assert(s == t.push(s.last()));
        lemma_utf8_len_push(t, s.last());
        assert((s[s.len() - 1] as u32) < 0x80);
    }
}


proof fn lemma_trim_start_head(s: Seq<char>, cls: CharClass)
    ensures
        trim_start_by(s, cls).len() == 0 || !cls.has(trim_start_by(s, cls)[0]),
        trim_start_by(s, cls).len() <= s.len(),
        trim_start_by(s, cls) == s.skip(s.len() - trim_start_by(s, cls).len()),
    decreases s.len(),
{
    if s.len() > 0 && cls.has(s[0]) {
        lemma_trim_start_head(s.drop_first(), cls);
        let t = trim_start_by(s.drop_first(), cls);
        assert(s.drop_first().skip(s.drop_first().len() - t.len()) == s.skip(s.len() - t.len()));
    } else {
        assert(s.skip(0) == s);
    }
}

proof fn lemma_trim_end_tail(s: Seq<char>, cls: CharClass)
    ensures
        trim_end_by(s, cls).len() == 0 || !cls.has(trim_end_by(s, cls).last()),
        trim_end_by(s, cls).len() <= s.len(),
        trim_end_by(s, cls) == s.take(trim_end_by(s, cls).len() as int),
    decreases s.len(),
{
    if s.len() > 0 && cls.has(s.last()) {
        lemma_trim_end_tail(s.drop_last(), cls);
        let t = trim_end_by(s.drop_last(), cls);
        assert(s.drop_last().take(t.len() as int) == s.take(t.len() as int));
    } else {
        assert(s.take(s.len() as int) == s);
    }
}

proof fn lemma_trim_start_noop(s: Seq<char>, cls: CharClass)
    requires
        s.len() == 0 || !cls.has(s[0]),
    ensures
        trim_start_by(s, cls) == s,
{
}

proof fn lemma_trim_end_noop(s: Seq<char>, cls: CharClass)
    requires
        s.len() == 0 || !cls.has(s.last()),
    ensures
        trim_end_by(s, cls) == s,
{
}

/// Trimming twice is trimming once.
pub proof fn lemma_trim_idempotent(s: Seq<char>, cls: CharClass)
    ensures
        trim_by(trim_by(s, cls), cls) == trim_by(s, cls),
{
    let a = trim_start_by(s, cls);
    lemma_trim_start_head(s, cls);
    let t = trim_end_by(a, cls);
    lemma_trim_end_tail(a, cls);
    if t.len() > 0 {
        assert(t == a.take(t.len() as int));
        assert(t[0] == a[0]);
    }
    lemma_trim_start_noop(t, cls);
    lemma_trim_end_noop(t, cls);
}

/// Trimming keeps no character that the input lacks.
pub proof fn lemma_trim_keeps_absent(s: Seq<char>, cls: CharClass, c: char)
    requires
        forall|i: int| 0 <= i < s.len() ==> #[trigger] s[i] != c,
    ensures
        forall|i: int| 0 <= i < trim_by(s, cls).len() ==> #[trigger] trim_by(s, cls)[i] != c,
{
    let a = trim_start_by(s, cls);
    lemma_trim_start_head(s, cls);
    lemma_trim_end_tail(a, cls);
    let t = trim_by(s, cls);
    assert forall|i: int| 0 <= i < t.len() implies #[trigger] t[i] != c by {
        assert(t == a.take(t.len() as int));
        assert(t[i] == a[i]);
        let k = s.len() - a.len();
        assert(a == s.skip(k));
        assert(s.skip(k)[i] == s[i + k]);
    }
}

/// The part before the first `c` holds no `c`.
pub proof fn lemma_before_first_lacks(s: Seq<char>, c: char)
    ensures
        forall|i: int| 0 <= i < before_first(s, c).len() ==> #[trigger] before_first(s, c)[i] != c,
    decreases s.len(),
{
    if s.len() > 0 && s[0] != c {
        lemma_before_first_lacks(s.drop_first(), c);
        let t = before_first(s.drop_first(), c);
        assert forall|i: int| 0 <= i < before_first(s, c).len() implies #[trigger] before_first(s, c)[i]
            != c by {
            if i > 0 {
                assert(before_first(s, c)[i] == t[i - 1]);
            }
        }
    }
}

/// Every field is non-empty.
pub proof fn lemma_fields_nonempty(s: Seq<char>, sep: spec_fn(int) -> bool)
    ensures
        forall|i: int| 0 <= i < fields(s, sep).len() ==> (#[trigger] fields(s, sep)[i]).len() > 0,
{
    lemma_fields_state_nonempty(s, sep, s.len() as int);
    let st = fields_state(s, sep, s.len() as int);
    if st.1.len() > 0 {
        assert forall|i: int| 0 <= i < fields(s, sep).len() implies (#[trigger] fields(s, sep)[i]).len() > 0 by {
            if i < st.0.len() {
                assert(fields(s, sep)[i] == st.0[i]);
            }
        }
    }
}

proof fn lemma_fields_state_nonempty(s: Seq<char>, sep: spec_fn(int) -> bool, n: int)
    ensures
        forall|i: int|
            0 <= i < fields_state(s, sep, n).0.len() ==> (#[trigger] fields_state(s, sep, n).0[i]).len()
                > 0,
    decreases n,
{
    if n > 0 {
        lemma_fields_state_nonempty(s, sep, n - 1);
        let prev = fields_state(s, sep, n - 1);
        let cur = fields_state(s, sep, n);
        if sep(n - 1) && prev.1.len() > 0 {
            assert(cur.0 == prev.0.push(prev.1));
            assert forall|i: int| 0 <= i < cur.0.len() implies (#[trigger] cur.0[i]).len() > 0 by {
                if i < prev.0.len() {
                    assert(cur.0[i] == prev.0[i]);
                }
            }
        } else {
            assert(cur.0 == prev.0);
        }
    }
}

/// Lowercasing ASCII text goes character by character: it distributes over
/// concatenation, and the result is ASCII text again.
pub proof fn lemma_ascii_lower_concat(a: Seq<char>, b: Seq<char>)
    requires
        is_ascii_text(a),
        is_ascii_text(b),
    ensures
        is_ascii_text(a + b),
        lowercase_of(a + b) == lowercase_of(a) + lowercase_of(b),
{
    assert forall|i: int| 0 <= i < (a + b).len() implies ((#[trigger] (a + b)[i]) as u32) < 0x80 by {
        if i < a.len() {
            assert((a + b)[i] == a[i]);
        } else {
            assert((a + b)[i] == b[i - a.len()]);
        }
    }
    assert(ascii_lower_text(a + b) =~= ascii_lower_text(a) + ascii_lower_text(b));
}

/// A text that occurs in `h` occurs in `a + h + z`.
pub proof fn lemma_contains_within(a: Seq<char>, h: Seq<char>, z: Seq<char>, n: Seq<char>)
    requires
        contains_seq(h, n),
    ensures
        contains_seq(a + h + z, n),
{
    let i = choose|i: int| occurs_at(h, n, i);
    let j = i + a.len();
    assert((a + h + z).subrange(j, j + n.len()) =~= h.subrange(i, i + n.len()));
    assert(occurs_at(a + h + z, n, j));
}

/// Parts joined with a separator, all ASCII, make ASCII text.
pub proof fn lemma_join_ascii(parts: Seq<Seq<char>>, sep: Seq<char>)
    requires
        forall|i: int| 0 <= i < parts.len() ==> is_ascii_text(#[trigger] parts[i]),
        is_ascii_text(sep),
    ensures
        is_ascii_text(join_with(parts, sep)),
    decreases parts.len(),
{
    if parts.len() > 1 {
        let init = parts.drop_last();
        assert forall|i: int| 0 <= i < init.len() implies is_ascii_text(#[trigger] init[i]) by {
            assert(init[i] == parts[i]);
        }
        lemma_join_ascii(init, sep);
        lemma_ascii_lower_concat(join_with(init, sep), sep);
        assert(is_ascii_text(parts[parts.len() - 1]));
        lemma_ascii_lower_concat(join_with(init, sep) + sep, parts.last());
    } else if parts.len() == 1 {
        assert(is_ascii_text(parts[0]));
    }
}

/// Joining one more part appends the separator and the part.
pub proof fn lemma_join_push(parts: Seq<Seq<char>>, x: Seq<char>, sep: Seq<char>)
    ensures
        join_with(parts.push(x), sep) == if parts.len() == 0 {
            x
        } else {
            join_with(parts, sep) + sep + x
        },
{
    assert(parts.push(x).drop_last() =~= parts);
    if parts.len() == 0 {
        assert(parts.push(x)[0] == x);
    }
}

/// Trimmed text starts and ends with a character that is not white space.
pub proof fn lemma_trim_ends(s: Seq<char>)
    ensures
        trim(s).len() > 0 ==> !is_ws(trim(s)[0]) && !is_ws(trim(s).last()),
{
    let cls = CharClass::Whitespace;
    let a = trim_start_by(s, cls);
    lemma_trim_start_head(s, cls);
    let t = trim_end_by(a, cls);
    lemma_trim_end_tail(a, cls);
    if t.len() > 0 {
        assert(t == a.take(t.len() as int));
        assert(t[0] == a[0]);
    }
}

/// Text that neither starts nor ends with white space is its own trim.
pub proof fn lemma_trim_unpadded(s: Seq<char>)
    requires
        s.len() > 0 ==> !is_ws(s[0]) && !is_ws(s.last()),
    ensures
        trim(s) == s,
{
    lemma_trim_start_noop(s, CharClass::Whitespace);
    lemma_trim_end_noop(s, CharClass::Whitespace);
}

/// In ASCII text every character takes one byte, so the first `b` bytes are
/// the first `b` characters.
pub proof fn lemma_ascii_byte_prefix(s: Seq<char>, b: int)
    requires
        is_ascii_text(s),
        0 <= b <= s.len(),
    ensures
        is_boundary(s, b),
        byte_prefix(s, b) == s.take(b),
        utf8_len(s) == s.len(),
{
    let t = s.take(b);
    assert forall|i: int| 0 <= i < t.len() implies (#[trigger] t[i] as u32) < 0x80 by {
        assert(t[i] == s[i]);
    }
    lemma_ascii_len(t);
    lemma_ascii_len(s);
    lemma_chars_in_bytes_unique(s, b, b);
}

} // verus!
