//! Ordering, stable sorting and de-duplication of items by text keys.
use vstd::prelude::*;

verus! {

broadcast use vstd::seq_lib::group_to_multiset_ensures;

/// Lexicographic order of character sequences by code point, which is the
/// order `String`'s `Ord` gives (UTF-8 preserves code point order).
pub open spec fn lex_lt(a: Seq<char>, b: Seq<char>) -> bool
    decreases a.len(),
{
    if a.len() == 0 {
        b.len() > 0
    } else if b.len() == 0 {
        false
    } else if a[0] != b[0] {
        (a[0] as u32) < (b[0] as u32)
    } else {
        lex_lt(a.drop_first(), b.drop_first())
    }
}

/// `a` comes before `b` or equals it.
pub open spec fn lex_le(a: Seq<char>, b: Seq<char>) -> bool {
    lex_lt(a, b) || a == b
}

/// No sequence comes before itself.
pub proof fn lemma_lex_irreflexive(a: Seq<char>)
    ensures
        !lex_lt(a, a),
    decreases a.len(),
{
    if a.len() > 0 {
        lemma_lex_irreflexive(a.drop_first());
    }
}

/// Of two different sequences, one comes before the other, and not both ways.
pub proof fn lemma_lex_total(a: Seq<char>, b: Seq<char>)
    ensures
        a != b ==> (lex_lt(a, b) || lex_lt(b, a)),
        !(lex_lt(a, b) && lex_lt(b, a)),
    decreases a.len(),
{
    if a.len() > 0 && b.len() > 0 {
        if a[0] == b[0] {
            lemma_lex_total(a.drop_first(), b.drop_first());
            if a != b {
                assert(a == seq![a[0]] + a.drop_first());
                assert(b == seq![b[0]] + b.drop_first());
            }
        } else {
            char_u32_distinct(a[0], b[0]);
        }
    } else if a.len() == 0 && b.len() == 0 {
        assert(a == b);
    }
}

proof fn char_u32_distinct(x: char, y: char)
    requires
        x != y,
    ensures
        (x as u32) != (y as u32),
{
    vstd::utf8::char_u32_cast(x, x as u32);
    vstd::utf8::char_u32_cast(y, y as u32);
}

/// The order is transitive.
pub proof fn lemma_lex_transitive(a: Seq<char>, b: Seq<char>, c: Seq<char>)
    requires
        lex_lt(a, b),
        lex_lt(b, c),
    ensures
        lex_lt(a, c),
    decreases a.len(),
{
    if a.len() > 0 && b.len() > 0 && c.len() > 0 {
        if a[0] == b[0] && b[0] == c[0] {
            lemma_lex_transitive(a.drop_first(), b.drop_first(), c.drop_first());
        }
    }
}

/// Whether `a` comes before `b`.
pub fn key_less(a: &Vec<char>, b: &Vec<char>) -> (r: bool)
    ensures
        r == lex_lt(a@, b@),
{
    let mut i: usize = 0;
    assert(a@.skip(0) == a@);
    assert(b@.skip(0) == b@);
    loop
        invariant
            i <= a.len(),
            i <= b.len(),
            lex_lt(a@, b@) == lex_lt(a@.skip(i as int), b@.skip(i as int)),
        decreases a.len() - i,
    {
        if i == a.len() {
            return i < b.len();
        }
        if i == b.len() {
            return false;
        }
        if a[i] != b[i] {
            return (a[i] as u32) < (b[i] as u32);
        }
        assert(a@.skip(i as int).drop_first() == a@.skip(i + 1));
        assert(b@.skip(i as int).drop_first() == b@.skip(i + 1));
        i += 1;
    }
}

/// Whether two character vectors are equal.
pub fn same_chars(a: &Vec<char>, b: &Vec<char>) -> (r: bool)
    ensures
        r == (a@ == b@),
{
    if a.len() != b.len() {
        return false;
    }
    let mut i: usize = 0;
    while i < a.len()
        invariant
            a.len() == b.len(),
            i <= a.len(),
            forall|j: int| 0 <= j < i ==> a@[j] == b@[j],
        decreases a.len() - i,
    {
        if a[i] != b[i] {
            return false;
        }
        i += 1;
    }
    assert(a@ =~= b@);
    true
}

/// The items of `s` whose key is `k`, in order.
pub open spec fn select_key<T>(s: Seq<T>, kf: spec_fn(T) -> Seq<char>, k: Seq<char>) -> Seq<T>
    decreases s.len(),
{
    if s.len() == 0 {
        Seq::empty()
    } else if kf(s.last()) == k {
        select_key(s.drop_last(), kf, k).push(s.last())
    } else {
        select_key(s.drop_last(), kf, k)
    }
}

/// The items of `s` are in order of their keys.
pub open spec fn sorted_by<T>(s: Seq<T>, kf: spec_fn(T) -> Seq<char>) -> bool {
    forall|i: int, j: int| 0 <= i < j < s.len() ==> lex_le(kf(#[trigger] s[i]), kf(#[trigger] s[j]))
}

/// `pos` maps each position of `t` to a distinct position of `s` holding the same item.
pub open spec fn index_map<T>(pos: Seq<int>, t: Seq<T>, s: Seq<T>) -> bool {
    &&& pos.len() == t.len()
    &&& forall|i: int| 0 <= i < t.len() ==> 0 <= #[trigger] pos[i] < s.len() && t[i] == s[pos[i]]
    &&& forall|i: int, j: int| 0 <= i < j < t.len() ==> #[trigger] pos[i] != #[trigger] pos[j]
}

/// `t` is a stable sort of `s` by key: in key order, with the items of each
/// key in their input order.
pub open spec fn stable_sorted_from<T>(t: Seq<T>, s: Seq<T>, kf: spec_fn(T) -> Seq<char>) -> bool {
    &&& sorted_by(t, kf)
    &&& forall|k: Seq<char>| #[trigger] select_key(t, kf, k) == select_key(s, kf, k)
    &&& t.to_multiset() == s.to_multiset()
    &&& t.len() == s.len()
    &&& exists|pos: Seq<int>| index_map(pos, t, s)
}

proof fn lemma_select_insert<T>(s: Seq<T>, kf: spec_fn(T) -> Seq<char>, p: int, x: T, k: Seq<char>)
    requires
        0 <= p <= s.len(),
        forall|j: int| p <= j < s.len() ==> lex_lt(kf(x), kf(#[trigger] s[j])),
    ensures
        select_key(s.insert(p, x), kf, k) == if kf(x) == k {
            select_key(s, kf, k).push(x)
        } else {
            select_key(s, kf, k)
        },
    decreases s.len(),
{
    if p == s.len() {
        assert(s.insert(p, x) == s.push(x));
        assert(s.push(x).drop_last() == s);
    } else {
        let t = s.drop_last();
        assert forall|j: int| p <= j < t.len() implies lex_lt(kf(x), kf(#[trigger] t[j])) by {
            assert(t[j] == s[j]);
        }
        lemma_select_insert(t, kf, p, x, k);
        assert(s.insert(p, x) == t.insert(p, x).push(s.last()));
        assert(s.insert(p, x).drop_last() == t.insert(p, x));
        lemma_lex_irreflexive(kf(x));
        assert(lex_lt(kf(x), kf(s[s.len() - 1])));
    }
}

fn insert_position(keys: &Vec<Vec<char>>, k: &Vec<char>) -> (p: usize)
    ensures
        p <= keys.len(),
        forall|j: int| 0 <= j < p ==> !lex_lt(k@, (#[trigger] keys@[j])@),
        p < keys.len() ==> lex_lt(k@, keys@[p as int]@),
{
    let mut p: usize = 0;
    while p < keys.len() && !key_less(k, &keys[p])
        invariant
            p <= keys.len(),
            forall|j: int| 0 <= j < p ==> !lex_lt(k@, (#[trigger] keys@[j])@),
        decreases keys.len() - p,
    {
        p += 1;
    }
    p
}

/// Sorts `items` by their keys (`keys[i]` is the key of `items[i]`), keeping
/// items with equal keys in their input order.
pub(crate) fn stable_sort_by_key<T>(
    items: Vec<T>,
    keys: Vec<Vec<char>>,
    Ghost(kf): Ghost<spec_fn(T) -> Seq<char>>,
) -> (r: Vec<T>)
    requires
        items.len() == keys.len(),
        forall|i: int| 0 <= i < items.len() ==> (#[trigger] keys@[i])@ == kf(items@[i]),
    ensures
        stable_sorted_from(r@, items@, kf),
{
    let ghost orig = items@;
    let ghost orig_keys = keys@;
    let mut items = items;
    let mut keys = keys;
    let mut out: Vec<T> = Vec::new();
    let mut out_keys: Vec<Vec<char>> = Vec::new();
    let ghost mut n: int = 0;
    let ghost mut pos: Seq<int> = Seq::empty();
    assert(orig.take(0) == Seq::<T>::empty());
    while items.len() > 0
        invariant
            0 <= n <= orig.len(),
            items@ == orig.skip(n),
            keys@ == orig_keys.skip(n),
            orig.len() == orig_keys.len(),
            forall|i: int| 0 <= i < orig.len() ==> (#[trigger] orig_keys[i])@ == kf(orig[i]),
            out.len() == out_keys.len(),
            out.len() == n,
            index_map(pos, out@, orig.take(n)),
            forall|i: int| 0 <= i < out.len() ==> (#[trigger] out_keys@[i])@ == kf(out@[i]),
            sorted_by(out@, kf),
            forall|k: Seq<char>| #[trigger] select_key(out@, kf, k) == select_key(orig.take(n), kf, k),
            out@.to_multiset() == orig.take(n).to_multiset(),
        decreases items.len(),
    {
        let x = items.remove(0);
        let kx = keys.remove(0);
        assert(x == orig[n]);
        assert(kx == orig_keys[n]);
        let p = insert_position(&out_keys, &kx);
        let ghost old_out = out@;
        let ghost old_keys = out_keys@;
        proof {
            assert forall|j: int| p <= j < old_out.len() implies lex_lt(kf(x), kf(
                #[trigger] old_out[j],
            )) by {
                if j > p {
                    let a = kf(old_out[p as int]);
                    let b = kf(old_out[j]);
                    assert(lex_le(a, b));
                    if a != b {
                        lemma_lex_transitive(kf(x), a, b);
                    }
                }
                assert(out_keys@[j]@ == kf(old_out[j]));
            }
            assert forall|j: int| 0 <= j < p implies lex_le(kf(#[trigger] old_out[j]), kf(x)) by {
                assert(out_keys@[j]@ == kf(old_out[j]));
                lemma_lex_total(kf(x), kf(old_out[j]));
            }
            assert forall|k: Seq<char>| #[trigger] select_key(old_out.insert(p as int, x), kf, k)
                == select_key(orig.take(n + 1), kf, k) by {
                lemma_select_insert(old_out, kf, p as int, x, k);
                assert(orig.take(n + 1).drop_last() == orig.take(n));
                assert(orig.take(n + 1).last() == x);
            }
            assert(orig.take(n + 1) == orig.take(n).push(x));
        }
        out.insert(p, x);
        out_keys.insert(p, kx);
        proof {
            let new_out = out@;
            assert(new_out == old_out.insert(p as int, x));
            assert forall|i: int, j: int| 0 <= i < j < new_out.len() implies lex_le(
                kf(#[trigger] new_out[i]),
                kf(#[trigger] new_out[j]),
            ) by {
                if j < p {
                } else if j == p {
                } else if i < p {
                    // i before x, j after x
                    let a = kf(old_out[i]);
                    let b = kf(x);
                    let c = kf(old_out[j - 1]);
                    if a != b {
                        lemma_lex_total(a, b);
                        lemma_lex_transitive(a, b, c);
                    }
                } else if i == p {
                } else {
                    assert(new_out[i] == old_out[i - 1]);
                    assert(new_out[j] == old_out[j - 1]);
                }
            }
            assert forall|i: int| 0 <= i < out.len() implies (#[trigger] out_keys@[i])@ == kf(out@[i]) by {
                if i < p {
                } else if i == p {
                } else {
                    assert(out_keys@[i] == old_keys[i - 1]);
                }
            }
            let old_pos = pos;
            let new_pos = old_pos.insert(p as int, n);
            let s1 = orig.take(n + 1);
            assert forall|i: int| 0 <= i < new_out.len() implies 0 <= #[trigger] new_pos[i] < s1.len()
                && new_out[i] == s1[new_pos[i]] by {
                if i < p {
                    assert(new_pos[i] == old_pos[i]);
                    assert(new_out[i] == old_out[i]);
                } else if i == p {
                } else {
                    assert(new_pos[i] == old_pos[i - 1]);
                    assert(new_out[i] == old_out[i - 1]);
                }
            }
            assert forall|i: int, j: int| 0 <= i < j < new_out.len() implies #[trigger] new_pos[i]
                != #[trigger] new_pos[j] by {
                if i < p && j < p {
                    assert(new_pos[i] == old_pos[i] && new_pos[j] == old_pos[j]);
                } else if i < p && j == p {
                    assert(new_pos[i] == old_pos[i]);
                } else if i < p && j > p {
                    assert(new_pos[i] == old_pos[i] && new_pos[j] == old_pos[j - 1]);
                } else if i == p {
                    assert(new_pos[j] == old_pos[j - 1]);
                } else {
                    assert(new_pos[i] == old_pos[i - 1] && new_pos[j] == old_pos[j - 1]);
                }
            }
            assert(index_map(new_pos, new_out, s1));
            pos = new_pos;
            n = n + 1;
            assert(items@ == orig.skip(n));
        }
    }
    assert(orig.take(n) == orig);
    assert(index_map(pos, out@, orig));
    out
}

/// Some item of `s` has key `k`.
pub open spec fn has_key<T>(s: Seq<T>, kf: spec_fn(T) -> Seq<char>, k: Seq<char>) -> bool {
    exists|j: int| 0 <= j < s.len() && kf(#[trigger] s[j]) == k
}

/// Some item of `s` has key `k` and is preferred by `pf`.
pub open spec fn has_preferred<T>(
    s: Seq<T>,
    kf: spec_fn(T) -> Seq<char>,
    pf: spec_fn(T) -> bool,
    k: Seq<char>,
) -> bool {
    exists|j: int| 0 <= j < s.len() && kf(#[trigger] s[j]) == k && pf(s[j])
}

/// Position `i` holds the item kept for its key: the first preferred item of
/// that key where the key has one, else the first item of the key.
pub open spec fn is_kept<T>(s: Seq<T>, kf: spec_fn(T) -> Seq<char>, pf: spec_fn(T) -> bool, i: int) -> bool {
    let k = kf(s[i]);
    if has_preferred(s, kf, pf, k) {
        pf(s[i]) && forall|j: int| 0 <= j < i && kf(#[trigger] s[j]) == k ==> !pf(s[j])
    } else {
        forall|j: int| 0 <= j < i ==> kf(#[trigger] s[j]) != k
    }
}

/// The kept items among the first `n` positions of `s`, in order.
pub open spec fn kept_upto<T>(s: Seq<T>, kf: spec_fn(T) -> Seq<char>, pf: spec_fn(T) -> bool, n: int) -> Seq<T>
    decreases n,
{
    if n <= 0 {
        Seq::empty()
    } else if is_kept(s, kf, pf, n - 1) {
        kept_upto(s, kf, pf, n - 1).push(s[n - 1])
    } else {
        kept_upto(s, kf, pf, n - 1)
    }
}

/// One item per key, in input order: the first preferred item of the key
/// where there is one, else the first item of the key.
pub open spec fn keep_preferred<T>(s: Seq<T>, kf: spec_fn(T) -> Seq<char>, pf: spec_fn(T) -> bool) -> Seq<T> {
    kept_upto(s, kf, pf, s.len() as int)
}

/// Each kept item comes from a kept position, in increasing order of
/// position, and every kept position below `n` is represented.
proof fn lemma_kept_origin<T>(s: Seq<T>, kf: spec_fn(T) -> Seq<char>, pf: spec_fn(T) -> bool, n: int) -> (pos:
    Seq<int>)
    requires
        0 <= n <= s.len(),
    ensures
        pos.len() == kept_upto(s, kf, pf, n).len(),
        forall|i: int|
            0 <= i < pos.len() ==> 0 <= #[trigger] pos[i] < n && is_kept(s, kf, pf, pos[i])
                && kept_upto(s, kf, pf, n)[i] == s[pos[i]],
        forall|i: int, j: int| 0 <= i < j < pos.len() ==> #[trigger] pos[i] < #[trigger] pos[j],
        forall|m: int|
            0 <= m < n && is_kept(s, kf, pf, m) ==> exists|i: int| 0 <= i < pos.len() && #[trigger] pos[i] == m,
    decreases n,
{
    if n == 0 {
        Seq::empty()
    } else {
        let p = lemma_kept_origin(s, kf, pf, n - 1);
        let prev = kept_upto(s, kf, pf, n - 1);
        if is_kept(s, kf, pf, n - 1) {
            let q = p.push(n - 1);
            let cur = prev.push(s[n - 1]);
            assert(kept_upto(s, kf, pf, n) == cur);
            assert forall|i: int| 0 <= i < q.len() implies 0 <= #[trigger] q[i] < n && is_kept(s, kf, pf, q[i])
                && cur[i] == s[q[i]] by {
                if i < p.len() {
                    assert(q[i] == p[i]);
                    assert(cur[i] == prev[i]);
                }
            }
            assert forall|m: int| 0 <= m < n && is_kept(s, kf, pf, m) implies exists|i: int|
                0 <= i < q.len() && #[trigger] q[i] == m by {
                if m == n - 1 {
                    assert(q[p.len() as int] == m);
                } else {
                    let i = choose|i: int| 0 <= i < p.len() && #[trigger] p[i] == m;
                    assert(q[i] == p[i]);
                }
            }
            q
        } else {
            p
        }
    }
}

/// Two kept positions hold different keys.
proof fn lemma_kept_positions_differ<T>(
    s: Seq<T>,
    kf: spec_fn(T) -> Seq<char>,
    pf: spec_fn(T) -> bool,
    a: int,
    b: int,
)
    requires
        0 <= a < b < s.len(),
        is_kept(s, kf, pf, a),
        is_kept(s, kf, pf, b),
    ensures
        kf(s[a]) != kf(s[b]),
{
    if kf(s[a]) == kf(s[b]) {
        let k = kf(s[b]);
        if has_preferred(s, kf, pf, k) {
            assert(pf(s[a]));
            assert(0 <= a < b && kf(s[a]) == k);
        } else {
            assert(0 <= a < b && kf(s[a]) != k);
        }
    }
}

/// The first position from which an item satisfies `p`.
proof fn lemma_first_position<T>(s: Seq<T>, p: spec_fn(T) -> bool, j: int) -> (m: int)
    requires
        0 <= j < s.len(),
        p(s[j]),
    ensures
        0 <= m <= j,
        p(s[m]),
        forall|l: int| 0 <= l < m ==> !p(#[trigger] s[l]),
    decreases j,
{
    if exists|l: int| 0 <= l < j && p(#[trigger] s[l]) {
        let l = choose|l: int| 0 <= l < j && p(#[trigger] s[l]);
        lemma_first_position(s, p, l)
    } else {
        j
    }
}

/// No key occurs twice among the kept items.
pub proof fn lemma_keep_preferred_distinct<T>(s: Seq<T>, kf: spec_fn(T) -> Seq<char>, pf: spec_fn(T) -> bool)
    ensures
        forall|i: int, j: int|
            0 <= i < j < keep_preferred(s, kf, pf).len() ==> kf(#[trigger] keep_preferred(s, kf, pf)[i])
                != kf(#[trigger] keep_preferred(s, kf, pf)[j]),
{
    let r = keep_preferred(s, kf, pf);
    let pos = lemma_kept_origin(s, kf, pf, s.len() as int);
    assert forall|i: int, j: int| 0 <= i < j < r.len() implies kf(#[trigger] r[i]) != kf(#[trigger] r[j]) by {
        assert(pos[i] < pos[j]);
        lemma_kept_positions_differ(s, kf, pf, pos[i], pos[j]);
    }
}

/// The kept items have exactly the keys of the input, and are items of it.
pub proof fn lemma_keep_preferred_keys<T>(
    s: Seq<T>,
    kf: spec_fn(T) -> Seq<char>,
    pf: spec_fn(T) -> bool,
    k: Seq<char>,
)
    ensures
        has_key(keep_preferred(s, kf, pf), kf, k) == has_key(s, kf, k),
        forall|i: int| 0 <= i < keep_preferred(s, kf, pf).len() ==> s.contains(#[trigger] keep_preferred(s, kf, pf)[i]),
{
    let r = keep_preferred(s, kf, pf);
    let pos = lemma_kept_origin(s, kf, pf, s.len() as int);
    assert forall|i: int| 0 <= i < r.len() implies s.contains(#[trigger] r[i]) by {
        assert(s[pos[i]] == r[i]);
    }
    if has_key(r, kf, k) {
        let i = choose|i: int| 0 <= i < r.len() && kf(#[trigger] r[i]) == k;
        assert(s[pos[i]] == r[i]);
    }
    if has_key(s, kf, k) {
        let m = if has_preferred(s, kf, pf, k) {
            let j = choose|j: int| 0 <= j < s.len() && kf(#[trigger] s[j]) == k && pf(s[j]);
            let p = |x: T| kf(x) == k && pf(x);
            assert(p(s[j]));
            let m = lemma_first_position(s, p, j);
            assert forall|l: int| 0 <= l < m && kf(#[trigger] s[l]) == k implies !pf(s[l]) by {
                assert(!p(s[l]));
            }
            m
        } else {
            let j = choose|j: int| 0 <= j < s.len() && kf(#[trigger] s[j]) == k;
            let p = |x: T| kf(x) == k;
            assert(p(s[j]));
            let m = lemma_first_position(s, p, j);
            assert forall|l: int| 0 <= l < m implies kf(#[trigger] s[l]) != k by {
                assert(!p(s[l]));
            }
            m
        };
        assert(kf(s[m]) == k);
        assert(is_kept(s, kf, pf, m));
        let i = choose|i: int| 0 <= i < pos.len() && #[trigger] pos[i] == m;
        assert(r[i] == s[m]);
    }
}

/// Where some item of a key is preferred, the item kept for that key is preferred.
pub proof fn lemma_keep_preferred_prefers<T>(
    s: Seq<T>,
    kf: spec_fn(T) -> Seq<char>,
    pf: spec_fn(T) -> bool,
    k: Seq<char>,
)
    requires
        has_preferred(s, kf, pf, k),
    ensures
        forall|i: int|
            0 <= i < keep_preferred(s, kf, pf).len() && kf(#[trigger] keep_preferred(s, kf, pf)[i]) == k
                ==> pf(keep_preferred(s, kf, pf)[i]),
{
    let r = keep_preferred(s, kf, pf);
    let pos = lemma_kept_origin(s, kf, pf, s.len() as int);
    assert forall|i: int| 0 <= i < r.len() && kf(#[trigger] r[i]) == k implies pf(r[i]) by {
        assert(s[pos[i]] == r[i]);
        assert(is_kept(s, kf, pf, pos[i]));
    }
}

/// Whether position `i` holds the kept item of its key (`keys` and `prefs`
/// give the key and the preference of each item of `s`).
fn kept_at<T>(
    keys: &Vec<Vec<char>>,
    prefs: &Vec<bool>,
    i: usize,
    Ghost(s): Ghost<Seq<T>>,
    Ghost(kf): Ghost<spec_fn(T) -> Seq<char>>,
    Ghost(pf): Ghost<spec_fn(T) -> bool>,
) -> (r: bool)
    requires
        keys.len() == s.len(),
        prefs.len() == s.len(),
        i < s.len(),
        forall|j: int| 0 <= j < s.len() ==> (#[trigger] keys@[j])@ == kf(s[j]),
        forall|j: int| 0 <= j < s.len() ==> #[trigger] prefs@[j] == pf(s[j]),
    ensures
        r == is_kept(s, kf, pf, i as int),
{
    let ghost k = kf(s[i as int]);
    assert(keys@[i as int]@ == k);
    let mut any_pref = false;
    let mut earlier_same = false;
    let mut earlier_pref = false;
    let mut j: usize = 0;
    while j < keys.len()
        invariant
            keys.len() == s.len(),
            prefs.len() == s.len(),
            i < s.len(),
            j <= s.len(),
            k == kf(s[i as int]),
            keys@[i as int]@ == k,
            forall|l: int| 0 <= l < s.len() ==> (#[trigger] keys@[l])@ == kf(s[l]),
            forall|l: int| 0 <= l < s.len() ==> #[trigger] prefs@[l] == pf(s[l]),
            any_pref == exists|l: int| 0 <= l < j && kf(#[trigger] s[l]) == k && pf(s[l]),
            earlier_same == exists|l: int| 0 <= l < j && l < i && kf(#[trigger] s[l]) == k,
            earlier_pref == exists|l: int| 0 <= l < j && l < i && kf(#[trigger] s[l]) == k && pf(s[l]),
        decreases s.len() - j,
    {
        let same = same_chars(&keys[j], &keys[i]);
        assert(keys@[j as int]@ == kf(s[j as int]));
        assert(prefs@[j as int] == pf(s[j as int]));
        if same {
            if prefs[j] {
                any_pref = true;
                if j < i {
                    earlier_pref = true;
                }
            }
            if j < i {
                earlier_same = true;
            }
        }
        j += 1;
    }
    if any_pref {
        prefs[i] && !earlier_pref
    } else {
        !earlier_same
    }
}

/// Keeps one item per key (`keys[i]` is the key of `items[i]`, `prefs[i]`
/// whether it is preferred): the first preferred item of the key where there
/// is one, else the first item of the key; the kept items stay in input order.
pub(crate) fn keep_preferred_by_key<T>(
    items: Vec<T>,
    keys: Vec<Vec<char>>,
    prefs: Vec<bool>,
    Ghost(kf): Ghost<spec_fn(T) -> Seq<char>>,
    Ghost(pf): Ghost<spec_fn(T) -> bool>,
) -> (r: Vec<T>)
    requires
        items.len() == keys.len(),
        items.len() == prefs.len(),
        forall|i: int| 0 <= i < items.len() ==> (#[trigger] keys@[i])@ == kf(items@[i]),
        forall|i: int| 0 <= i < items.len() ==> #[trigger] prefs@[i] == pf(items@[i]),
    ensures
        r@ == keep_preferred(items@, kf, pf),
{
    let ghost orig = items@;
    let mut items = items;
    let mut out: Vec<T> = Vec::new();
    let n = keys.len();
    let mut i: usize = 0;
    while i < n
        invariant
            n == keys.len(),
            n == prefs.len(),
            n == orig.len(),
            i <= n,
            items@ == orig.skip(i as int),
            out@ == kept_upto(orig, kf, pf, i as int),
            forall|j: int| 0 <= j < orig.len() ==> (#[trigger] keys@[j])@ == kf(orig[j]),
            forall|j: int| 0 <= j < orig.len() ==> #[trigger] prefs@[j] == pf(orig[j]),
        decreases n - i,
    {
        let keep = kept_at::<T>(&keys, &prefs, i, Ghost(orig), Ghost(kf), Ghost(pf));
        let x = items.remove(0);
        assert(x == orig[i as int]);
        if keep {
            out.push(x);
        }
        assert(items@ == orig.skip(i + 1));
        i += 1;
    }
    out
}

} // verus!
