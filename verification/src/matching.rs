//! Filtering and ordering of picker items: case-insensitive matching of a
//! query against item names, and the stable order by name in which matches
//! are listed.

use vstd::prelude::*;
use vstd::utf8::encode_utf8;
use vstd::string::StringSliceAdditionalSpecFns;

use crate::text::{chars_of, contains_seq, find_from, find_seq, occurs_at, starts_with_seq};

verus! {

/// What `str::to_lowercase` returns for a text (full Unicode case
/// mapping, a function of the text alone).
pub uninterp spec fn lowercase(s: Seq<char>) -> Seq<char>;

/// `str::to_lowercase`. Claims: the result is `lowercase` of the input.
#[verifier::external_body]
pub(crate) fn to_lowercase(s: &str) -> (r: String)
    ensures
        r@ == lowercase(s@),
{
    s.to_lowercase()
}

/// How items are kept by a query.
#[derive(Clone, Copy, Debug, PartialEq, Eq, Structural)]
pub enum MatchHow {
    /// Every item.
    All,
    /// Items whose lowercase name contains the lowercase query.
    Contains,
    /// Items whose lowercase name starts with the lowercase query.
    Prefix,
}

/// Whether `item` is kept by query `q`.
pub open spec fn keeps(item: Seq<char>, q: Seq<char>, how: MatchHow) -> bool {
    match how {
        MatchHow::All => true,
        MatchHow::Contains => contains_seq(lowercase(item), lowercase(q)),
        MatchHow::Prefix => starts_with_seq(lowercase(item), lowercase(q)),
    }
}

/// Lexicographic order of byte strings (how `str` values are ordered).
pub open spec fn bytes_less(a: Seq<u8>, b: Seq<u8>) -> bool
    decreases a.len(),
{
    if a.len() == 0 {
        b.len() > 0
    } else if b.len() == 0 {
        false
    } else if a[0] < b[0] {
        true
    } else if a[0] > b[0] {
        false
    } else {
        bytes_less(a.drop_first(), b.drop_first())
    }
}

/// `a < b` for strings: comparison of their UTF-8 bytes.
pub open spec fn text_less(a: Seq<char>, b: Seq<char>) -> bool {
    bytes_less(encode_utf8(a), encode_utf8(b))
}

/// Insert index `x` into the list `s`, sorted by item name, after every
/// entry whose name is not greater (so equal names keep their order).
pub open spec fn insert_sorted(items: Seq<Seq<char>>, s: Seq<usize>, x: usize) -> Seq<usize>
    decreases s.len(),
{
    if s.len() == 0 {
        seq![x]
    } else if text_less(items[x as int], items[s[0] as int]) {
        seq![x] + s
    } else {
        seq![s[0]] + insert_sorted(items, s.drop_first(), x)
    }
}

/// Indices `0..n` of the items kept by the query, stably sorted by name.
pub open spec fn sorted_matches(items: Seq<Seq<char>>, q: Seq<char>, how: MatchHow, n: int) -> Seq<
    usize,
>
    decreases n,
{
    if n <= 0 {
        Seq::empty()
    } else {
        let prev = sorted_matches(items, q, how, n - 1);
        if keeps(items[n - 1], q, how) {
            insert_sorted(items, prev, (n - 1) as usize)
        } else {
            prev
        }
    }
}

/// All kept indices of the items, stably sorted by name.
pub open spec fn matches_of(items: Seq<Seq<char>>, q: Seq<char>, how: MatchHow) -> Seq<usize> {
    sorted_matches(items, q, how, items.len() as int)
}

pub open spec fn strings_view(v: Seq<String>) -> Seq<Seq<char>> {
    v.map_values(|s: String| s@)
}

/// Byte-wise lexicographic comparison.
fn bytes_less_exec(a: &[u8], b: &[u8]) -> (r: bool)
    ensures
        r == bytes_less(a@, b@),
{
    let mut i: usize = 0;
    assert(a@.skip(0) =~= a@);
    assert(b@.skip(0) =~= b@);
    while i < a.len() && i < b.len() && a[i] == b[i]
        invariant
            i <= a@.len(),
            i <= b@.len(),
            bytes_less(a@, b@) == bytes_less(a@.skip(i as int), b@.skip(i as int)),
        decreases a@.len() - i,
    {
        assert(a@.skip(i as int).drop_first() =~= a@.skip(i + 1));
        assert(b@.skip(i as int).drop_first() =~= b@.skip(i + 1));
        i = i + 1;
    }
    if i == a.len() {
        i < b.len()
    } else if i == b.len() {
        false
    } else {
        a[i] < b[i]
    }
}

/// `a < b` for strings.
pub fn text_less_exec(a: &String, b: &String) -> (r: bool)
    ensures
        r == text_less(a@, b@),
{
    bytes_less_exec(a.as_str().as_bytes(), b.as_str().as_bytes())
}

/// `insert_sorted` places `x` before the first entry whose name is greater.
proof fn lemma_insert_sorted(items: Seq<Seq<char>>, s: Seq<usize>, x: usize, p: int)
    requires
        0 <= p <= s.len(),
        forall|k: int| 0 <= k < p ==> !text_less(items[x as int], items[#[trigger] s[k] as int]),
        p < s.len() ==> text_less(items[x as int], items[s[p] as int]),
    ensures
        insert_sorted(items, s, x) == s.take(p) + seq![x] + s.skip(p),
    decreases s.len(),
{
    if s.len() == 0 {
        assert(s.take(p) + seq![x] + s.skip(p) =~= seq![x]);
    } else if p == 0 {
        assert(s.take(0) + seq![x] + s.skip(0) =~= seq![x] + s);
    } else {
        let t = s.drop_first();
        assert forall|k: int| 0 <= k < p - 1 implies !text_less(
            items[x as int],
            items[#[trigger] t[k] as int],
        ) by {
            assert(t[k] == s[k + 1]);
        }
        if p - 1 < t.len() {
            assert(t[p - 1] == s[p]);
        }
        lemma_insert_sorted(items, t, x, p - 1);
        assert(seq![s[0]] + (t.take(p - 1) + seq![x] + t.skip(p - 1)) =~= s.take(p) + seq![x]
            + s.skip(p));
    }
}

/// Insert index `x` into `m`, stably by item name.
fn insert_match(items: &Vec<String>, m: &mut Vec<usize>, x: usize)
    requires
        x < items@.len(),
        forall|k: int| 0 <= k < old(m)@.len() ==> #[trigger] old(m)@[k] < items@.len(),
    ensures
        final(m)@ == insert_sorted(strings_view(items@), old(m)@, x),
        forall|k: int| 0 <= k < final(m)@.len() ==> #[trigger] final(m)@[k] < items@.len(),
{
    let ghost iv = strings_view(items@);
    let mut p: usize = 0;
    while p < m.len() && !text_less_exec(&items[x], &items[m[p]])
        invariant
            iv == strings_view(items@),
            x < items@.len(),
            p <= m@.len(),
            m@ == old(m)@,
            forall|k: int| 0 <= k < m@.len() ==> #[trigger] m@[k] < items@.len(),
            forall|k: int| 0 <= k < p ==> !text_less(iv[x as int], iv[#[trigger] m@[k] as int]),
        decreases m@.len() - p,
    {
        p = p + 1;
    }
    proof {
        lemma_insert_sorted(iv, m@, x, p as int);
    }
    m.insert(p, x);
    assert(m@ =~= old(m)@.take(p as int) + seq![x] + old(m)@.skip(p as int));
    assert forall|k: int| 0 <= k < m@.len() implies #[trigger] m@[k] < items@.len() by {
        if k < p {
            assert(m@[k] == old(m)@[k]);
        } else if k > p {
            assert(m@[k] == old(m)@[k - 1]);
        }
    }
}

/// A search from `from` finds an occurrence exactly when one exists there
/// or later.
pub proof fn lemma_find_from_some(s: Seq<char>, p: Seq<char>, from: int)
    requires
        0 <= from,
    ensures
        (find_from(s, p, from) is Some) == (exists|i: int| from <= i && occurs_at(s, p, i)),
    decreases s.len() + 1 - from,
{
    if from + p.len() > s.len() {
        assert forall|i: int| from <= i implies !occurs_at(s, p, i) by {}
    } else if occurs_at(s, p, from) {
    } else {
        lemma_find_from_some(s, p, from + 1);
        assert forall|i: int| from <= i && occurs_at(s, p, i) implies from + 1 <= i by {}
    }
}

/// Whether `item` is kept by the (already lowercased) query `ql`.
fn keeps_exec(item: &String, ql: &Vec<char>, how: MatchHow, Ghost(q): Ghost<Seq<char>>) -> (r:
    bool)
    requires
        ql@ == lowercase(q),
    ensures
        r == keeps(item@, q, how),
{
    match how {
        MatchHow::All => true,
        MatchHow::Contains => {
            let il = chars_of(to_lowercase(item.as_str()).as_str());
            proof {
                lemma_find_from_some(il@, ql@, 0);
            }
            find_seq(il.as_slice(), ql.as_slice(), 0).is_some()
        },
        MatchHow::Prefix => {
            let il = chars_of(to_lowercase(item.as_str()).as_str());
            if ql.len() > il.len() {
                return false;
            }
            let mut k: usize = 0;
            while k < ql.len()
                invariant
                    il@ == lowercase(item@),
                    ql@ == lowercase(q),
                    how == MatchHow::Prefix,
                    ql@.len() <= il@.len(),
                    k <= ql@.len(),
                    forall|j: int| 0 <= j < k ==> il@[j] == ql@[j],
                decreases ql@.len() - k,
            {
                if il[k] != ql[k] {
                    assert(il@.take(ql@.len() as int)[k as int] != ql@[k as int]);
                    return false;
                }
                k = k + 1;
            }
            assert(il@.take(ql@.len() as int) =~= ql@);
            true
        },
    }
}

/// The indices of the items kept by `query`, stably sorted by name.
pub fn match_items(items: &Vec<String>, query: &str, how: MatchHow) -> (m: Vec<usize>)
    ensures
        m@ == matches_of(strings_view(items@), query@, how),
        forall|k: int| 0 <= k < m@.len() ==> #[trigger] m@[k] < items@.len(),
{
    let ql = chars_of(to_lowercase(query).as_str());
    let ghost iv = strings_view(items@);
    let mut m: Vec<usize> = Vec::new();
    let mut i: usize = 0;
    while i < items.len()
        invariant
            iv == strings_view(items@),
            ql@ == lowercase(query@),
            i <= items@.len(),
            m@ == sorted_matches(iv, query@, how, i as int),
            forall|k: int| 0 <= k < m@.len() ==> #[trigger] m@[k] < items@.len(),
        decreases items@.len() - i,
    {
        assert(iv[i as int] == items@[i as int]@);
        if keeps_exec(&items[i], &ql, how, Ghost(query@)) {
            insert_match(items, &mut m, i);
        }
        i = i + 1;
    }
    m
}

/// The byte order is transitive.
pub proof fn lemma_bytes_less_transitive(a: Seq<u8>, b: Seq<u8>, c: Seq<u8>)
    requires
        bytes_less(a, b),
        bytes_less(b, c),
    ensures
        bytes_less(a, c),
    decreases a.len(),
{
    if a.len() > 0 && b.len() > 0 && c.len() > 0 && a[0] == b[0] && b[0] == c[0] {
        lemma_bytes_less_transitive(a.drop_first(), b.drop_first(), c.drop_first());
    }
}

/// The byte order is irreflexive.
pub proof fn lemma_bytes_less_irreflexive(a: Seq<u8>)
    ensures
        !bytes_less(a, a),
    decreases a.len(),
{
    if a.len() > 0 {
        lemma_bytes_less_irreflexive(a.drop_first());
    }
}

/// A list of indices that is ordered by item name, equal names in
/// increasing index order.
pub open spec fn ordered_by_name(items: Seq<Seq<char>>, m: Seq<usize>) -> bool {
    forall|a: int, b: int|
        0 <= a < b < m.len() ==> !text_less(items[m[b] as int], items[m[a] as int]) && (items[m[a] as int]
            == items[m[b] as int] ==> m[a] < m[b])
}

/// What `sorted_matches` holds: the kept indices below `n`, each once, in
/// order of name.
pub open spec fn match_list_ok(
    items: Seq<Seq<char>>,
    q: Seq<char>,
    how: MatchHow,
    n: int,
    m: Seq<usize>,
) -> bool {
    &&& forall|k: int| 0 <= k < m.len() ==> 0 <= #[trigger] m[k] < n && keeps(items[m[k] as int], q, how)
    &&& forall|i: int| 0 <= i < n && keeps(items[i], q, how) ==> m.contains(i as usize)
    &&& forall|a: int, b: int| 0 <= a < b < m.len() ==> m[a] != m[b]
    &&& ordered_by_name(items, m)
}

/// First position of `s` whose name is greater than that of `x`.
spec fn insert_pos(items: Seq<Seq<char>>, s: Seq<usize>, x: usize, k: int) -> int
    decreases s.len() - k,
{
    if k >= s.len() || k < 0 {
        s.len() as int
    } else if text_less(items[x as int], items[s[k] as int]) {
        k
    } else {
        insert_pos(items, s, x, k + 1)
    }
}

proof fn lemma_insert_pos(items: Seq<Seq<char>>, s: Seq<usize>, x: usize, k: int)
    requires
        0 <= k <= s.len(),
        forall|j: int| 0 <= j < k ==> !text_less(items[x as int], items[#[trigger] s[j] as int]),
    ensures
        k <= insert_pos(items, s, x, k) <= s.len(),
        forall|j: int|
            0 <= j < insert_pos(items, s, x, k) ==> !text_less(
                items[x as int],
                items[#[trigger] s[j] as int],
            ),
        insert_pos(items, s, x, k) < s.len() ==> text_less(
            items[x as int],
            items[s[insert_pos(items, s, x, k)] as int],
        ),
    decreases s.len() - k,
{
    if k < s.len() && !text_less(items[x as int], items[s[k] as int]) {
        lemma_insert_pos(items, s, x, k + 1);
    }
}

/// Where the entries of `s` stand after inserting at `p`.
proof fn lemma_insert_elems(s: Seq<usize>, x: usize, p: int)
    requires
        0 <= p <= s.len(),
    ensures
        ({
            let r = s.take(p) + seq![x] + s.skip(p);
            &&& r.len() == s.len() + 1
            &&& r[p] == x
            &&& forall|k: int| 0 <= k < p ==> r[k] == s[k]
            &&& forall|k: int| p < k < r.len() ==> r[k] == s[k - 1]
        }),
{
}

/// The later of two entries whose names are ordered through a greater name
/// cannot be below the inserted one.
proof fn lemma_after_insert(xi: Seq<char>, pb: Seq<char>, kb: Seq<char>, same: bool)
    requires
        text_less(xi, pb),
        same ==> kb == pb,
        !same ==> !text_less(kb, pb),
    ensures
        !text_less(kb, xi),
        kb != xi,
{
    if text_less(kb, xi) {
        lemma_bytes_less_transitive(
            vstd::utf8::encode_utf8(kb),
            vstd::utf8::encode_utf8(xi),
            vstd::utf8::encode_utf8(pb),
        );
        if same {
            lemma_bytes_less_irreflexive(vstd::utf8::encode_utf8(pb));
        }
    }
    if kb == xi {
        if same {
            lemma_bytes_less_irreflexive(vstd::utf8::encode_utf8(xi));
        }
    }
}

/// Inserting the largest index so far keeps a list ordered by name.
proof fn lemma_insert_ordered(items: Seq<Seq<char>>, s: Seq<usize>, x: usize)
    requires
        ordered_by_name(items, s),
        forall|k: int| 0 <= k < s.len() ==> #[trigger] s[k] < x,
    ensures
        ordered_by_name(items, insert_sorted(items, s, x)),
{
    lemma_insert_pos(items, s, x, 0);
    let p = insert_pos(items, s, x, 0);
    lemma_insert_sorted(items, s, x, p);
    lemma_insert_elems(s, x, p);
    let r = insert_sorted(items, s, x);
    assert forall|a: int, b: int| 0 <= a < b < r.len() implies !text_less(
        items[r[b] as int],
        items[r[a] as int],
    ) && (items[r[a] as int] == items[r[b] as int] ==> r[a] < r[b]) by {
        if a == p {
            lemma_after_insert(
                items[x as int],
                items[s[p] as int],
                items[s[b - 1] as int],
                b - 1 == p,
            );
        }
    }
}

/// The match list holds every kept index exactly once, in order of name
/// (equal names in their order among the items).
pub proof fn law_matches_listed_once_in_order(items: Seq<Seq<char>>, q: Seq<char>, how: MatchHow)
    requires
        items.len() <= usize::MAX,
    ensures
        match_list_ok(items, q, how, items.len() as int, matches_of(items, q, how)),
{
    lemma_sorted_matches(items, q, how, items.len() as int);
}

proof fn lemma_sorted_matches(items: Seq<Seq<char>>, q: Seq<char>, how: MatchHow, n: int)
    requires
        0 <= n <= items.len() <= usize::MAX,
    ensures
        match_list_ok(items, q, how, n, sorted_matches(items, q, how, n)),
    decreases n,
{
    if n > 0 {
        lemma_sorted_matches(items, q, how, n - 1);
        let prev = sorted_matches(items, q, how, n - 1);
        let x = (n - 1) as usize;
        if keeps(items[n - 1], q, how) {
            lemma_insert_ordered(items, prev, x);
            lemma_insert_pos(items, prev, x, 0);
            let p = insert_pos(items, prev, x, 0);
            lemma_insert_sorted(items, prev, x, p);
            lemma_insert_elems(prev, x, p);
            lemma_insert_members(items, q, how, n, prev, p);
        } else {
            assert forall|i: int| 0 <= i < n && keeps(items[i], q, how) implies prev.contains(
                i as usize,
            ) by {
                assert(i < n - 1);
            }
        }
    }
}

proof fn lemma_insert_members(
    items: Seq<Seq<char>>,
    q: Seq<char>,
    how: MatchHow,
    n: int,
    prev: Seq<usize>,
    p: int,
)
    requires
        1 <= n <= items.len() <= usize::MAX,
        0 <= p <= prev.len(),
        keeps(items[n - 1], q, how),
        match_list_ok(items, q, how, n - 1, prev),
    ensures
        ({
            let r = prev.take(p) + seq![(n - 1) as usize] + prev.skip(p);
            &&& forall|k: int| 0 <= k < r.len() ==> 0 <= #[trigger] r[k] < n && keeps(items[r[k] as int], q, how)
            &&& forall|i: int| 0 <= i < n && keeps(items[i], q, how) ==> r.contains(i as usize)
            &&& forall|a: int, b: int| 0 <= a < b < r.len() ==> r[a] != r[b]
        }),
{
    let x = (n - 1) as usize;
    lemma_insert_elems(prev, x, p);
    let r = prev.take(p) + seq![x] + prev.skip(p);
    assert forall|i: int| 0 <= i < n && keeps(items[i], q, how) implies r.contains(i as usize) by {
        if i < n - 1 {
            let k = choose|k: int| 0 <= k < prev.len() && prev[k] == i as usize;
            if k < p {
                assert(r[k] == prev[k]);
            } else {
                assert(r[k + 1] == prev[k]);
            }
        } else {
            assert(r[p] == x);
        }
    }
    assert forall|a: int, b: int| 0 <= a < b < r.len() implies r[a] != r[b] by {
        if a < p && b > p {
            assert(r[a] == prev[a] && r[b] == prev[b - 1]);
        } else if b > p && a > p {
            assert(r[a] == prev[a - 1] && r[b] == prev[b - 1]);
        }
    }
}

} // verus!
