use std::path::PathBuf;
use vstd::prelude::*;

verus! {

/// A path of the file system, carried through the library unread.
#[verifier::external_type_specification]
#[verifier::external_body]
pub struct ExPathBuf(PathBuf);

/// `PathBuf::clone` gives back an equal path.
pub assume_specification[ <PathBuf as Clone>::clone ](p: &PathBuf) -> (res: PathBuf)
    ensures
        res == *p,
;

/// One image file that can be picked as the wallpaper.
#[derive(Debug)]
pub struct Wallpaper {
    pub path: PathBuf,
    pub name: String,
}

impl Clone for Wallpaper {
    fn clone(&self) -> (res: Self)
        ensures
            res == *self,
    {
        Wallpaper { path: self.path.clone(), name: self.name.clone() }
    }
}

/// The lowercase form of a string, as `str::to_lowercase` computes it
/// (Unicode's lowercase mapping, which may turn one character into several
/// and lowers a final capital sigma differently).
pub uninterp spec fn lowercase(s: Seq<char>) -> Seq<char>;

/// The ASCII lowercase of one character: `A`..`Z` become `a`..`z`, every
/// other character stays.
pub open spec fn ascii_lower_char(c: char) -> char {
    if 'A' <= c <= 'Z' {
        ((c as int) + 32) as char
    } else {
        c
    }
}

/// The ASCII lowercase of a string, character by character.
pub open spec fn ascii_lowercase(s: Seq<char>) -> Seq<char> {
    s.map_values(|c: char| ascii_lower_char(c))
}

/// Calls `str::to_lowercase`; the result is named by `lowercase`. On ASCII
/// text Unicode's lowercase mapping only lowers `A`..`Z`.
#[verifier::external_body]
pub(crate) fn to_lowercase(s: &str) -> (res: String)
    ensures
        res@ == lowercase(s@),
        vstd::utf8::is_ascii_chars(s@) ==> res@ == ascii_lowercase(s@),
{
    s.to_lowercase()
}

/// The characters of `s`, in order.
pub(crate) fn chars_of(s: &str) -> (res: Vec<char>)
    ensures
        res@ == s@,
{
    let mut out: Vec<char> = Vec::new();
    for c in it: s.chars()
        invariant
            it.seq() == s@,
            out@ == it.seq().take(it.index() as int),
    {
        out.push(c);
    }
    out
}

/// `idx` places the characters of `q`, in order, at strictly increasing
/// positions of `t`.
pub open spec fn embeds<A>(idx: Seq<int>, q: Seq<A>, t: Seq<A>) -> bool {
    &&& idx.len() == q.len()
    &&& forall|i: int| 0 <= i < idx.len() ==> 0 <= #[trigger] idx[i] < t.len() && t[idx[i]] == q[i]
    &&& forall|i: int, j: int| 0 <= i < j < idx.len() ==> #[trigger] idx[i] < #[trigger] idx[j]
}

/// `q` is a (not necessarily contiguous) subsequence of `t`.
pub open spec fn is_subsequence<A>(q: Seq<A>, t: Seq<A>) -> bool {
    exists|idx: Seq<int>| embeds(idx, q, t)
}

/// What `fuzzy_match` decides: the empty query matches everything; otherwise
/// the lowercased query must be a subsequence of the lowercased text.
pub open spec fn fuzzy_matches(query: Seq<char>, text: Seq<char>) -> bool {
    query.len() == 0 || is_subsequence(lowercase(query), lowercase(text))
}

/// What `fuzzy_match` decides on ASCII text: the empty query matches
/// everything; otherwise the ASCII-lowercased query must be a subsequence of
/// the ASCII-lowercased text.
pub open spec fn ascii_fuzzy_matches(query: Seq<char>, text: Seq<char>) -> bool {
    query.len() == 0 || is_subsequence(ascii_lowercase(query), ascii_lowercase(text))
}

/// The number of characters of `q` that a left-to-right greedy scan of `t`
/// matches.
spec fn greedy_count(q: Seq<char>, t: Seq<char>) -> nat
    decreases t.len(),
{
    if t.len() == 0 {
        0
    } else {
        let k = greedy_count(q, t.drop_last());
        if k < q.len() && q[k as int] == t.last() {
            k + 1
        } else {
            k
        }
    }
}

proof fn lemma_greedy_bounds(q: Seq<char>, t: Seq<char>)
    ensures
        greedy_count(q, t) <= q.len(),
        greedy_count(q, t) <= t.len(),
    decreases t.len(),
{
    if t.len() > 0 {
        lemma_greedy_bounds(q, t.drop_last());
    }
}

/// The greedy count never decreases as the scanned text grows.
proof fn lemma_greedy_prefix(q: Seq<char>, t: Seq<char>, n: int)
    requires
        0 <= n <= t.len(),
    ensures
        greedy_count(q, t.take(n)) <= greedy_count(q, t),
    decreases t.len() - n,
{
    if n < t.len() {
        lemma_greedy_prefix(q, t, n + 1);
        assert(t.take(n + 1).drop_last() =~= t.take(n));
    } else {
        assert(t.take(n) =~= t);
    }
}

/// The characters that the greedy scan matches really occur in order.
proof fn lemma_greedy_sound(q: Seq<char>, t: Seq<char>) -> (idx: Seq<int>)
    ensures
        embeds(idx, q.take(greedy_count(q, t) as int), t),
    decreases t.len(),
{
    lemma_greedy_bounds(q, t);
    if t.len() == 0 {
        Seq::empty()
    } else {
        let s = t.drop_last();
        let prev = lemma_greedy_sound(q, s);
        lemma_greedy_bounds(q, s);
        let k = greedy_count(q, s);
        if k < q.len() && q[k as int] == t.last() {
            let idx = prev.push(t.len() - 1);
            assert forall|i: int| 0 <= i < idx.len() implies 0 <= #[trigger] idx[i] < t.len()
                && t[idx[i]] == q.take(k + 1 as int)[i] by {
                if i < prev.len() {
                    assert(prev[i] < s.len());
                }
            }
            assert forall|i: int, j: int| 0 <= i < j < idx.len() implies #[trigger] idx[i]
                < #[trigger] idx[j] by {
                if j < prev.len() {
                    assert(prev[i] < prev[j]);
                } else {
                    assert(prev[i] < s.len());
                }
            }
            idx
        } else {
            assert forall|i: int| 0 <= i < prev.len() implies 0 <= #[trigger] prev[i] < t.len()
                && t[prev[i]] == q.take(k as int)[i] by {
                assert(prev[i] < s.len());
            }
            prev
        }
    }
}

/// No placement of a prefix of `q` in `t` is longer than what the greedy
/// scan matches.
proof fn lemma_greedy_complete(q: Seq<char>, t: Seq<char>, m: int, idx: Seq<int>)
    requires
        0 <= m <= q.len(),
        embeds(idx, q.take(m), t),
    ensures
        m <= greedy_count(q, t),
    decreases t.len(),
{
    if m > 0 {
        let s = t.drop_last();
        let last = idx[m - 1];
        if last < t.len() - 1 {
            assert forall|i: int| 0 <= i < idx.len() implies 0 <= #[trigger] idx[i] < s.len()
                && s[idx[i]] == q.take(m)[i] by {
                if i < m - 1 {
                    assert(idx[i] < idx[m - 1]);
                }
            }
            lemma_greedy_complete(q, s, m, idx);
        } else {
            let idx2 = idx.drop_last();
            assert forall|i: int| 0 <= i < idx2.len() implies 0 <= #[trigger] idx2[i] < s.len()
                && s[idx2[i]] == q.take(m - 1)[i] by {
                assert(idx[i] < idx[m - 1]);
                assert(q.take(m)[i] == q[i]);
            }
            assert forall|i: int, j: int| 0 <= i < j < idx2.len() implies #[trigger] idx2[i]
                < #[trigger] idx2[j] by {
                assert(idx[i] < idx[j]);
            }
            lemma_greedy_complete(q, s, m - 1, idx2);
            assert(q.take(m)[m - 1] == q[m - 1]);
        }
    }
}

/// The greedy scan matches all of `q` exactly when `q` is a subsequence of `t`.
proof fn lemma_greedy_decides(q: Seq<char>, t: Seq<char>)
    ensures
        (greedy_count(q, t) == q.len()) == is_subsequence(q, t),
{
    lemma_greedy_bounds(q, t);
    if greedy_count(q, t) == q.len() {
        let idx = lemma_greedy_sound(q, t);
        assert(q.take(q.len() as int) =~= q);
        assert(embeds(idx, q, t));
    }
    if is_subsequence(q, t) {
        let idx = choose|idx: Seq<int>| embeds(idx, q, t);
        assert(q.take(q.len() as int) =~= q);
        lemma_greedy_complete(q, t, q.len() as int, idx);
    }
}

/// Case-insensitive subsequence match of `query` against `text`.
pub fn fuzzy_match(query: &str, text: &str) -> (res: bool)
    ensures
        res == fuzzy_matches(query@, text@),
        vstd::utf8::is_ascii_chars(query@) && vstd::utf8::is_ascii_chars(text@) ==> res == ascii_fuzzy_matches(
            query@,
            text@,
        ),
{
    if query.is_empty() {
        return true;
    }
    let q = chars_of(to_lowercase(query).as_str());
    let t = chars_of(to_lowercase(text).as_str());
    let ghost qs = q@;
    let ghost ts = t@;
    let qlen = q.len();
    let tlen = t.len();
    if qlen == 0 {
        assert(embeds(Seq::empty(), qs, ts));
        return true;
    }
    let mut k: usize = 0;
    let mut current = q[0];
    let mut i: usize = 0;
    while i < tlen
        invariant
            qs == q@,
            ts == t@,
            qs == lowercase(query@),
            ts == lowercase(text@),
            vstd::utf8::is_ascii_chars(query@) ==> qs == ascii_lowercase(query@),
            vstd::utf8::is_ascii_chars(text@) ==> ts == ascii_lowercase(text@),
            query@.len() > 0,
            qlen == qs.len(),
            tlen == ts.len(),
            i <= tlen,
            k < qlen,
            k == greedy_count(qs, ts.take(i as int)),
            current == qs[k as int],
        decreases tlen - i,
    {
        let ch = t[i];
        assert(ts.take(i + 1).drop_last() =~= ts.take(i as int));
        if ch == current {
            k = k + 1;
            if k == qlen {
                proof {
                    lemma_greedy_prefix(qs, ts, i + 1);
                    lemma_greedy_bounds(qs, ts);
                    lemma_greedy_decides(qs, ts);
                }
                return true;
            }
            current = q[k];
        }
        i = i + 1;
    }
    proof {
        assert(ts.take(i as int) =~= ts);
        lemma_greedy_decides(qs, ts);
    }
    false
}

/// The positions in `ws`, in increasing order, of the wallpapers whose name
/// `query` fuzzy-matches.
pub open spec fn matching_indices(ws: Seq<Wallpaper>, query: Seq<char>) -> Seq<usize>
    decreases ws.len(),
{
    if ws.len() == 0 {
        Seq::empty()
    } else {
        let rest = matching_indices(ws.drop_last(), query);
        if fuzzy_matches(query, ws.last().name@) {
            rest.push((ws.len() - 1) as usize)
        } else {
            rest
        }
    }
}

/// `matching_indices` on ASCII text, with `ascii_fuzzy_matches`.
pub open spec fn ascii_matching_indices(ws: Seq<Wallpaper>, query: Seq<char>) -> Seq<usize>
    decreases ws.len(),
{
    if ws.len() == 0 {
        Seq::empty()
    } else {
        let rest = ascii_matching_indices(ws.drop_last(), query);
        if ascii_fuzzy_matches(query, ws.last().name@) {
            rest.push((ws.len() - 1) as usize)
        } else {
            rest
        }
    }
}

/// Every wallpaper name is ASCII text.
pub open spec fn ascii_names(ws: Seq<Wallpaper>) -> bool {
    forall|i: int| 0 <= i < ws.len() ==> vstd::utf8::is_ascii_chars(#[trigger] ws[i].name@)
}

/// Indices into `wallpapers` matching `query`, preserving the sorted order.
pub fn filtered(wallpapers: &[Wallpaper], query: &str) -> (res: Vec<usize>)
    ensures
        res@ == matching_indices(wallpapers@, query@),
        vstd::utf8::is_ascii_chars(query@) && ascii_names(wallpapers@) ==> res@
            == ascii_matching_indices(wallpapers@, query@),
{
    let mut res: Vec<usize> = Vec::new();
    let n = wallpapers.len();
    let mut i: usize = 0;
    while i < n
        invariant
            n == wallpapers@.len(),
            i <= n,
            res@ == matching_indices(wallpapers@.take(i as int), query@),
            vstd::utf8::is_ascii_chars(query@) && ascii_names(wallpapers@) ==> res@
                == ascii_matching_indices(wallpapers@.take(i as int), query@),
        decreases n - i,
    {
        assert(wallpapers@.take(i + 1).drop_last() =~= wallpapers@.take(i as int));
        assert(wallpapers@.take(i + 1).last() == wallpapers@[i as int]);
        if fuzzy_match(query, wallpapers[i].name.as_str()) {
            res.push(i);
        }
        i = i + 1;
    }
    assert(wallpapers@.take(n as int) =~= wallpapers@);
    res
}

/// The filtered positions are exactly the matching ones: each lies within
/// `ws` and names a matching wallpaper, they strictly increase (the order of
/// `ws` is kept), and no matching position is left out.
pub proof fn lemma_matching_indices(ws: Seq<Wallpaper>, query: Seq<char>)
    requires
        ws.len() <= usize::MAX,
    ensures
        matching_indices(ws, query).len() <= ws.len(),
        forall|k: int|
            0 <= k < matching_indices(ws, query).len() ==> {
                let i = #[trigger] matching_indices(ws, query)[k];
                &&& i < ws.len()
                &&& fuzzy_matches(query, ws[i as int].name@)
            },
        forall|k: int, l: int|
            0 <= k < l < matching_indices(ws, query).len() ==> #[trigger] matching_indices(
                ws,
                query,
            )[k] < #[trigger] matching_indices(ws, query)[l],
        forall|i: int|
            0 <= i < ws.len() && fuzzy_matches(query, #[trigger] ws[i].name@) ==> matching_indices(
                ws,
                query,
            ).contains(i as usize),
    decreases ws.len(),
{
    if ws.len() > 0 {
        let s = ws.drop_last();
        lemma_matching_indices(s, query);
        let rest = matching_indices(s, query);
        let m = matching_indices(ws, query);
        let hit = fuzzy_matches(query, ws.last().name@);
        if hit {
            assert(m == rest.push((ws.len() - 1) as usize));
        } else {
            assert(m == rest);
        }
        assert forall|i: int|
            0 <= i < ws.len() && fuzzy_matches(query, #[trigger] ws[i].name@) implies m.contains(
            i as usize,
        ) by {
            if i < ws.len() - 1 {
                assert(s[i] == ws[i]);
                let k = choose|k: int| 0 <= k < rest.len() && rest[k] == i as usize;
                assert(m[k] == i as usize);
            } else {
                assert(m[m.len() - 1] == i as usize);
            }
        }
        assert forall|k: int, l: int| 0 <= k < l < m.len() implies #[trigger] m[k] < #[trigger] m[l] by {
            if l < rest.len() {
                assert(rest[k] < rest[l]);
                assert(m[k] == rest[k] && m[l] == rest[l]);
            } else {
                assert(rest[k] < s.len());
                assert(m[k] == rest[k]);
            }
        }
        assert forall|k: int| 0 <= k < m.len() implies {
            let i = #[trigger] m[k];
            &&& i < ws.len()
            &&& fuzzy_matches(query, ws[i as int].name@)
        } by {
            if k < rest.len() {
                assert(m[k] == rest[k]);
                assert(s[rest[k] as int] == ws[rest[k] as int]);
            }
        }
    }
}

/// The empty query keeps every wallpaper, in order.
pub proof fn lemma_empty_query_keeps_all(ws: Seq<Wallpaper>)
    requires
        ws.len() <= usize::MAX,
    ensures
        matching_indices(ws, Seq::empty()) == Seq::new(ws.len(), |i: int| i as usize),
    decreases ws.len(),
{
    if ws.len() > 0 {
        lemma_empty_query_keeps_all(ws.drop_last());
        assert(matching_indices(ws, Seq::empty()) =~= Seq::new(ws.len(), |i: int| i as usize));
    }
}

/// Case-insensitivity: queries with the same lowercase form match the same
/// texts, and texts with the same lowercase form are matched by the same
/// queries.
pub proof fn lemma_fuzzy_case_insensitive(q1: Seq<char>, q2: Seq<char>, t1: Seq<char>, t2: Seq<char>)
    requires
        q1.len() > 0,
        q2.len() > 0,
        lowercase(q1) == lowercase(q2),
        lowercase(t1) == lowercase(t2),
    ensures
        fuzzy_matches(q1, t1) == fuzzy_matches(q2, t2),
{
}

/// A prefix of a subsequence of `t` is a subsequence of `t`.
pub proof fn lemma_prefix_of_subsequence<A>(p: Seq<A>, q: Seq<A>, t: Seq<A>)
    requires
        p.is_prefix_of(q),
        is_subsequence(q, t),
    ensures
        is_subsequence(p, t),
{
    let idx = choose|idx: Seq<int>| embeds(idx, q, t);
    let short = idx.take(p.len() as int);
    assert forall|i: int| 0 <= i < short.len() implies 0 <= #[trigger] short[i] < t.len()
        && t[short[i]] == p[i] by {
        assert(short[i] == idx[i]);
        assert(p[i] == q[i]);
    }
    assert forall|i: int, j: int| 0 <= i < j < short.len() implies #[trigger] short[i]
        < #[trigger] short[j] by {
        assert(short[i] == idx[i] && short[j] == idx[j]);
    }
    assert(embeds(short, p, t));
}

/// A longer query matches less: when the lowercase form of `q1` begins the
/// lowercase form of the non-empty query `q2`, every text that `q2` matches
/// is matched by `q1` too.
pub proof fn lemma_longer_query_matches_less(q1: Seq<char>, q2: Seq<char>, t: Seq<char>)
    requires
        q2.len() > 0,
        lowercase(q1).is_prefix_of(lowercase(q2)),
        fuzzy_matches(q2, t),
    ensures
        fuzzy_matches(q1, t),
{
    if q1.len() > 0 {
        lemma_prefix_of_subsequence(lowercase(q1), lowercase(q2), lowercase(t));
    }
}

/// On ASCII text, typing more characters never adds matches: whatever
/// `q + s` matches, `q` matches too.
pub proof fn lemma_ascii_longer_query_matches_less(q: Seq<char>, s: Seq<char>, t: Seq<char>)
    requires
        ascii_fuzzy_matches(q + s, t),
    ensures
        ascii_fuzzy_matches(q, t),
{
    if q.len() > 0 {
        let lq = ascii_lowercase(q);
        let lqs = ascii_lowercase(q + s);
        assert(lq =~= lqs.subrange(0, lq.len() as int));
        lemma_prefix_of_subsequence(lq, lqs, ascii_lowercase(t));
    }
}

/// Typing more narrows the list: when the lowercase form of `q1` begins the
/// lowercase form of the non-empty query `q2`, the positions that `q2` keeps
/// are a subsequence (same order) of those that `q1` keeps.
pub proof fn lemma_filtered_narrows(ws: Seq<Wallpaper>, q1: Seq<char>, q2: Seq<char>)
    requires
        q2.len() > 0,
        lowercase(q1).is_prefix_of(lowercase(q2)),
    ensures
        is_subsequence(matching_indices(ws, q2), matching_indices(ws, q1)),
    decreases ws.len(),
{
    let m1 = matching_indices(ws, q1);
    let m2 = matching_indices(ws, q2);
    if ws.len() == 0 {
        assert(embeds(Seq::<int>::empty(), m2, m1));
    } else {
        let s = ws.drop_last();
        lemma_filtered_narrows(s, q1, q2);
        let r1 = matching_indices(s, q1);
        let r2 = matching_indices(s, q2);
        let idx = choose|idx: Seq<int>| embeds(idx, r2, r1);
        let name = ws.last().name@;
        if fuzzy_matches(q2, name) {
            lemma_longer_query_matches_less(q1, q2, name);
            let idx2 = idx.push(r1.len() as int);
            assert(m1 == r1.push((ws.len() - 1) as usize));
            assert(m2 == r2.push((ws.len() - 1) as usize));
            assert forall|i: int| 0 <= i < idx2.len() implies 0 <= #[trigger] idx2[i] < m1.len()
                && m1[idx2[i]] == m2[i] by {
                if i < idx.len() {
                    assert(idx2[i] == idx[i]);
                }
            }
            assert forall|i: int, j: int| 0 <= i < j < idx2.len() implies #[trigger] idx2[i]
                < #[trigger] idx2[j] by {
                if j < idx.len() {
                    assert(idx[i] < idx[j]);
                } else {
                    assert(idx[i] < r1.len());
                }
            }
            assert(embeds(idx2, m2, m1));
        } else {
            assert(m2 == r2);
            if fuzzy_matches(q1, name) {
                assert(m1 == r1.push((ws.len() - 1) as usize));
                assert forall|i: int| 0 <= i < idx.len() implies 0 <= #[trigger] idx[i] < m1.len()
                    && m1[idx[i]] == m2[i] by {
                    assert(m1[idx[i]] == r1[idx[i]]);
                }
                assert(embeds(idx, m2, m1));
            } else {
                assert(m1 == r1);
            }
        }
    }
}

} // verus!
