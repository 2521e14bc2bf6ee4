use crate::wallpapers::{ascii_lowercase, chars_of, lowercase, to_lowercase, Wallpaper};
use std::path::PathBuf;
use vstd::prelude::*;

verus! {

/// What a scan of the wallpaper directory learned about one entry.
pub struct ScanEntry {
    pub path: PathBuf,
    /// The entry is a regular file (after following symlinks).
    pub is_file: bool,
    /// The file extension, when it is valid UTF-8.
    pub extension: Option<String>,
    /// The file name, lossily converted to UTF-8.
    pub file_name: Option<String>,
}

/// The extensions, compared in lowercase, of the files that are listed.
pub open spec fn is_image_extension(ext: Seq<char>) -> bool {
    let l = lowercase(ext);
    l == "png"@ || l == "jpg"@ || l == "jpeg"@
}

/// The entry is listed: a regular file with a png, jpg or jpeg extension
/// (in any case) and a name.
pub open spec fn is_listed(e: ScanEntry) -> bool {
    &&& e.is_file
    &&& e.extension matches Some(ext) && is_image_extension(ext@)
    &&& e.file_name is Some
}

/// The wallpapers of the listed entries, in scan order.
pub open spec fn listed(entries: Seq<ScanEntry>) -> Seq<Wallpaper>
    decreases entries.len(),
{
    if entries.len() == 0 {
        Seq::empty()
    } else {
        let rest = listed(entries.drop_last());
        let e = entries.last();
        if is_listed(e) {
            rest.push(Wallpaper { path: e.path, name: e.file_name->0 })
        } else {
            rest
        }
    }
}

/// Lexicographic order of names, character by character (the order of
/// their UTF-8 bytes).
pub open spec fn name_le(a: Seq<char>, b: Seq<char>) -> bool
    decreases a.len(),
{
    if a.len() == 0 {
        true
    } else if b.len() == 0 {
        false
    } else if a[0] != b[0] {
        (a[0] as int) < (b[0] as int)
    } else {
        name_le(a.drop_first(), b.drop_first())
    }
}

/// `name_le` is total.
pub proof fn lemma_name_le_total(a: Seq<char>, b: Seq<char>)
    ensures
        name_le(a, b) || name_le(b, a),
    decreases a.len(),
{
    if a.len() > 0 && b.len() > 0 {
        if a[0] == b[0] {
            lemma_name_le_total(a.drop_first(), b.drop_first());
        }
    }
}

/// `name_le` is transitive.
pub proof fn lemma_name_le_transitive(a: Seq<char>, b: Seq<char>, c: Seq<char>)
    requires
        name_le(a, b),
        name_le(b, c),
    ensures
        name_le(a, c),
    decreases a.len(),
{
    if a.len() > 0 && b.len() > 0 && c.len() > 0 && a[0] == b[0] && b[0] == c[0] {
        lemma_name_le_transitive(a.drop_first(), b.drop_first(), c.drop_first());
    }
}

/// `name_le` is antisymmetric: it orders distinct names strictly.
pub proof fn lemma_name_le_antisymmetric(a: Seq<char>, b: Seq<char>)
    requires
        name_le(a, b),
        name_le(b, a),
    ensures
        a == b,
    decreases a.len(),
{
    if a.len() > 0 {
        lemma_name_le_antisymmetric(a.drop_first(), b.drop_first());
        assert(a =~= seq![a[0]] + a.drop_first());
        assert(b =~= seq![b[0]] + b.drop_first());
    } else {
        assert(b.len() == 0);
        assert(a =~= b);
    }
}

/// The names of `ws` never decrease.
pub open spec fn sorted_by_name(ws: Seq<Wallpaper>) -> bool {
    forall|k: int, l: int| 0 <= k < l < ws.len() ==> name_le(#[trigger] ws[k].name@, #[trigger] ws[l].name@)
}

/// `perm` lays `src` out as `res`: it is a permutation of the positions of
/// `src`, and wallpapers with equal names keep their relative order.
pub open spec fn stable_reorder(perm: Seq<int>, res: Seq<Wallpaper>, src: Seq<Wallpaper>) -> bool {
    &&& perm.len() == src.len()
    &&& res.len() == src.len()
    &&& forall|k: int| 0 <= k < perm.len() ==> 0 <= #[trigger] perm[k] < src.len() && res[k] == src[perm[k]]
    &&& forall|k: int, l: int| 0 <= k < l < perm.len() ==> #[trigger] perm[k] != #[trigger] perm[l]
    &&& forall|k: int, l: int|
        0 <= k < l < perm.len() && (#[trigger] res[k]).name@ == (#[trigger] res[l]).name@ ==> perm[k] < perm[l]
}

/// `res` is `src` stably sorted by name.
pub open spec fn is_stable_sort_by_name(res: Seq<Wallpaper>, src: Seq<Wallpaper>) -> bool {
    &&& sorted_by_name(res)
    &&& exists|perm: Seq<int>| stable_reorder(perm, res, src)
}

/// Compares two names by `name_le`.
fn name_le_exec(a: &str, b: &str) -> (res: bool)
    ensures
        res == name_le(a@, b@),
{
    let ac = chars_of(a);
    let bc = chars_of(b);
    let la = ac.len();
    let lb = bc.len();
    let mut i: usize = 0;
    assert(a@.skip(0) =~= a@);
    assert(b@.skip(0) =~= b@);
    while i < la && i < lb
        invariant
            ac@ == a@,
            bc@ == b@,
            la == a@.len(),
            lb == b@.len(),
            i <= la,
            i <= lb,
            name_le(a@, b@) == name_le(a@.skip(i as int), b@.skip(i as int)),
        decreases la - i,
    {
        let ca = ac[i];
        let cb = bc[i];
        if ca != cb {
            return ca < cb;
        }
        assert(a@.skip(i as int).drop_first() =~= a@.skip(i + 1));
        assert(b@.skip(i as int).drop_first() =~= b@.skip(i + 1));
        i = i + 1;
    }
    la <= lb
}

/// Whether an extension names a png, jpg or jpeg file, in any case.
fn is_image_extension_exec(ext: &str) -> (res: bool)
    ensures
        res == is_image_extension(ext@),
        vstd::utf8::is_ascii_chars(ext@) ==> res == {
            let l = ascii_lowercase(ext@);
            l == seq!['p', 'n', 'g'] || l == seq!['j', 'p', 'g'] || l == seq!['j', 'p', 'e', 'g']
        },
{
    let l = to_lowercase(ext);
    let res = l == String::from_str("png") || l == String::from_str("jpg") || l == String::from_str(
        "jpeg",
    );
    proof {
        lemma_image_extensions(ext@);
    }
    res
}

/// Keeps the listed entries, in scan order, as wallpapers.
fn keep_listed(entries: Vec<ScanEntry>) -> (res: Vec<Wallpaper>)
    ensures
        res@ == listed(entries@),
{
    let ghost all = entries@;
    let mut out: Vec<Wallpaper> = Vec::new();
    for e in it: entries.into_iter()
        invariant
            it.seq() == all,
            out@ == listed(all.take(it.index() as int)),
    {
        let ghost i = it.index();
        assert(all.take(i + 1).drop_last() =~= all.take(i as int));
        let ScanEntry { path, is_file, extension, file_name } = e;
        if is_file {
            if let Some(ext) = extension {
                if is_image_extension_exec(ext.as_str()) {
                    if let Some(name) = file_name {
                        out.push(Wallpaper { path, name });
                    }
                }
            }
        }
    }
    assert(all.take(all.len() as int) =~= all);
    out
}

/// Inserting `w` at position `p` of the sorted `res`, after every name that is
/// not above it and before the first one that is, keeps `res` sorted and
/// stable.
proof fn lemma_insert_sorted(
    res: Seq<Wallpaper>,
    perm: Seq<int>,
    src: Seq<Wallpaper>,
    w: Wallpaper,
    p: int,
)
    requires
        res.len() == perm.len(),
        perm.len() < src.len(),
        w == src[perm.len() as int],
        0 <= p <= res.len(),
        sorted_by_name(res),
        forall|k: int| 0 <= k < perm.len() ==> 0 <= #[trigger] perm[k] < perm.len() && res[k] == src[perm[k]],
        forall|k: int, l: int| 0 <= k < l < perm.len() ==> #[trigger] perm[k] != #[trigger] perm[l],
        forall|k: int, l: int|
            0 <= k < l < perm.len() && (#[trigger] res[k]).name@ == (#[trigger] res[l]).name@ ==> perm[k] < perm[l],
        forall|k: int| 0 <= k < p ==> name_le((#[trigger] res[k]).name@, w.name@),
        p < res.len() ==> !name_le(res[p].name@, w.name@),
    ensures
        ({
            let res2 = res.insert(p, w);
            let perm2 = perm.insert(p, perm.len() as int);
            &&& sorted_by_name(res2)
            &&& forall|k: int| 0 <= k < perm2.len() ==> 0 <= #[trigger] perm2[k] < perm2.len() && res2[k] == src[perm2[k]]
            &&& forall|k: int, l: int| 0 <= k < l < perm2.len() ==> #[trigger] perm2[k] != #[trigger] perm2[l]
            &&& forall|k: int, l: int|
                0 <= k < l < perm2.len() && (#[trigger] res2[k]).name@ == (#[trigger] res2[l]).name@ ==> perm2[k] < perm2[l]
        }),
{
    let res2 = res.insert(p, w);
    let perm2 = perm.insert(p, perm.len() as int);
    let i = perm.len() as int;
    if p < res.len() {
        lemma_name_le_total(res[p].name@, w.name@);
    }
    // every name after the insertion point is above `w`
    assert forall|l: int| p < l < res2.len() implies name_le(w.name@, (#[trigger] res2[l]).name@)
        && res2[l].name@ != w.name@ by {
        assert(res2[l] == res[l - 1]);
        if l - 1 > p {
            assert(name_le(res[p].name@, res[l - 1].name@));
            lemma_name_le_transitive(w.name@, res[p].name@, res[l - 1].name@);
        }
        if res2[l].name@ == w.name@ {
            if l - 1 > p {
                assert(name_le(res[p].name@, res[l - 1].name@));
            }
            assert(name_le(res[p].name@, w.name@));
        }
    }
    assert forall|k: int, l: int| 0 <= k < l < res2.len() implies name_le(
        #[trigger] res2[k].name@,
        #[trigger] res2[l].name@,
    ) by {
        if l < p {
            assert(res2[k] == res[k] && res2[l] == res[l]);
        } else if l == p {
            assert(res2[k] == res[k]);
        } else if k < p {
            assert(res2[k] == res[k]);
            assert(name_le(w.name@, res2[l].name@));
            lemma_name_le_transitive(res[k].name@, w.name@, res2[l].name@);
        } else if k == p {
        } else {
            assert(res2[k] == res[k - 1] && res2[l] == res[l - 1]);
        }
    }
    assert forall|k: int| 0 <= k < perm2.len() implies 0 <= #[trigger] perm2[k] < perm2.len()
        && res2[k] == src[perm2[k]] by {
        if k < p {
            assert(perm2[k] == perm[k] && res2[k] == res[k]);
        } else if k > p {
            assert(perm2[k] == perm[k - 1] && res2[k] == res[k - 1]);
        }
    }
    assert forall|k: int, l: int| 0 <= k < l < perm2.len() implies #[trigger] perm2[k]
        != #[trigger] perm2[l] by {
        if k < p {
            assert(perm2[k] == perm[k]);
        } else if k > p {
            assert(perm2[k] == perm[k - 1]);
        }
        if l < p {
            assert(perm2[l] == perm[l]);
        } else if l > p {
            assert(perm2[l] == perm[l - 1]);
        }
    }
    assert forall|k: int, l: int|
        0 <= k < l < perm2.len() && (#[trigger] res2[k]).name@ == (#[trigger] res2[l]).name@ implies perm2[k]
        < perm2[l] by {
        if l < p {
            assert(perm2[k] == perm[k] && res2[k] == res[k] && perm2[l] == perm[l] && res2[l] == res[l]);
        } else if l == p {
            assert(perm2[k] == perm[k]);
        } else if k < p {
            assert(perm2[k] == perm[k] && res2[k] == res[k]);
            assert(perm2[l] == perm[l - 1] && res2[l] == res[l - 1]);
        } else if k > p {
            assert(perm2[k] == perm[k - 1] && res2[k] == res[k - 1]);
            assert(perm2[l] == perm[l - 1] && res2[l] == res[l - 1]);
        }
    }
}

/// Stable insertion sort of wallpapers by name.
fn sort_by_name(src: Vec<Wallpaper>) -> (res: Vec<Wallpaper>)
    ensures
        is_stable_sort_by_name(res@, src@),
{
    let ghost src0 = src@;
    let mut res: Vec<Wallpaper> = Vec::new();
    let ghost mut perm: Seq<int> = Seq::empty();
    for w in it: src.into_iter()
        invariant
            it.seq() == src0,
            res@.len() == it.index(),
            perm.len() == it.index(),
            sorted_by_name(res@),
            forall|k: int| 0 <= k < perm.len() ==> 0 <= #[trigger] perm[k] < perm.len() && res@[k] == src0[perm[k]],
            forall|k: int, l: int| 0 <= k < l < perm.len() ==> #[trigger] perm[k] != #[trigger] perm[l],
            forall|k: int, l: int|
                0 <= k < l < perm.len() && (#[trigger] res@[k]).name@ == (#[trigger] res@[l]).name@ ==> perm[k] < perm[l],
    {
        let ghost i = it.index();
        assert(w == src0[i as int]);
        let len = res.len();
        let mut p: usize = 0;
        while p < len && name_le_exec(res[p].name.as_str(), w.name.as_str())
            invariant
                len == res@.len(),
                p <= len,
                forall|k: int| 0 <= k < p ==> name_le((#[trigger] res@[k]).name@, w.name@),
            decreases len - p,
        {
            p = p + 1;
        }
        proof {
            lemma_insert_sorted(res@, perm, src0, w, p as int);
            perm = perm.insert(p as int, i as int);
        }
        res.insert(p, w);
    }
    assert(stable_reorder(perm, res@, src0));
    res
}

/// The wallpapers among the scanned entries of a directory: its png, jpg and
/// jpeg files (extension in any case), sorted by file name.
pub fn select_wallpapers(entries: Vec<ScanEntry>) -> (res: Vec<Wallpaper>)
    ensures
        is_stable_sort_by_name(res@, listed(entries@)),
{
    let kept = keep_listed(entries);
    sort_by_name(kept)
}

/// Names are ordered by the code points of their first differing character.
pub proof fn lemma_name_le_first_difference(a: Seq<char>, b: Seq<char>, i: int)
    requires
        0 <= i < a.len(),
        i < b.len(),
        a.take(i) == b.take(i),
        a[i] != b[i],
    ensures
        name_le(a, b) == ((a[i] as int) < (b[i] as int)),
    decreases i,
{
    if i > 0 {
        assert(a.take(i)[0] == a[0] && b.take(i)[0] == b[0]);
        let a1 = a.drop_first();
        let b1 = b.drop_first();
        assert(a1.take(i - 1) =~= a.take(i).drop_first());
        assert(b1.take(i - 1) =~= b.take(i).drop_first());
        assert(a1[i - 1] == a[i] && b1[i - 1] == b[i]);
        lemma_name_le_first_difference(a1, b1, i - 1);
    }
}

/// A name comes no later than every name it begins, and a name comes after
/// every proper beginning of itself.
pub proof fn lemma_name_le_prefix(a: Seq<char>, b: Seq<char>)
    requires
        a.is_prefix_of(b),
    ensures
        name_le(a, b),
        a.len() < b.len() ==> !name_le(b, a),
    decreases a.len(),
{
    if a.len() > 0 {
        assert(a[0] == b[0]);
        assert(a.drop_first() =~= b.drop_first().subrange(0, a.len() - 1));
        lemma_name_le_prefix(a.drop_first(), b.drop_first());
    }
}

/// Whether an extension is listed depends only on its lowercase form.
pub proof fn lemma_image_extension_ignores_case(e1: Seq<char>, e2: Seq<char>)
    requires
        lowercase(e1) == lowercase(e2),
    ensures
        is_image_extension(e1) == is_image_extension(e2),
{
}

/// The listed extensions are exactly those whose lowercase form is `png`,
/// `jpg` or `jpeg`.
pub proof fn lemma_image_extensions(e: Seq<char>)
    ensures
        is_image_extension(e) == (lowercase(e) == seq!['p', 'n', 'g'] || lowercase(e) == seq![
            'j',
            'p',
            'g',
        ] || lowercase(e) == seq!['j', 'p', 'e', 'g']),
{
    reveal_strlit("png");
    reveal_strlit("jpg");
    reveal_strlit("jpeg");
    assert("png"@ =~= seq!['p', 'n', 'g']);
    assert("jpg"@ =~= seq!['j', 'p', 'g']);
    assert("jpeg"@ =~= seq!['j', 'p', 'e', 'g']);
}

} // verus!
