//! The inventory of a source folder: which files are assets, which are
//! reported as issues, the assets ordered by case-insensitive relative path,
//! and the groups of assets whose relative paths differ only in case.
use vstd::prelude::*;
use crate::imaging::{inspect, inspection, AssetInfo, AssetView, FileRead};
use crate::safety::{
    has_image_extension, has_supported_extension, looks_like_image, supported_extension,
};
use crate::text::{
    chars_eq, chars_of, lemma_lex_antisymmetric, lemma_lex_irreflexive, lemma_lex_le_transitive,
    lemma_lex_lt_le, lemma_lex_total, lemma_lex_transitive, lex_le, lex_lt, lex_lt_exec, lower,
    lower_chars,
};

verus! {

/// One entry met while walking the source folder.
pub enum WalkEntry {
    /// An entry that could not be read; `path` is empty when unknown.
    Failed { path: String, message: String },
    /// A directory, link or other entry that is not a regular file.
    Other,
    /// A regular file. `contents` is consulted only when the path has a
    /// supported extension; the caller reads the file in that case.
    File { path: String, contents: FileRead },
}

pub struct InventoryIssue {
    pub path: String,
    pub kind: String,
    pub message: String,
}

#[verifier::ext_equal]
pub struct IssueView {
    pub path: Seq<char>,
    pub kind: Seq<char>,
    pub message: Seq<char>,
}

impl View for InventoryIssue {
    type V = IssueView;

    open spec fn view(&self) -> IssueView {
        IssueView { path: self.path@, kind: self.kind@, message: self.message@ }
    }
}

pub struct InventoryReport {
    pub root: String,
    pub assets: Vec<AssetInfo>,
    pub issues: Vec<InventoryIssue>,
    pub collisions: Vec<Vec<String>>,
    pub total_files_seen: usize,
}

/// The records of a sequence of assets as plain values.
pub open spec fn asset_views(v: Seq<AssetInfo>) -> Seq<AssetView> {
    Seq::new(v.len(), |i: int| v[i]@)
}

/// The issues of a sequence as plain values.
pub open spec fn issue_views(v: Seq<InventoryIssue>) -> Seq<IssueView> {
    Seq::new(v.len(), |i: int| v[i]@)
}

/// Groups of path texts as plain values.
pub open spec fn group_views(v: Seq<Vec<String>>) -> Seq<Seq<Seq<char>>> {
    Seq::new(v.len(), |g: int| Seq::new(v[g]@.len(), |t: int| v[g]@[t]@))
}

/// The message of an image file in an unsupported format.
pub open spec fn unsupported_message() -> Seq<char> {
    "Supported formats are PNG, JPG, and JPEG"@
}

/// The assets found among the walked entries, in walking order.
pub open spec fn walk_assets(root: Seq<char>, es: Seq<WalkEntry>) -> Seq<AssetView>
    decreases es.len(),
{
    if es.len() == 0 {
        Seq::empty()
    } else {
        let init = walk_assets(root, es.drop_last());
        match es.last() {
            WalkEntry::File { path, contents } => if has_supported_extension(path@) {
                match inspection(path@, root, contents) {
                    Ok(a) => init.push(a),
                    Err(_) => init,
                }
            } else {
                init
            },
            _ => init,
        }
    }
}

/// The issues met among the walked entries, in walking order: unreadable
/// entries, supported files that do not inspect, and other image files.
pub open spec fn walk_issues(root: Seq<char>, es: Seq<WalkEntry>) -> Seq<IssueView>
    decreases es.len(),
{
    if es.len() == 0 {
        Seq::empty()
    } else {
        let init = walk_issues(root, es.drop_last());
        match es.last() {
            WalkEntry::Failed { path, message } => init.push(
                IssueView { path: path@, kind: "read-error"@, message: message@ },
            ),
            WalkEntry::File { path, contents } => if has_supported_extension(path@) {
                match inspection(path@, root, contents) {
                    Ok(_) => init,
                    Err(m) => init.push(IssueView { path: path@, kind: "corrupt"@, message: m }),
                }
            } else if has_image_extension(path@) {
                init.push(
                    IssueView { path: path@, kind: "unsupported"@, message: unsupported_message() },
                )
            } else {
                init
            },
            WalkEntry::Other => init,
        }
    }
}

/// The number of regular files among the walked entries.
pub open spec fn files_seen(es: Seq<WalkEntry>) -> nat
    decreases es.len(),
{
    if es.len() == 0 {
        0
    } else {
        files_seen(es.drop_last()) + if es.last() is File {
            1nat
        } else {
            0nat
        }
    }
}

/// Assets are ordered and compared by their ASCII-lower-cased relative path.
pub open spec fn sort_key(a: AssetView) -> Seq<char> {
    lower(a.relative_path)
}

/// The sort keys of a sequence of assets.
pub open spec fn keys_of(s: Seq<AssetView>) -> Seq<Seq<char>> {
    Seq::new(s.len(), |i: int| sort_key(s[i]))
}

/// Keys in non-decreasing order.
pub open spec fn sorted_keys(ks: Seq<Seq<char>>) -> bool {
    forall|k: int, l: int| 0 <= k < l < ks.len() ==> lex_le(ks[k], ks[l])
}

/// `out` holds the elements of `inp` moved by `perm`, ordered by key, and
/// elements with equal keys keep their order.
pub open spec fn stable_permutation(out: Seq<AssetView>, inp: Seq<AssetView>, perm: Seq<int>) -> bool {
    &&& perm.len() == inp.len()
    &&& out.len() == inp.len()
    &&& forall|k: int| 0 <= k < perm.len() ==> 0 <= #[trigger] perm[k] < inp.len()
    &&& forall|k: int| 0 <= k < perm.len() ==> out[k] == inp[#[trigger] perm[k]]
    &&& forall|k: int, l: int| 0 <= k < l < perm.len() ==> perm[k] != perm[l]
    &&& sorted_keys(keys_of(out))
    &&& forall|k: int, l: int|
        0 <= k < l < out.len() && sort_key(out[k]) == sort_key(out[l]) ==> perm[k] < perm[l]
}

/// `out` is a stable sort of `inp` by key.
pub open spec fn stable_sort_of(out: Seq<AssetView>, inp: Seq<AssetView>) -> bool {
    exists|perm: Seq<int>| stable_permutation(out, inp, perm)
}

/// Indices `a..b` hold every element with the key found at `a`.
pub open spec fn is_run(ks: Seq<Seq<char>>, a: int, b: int) -> bool {
    &&& 0 <= a < b <= ks.len()
    &&& forall|i: int| a <= i < b ==> ks[i] == ks[a]
    &&& forall|i: int| 0 <= i < ks.len() && !(a <= i < b) ==> ks[i] != ks[a]
}

/// The spans of keys shared by two or more elements, in order: each is the
/// run of one key, and every element whose key occurs twice lies in one.
pub open spec fn collision_spans(ks: Seq<Seq<char>>, spans: Seq<(int, int)>) -> bool {
    &&& forall|g: int|
        0 <= g < spans.len() ==> is_run(ks, spans[g].0, spans[g].1) && spans[g].1 - spans[g].0
            >= 2
    &&& forall|g: int, h: int| 0 <= g < h < spans.len() ==> spans[g].1 <= spans[h].0
    &&& forall|i: int, j: int|
        0 <= i < j < ks.len() && ks[i] == ks[j] ==> exists|g: int|
            0 <= g < spans.len() && (#[trigger] spans[g]).0 <= i < spans[g].1
}

/// The relative paths of the assets `a..b`.
pub open spec fn rels(s: Seq<AssetView>, a: int, b: int) -> Seq<Seq<char>> {
    Seq::new((b - a) as nat, |t: int| s[a + t].relative_path)
}

/// The collision groups of sorted assets `s`: for each case-insensitive
/// relative path shared by two or more assets, those assets' relative paths.
pub open spec fn collision_groups(s: Seq<AssetView>, groups: Seq<Seq<Seq<char>>>) -> bool {
    exists|spans: Seq<(int, int)>|
        collision_spans(keys_of(s), spans) && spans.len() == groups.len() && forall|g: int|
            0 <= g < groups.len() ==> #[trigger] groups[g] == rels(s, spans[g].0, spans[g].1)
}

fn issue(path: &String, kind: &str, message: String) -> (r: InventoryIssue)
    ensures
        r@ == (IssueView { path: path@, kind: kind@, message: message@ }),
{
    InventoryIssue { path: path.clone(), kind: kind.to_owned(), message }
}

/// Sorts assets by key, keeping the order of assets with equal keys; also
/// returns the keys in the sorted order.
fn sort_assets(assets: Vec<AssetInfo>) -> (r: (Vec<AssetInfo>, Vec<Vec<char>>))
    ensures
        stable_sort_of(asset_views(r.0@), asset_views(assets@)),
        r.1@.len() == r.0@.len(),
        forall|k: int| 0 <= k < r.1@.len() ==> #[trigger] r.1@[k]@ == sort_key(r.0@[k]@),
{
    let ghost orig = asset_views(assets@);
    let n = assets.len();
    let mut input = assets;
    let mut out: Vec<AssetInfo> = Vec::new();
    let mut keys: Vec<Vec<char>> = Vec::new();
    let ghost mut perm: Seq<int> = Seq::empty();
    let mut i: usize = 0;
    while i < n
        invariant
            n == orig.len(),
            i <= n,
            asset_views(input@) == orig.skip(i as int),
            out@.len() == i,
            keys@.len() == i,
            forall|k: int| 0 <= k < i ==> #[trigger] keys@[k]@ == sort_key(out@[k]@),
            stable_permutation(asset_views(out@), orig.take(i as int), perm),
        decreases n - i,
    {
        assert(asset_views(input@).len() == input@.len());
        assert(asset_views(input@)[0] == orig[i as int]);
        let ghost old_in = input@;
        let x = input.remove(0);
        assert(x@ == orig[i as int]);
        assert forall|k: int| 0 <= k < input@.len() implies asset_views(input@)[k] == orig.skip(
            i + 1,
        )[k] by {
            assert(input@[k] == old_in[k + 1]);
            assert(asset_views(old_in)[k + 1] == orig.skip(i as int)[k + 1]);
        }
        assert(asset_views(input@) =~= orig.skip(i + 1));
        let kx = lower_chars(&chars_of(x.relative_path.as_str()));
        // Upper bound: the first position whose key comes after `kx`.
        let mut lo: usize = 0;
        let mut hi: usize = keys.len();
        while lo < hi
            invariant
                0 <= lo <= hi <= keys@.len(),
                keys@.len() == i,
                forall|k: int| 0 <= k < i ==> #[trigger] keys@[k]@ == sort_key(out@[k]@),
                sorted_keys(keys_of(asset_views(out@))),
                asset_views(out@).len() == i,
                forall|k: int| 0 <= k < lo ==> !lex_lt(kx@, #[trigger] keys@[k]@),
                forall|k: int| hi <= k < keys@.len() ==> lex_lt(kx@, #[trigger] keys@[k]@),
            decreases hi - lo,
        {
            let mid = lo + (hi - lo) / 2;
            let ghost km = keys@[mid as int]@;
            assert(keys_of(asset_views(out@))[mid as int] == km);
            if lex_lt_exec(&kx, &keys[mid]) {
                assert forall|k: int| mid <= k < keys@.len() implies lex_lt(
                    kx@,
                    #[trigger] keys@[k]@,
                ) by {
                    assert(keys_of(asset_views(out@))[k] == keys@[k]@);
                    if k > mid {
                        lemma_lex_lt_le(kx@, km, keys@[k]@);
                    }
                }
                hi = mid;
            } else {
                assert forall|k: int| 0 <= k < mid + 1 implies !lex_lt(
                    kx@,
                    #[trigger] keys@[k]@,
                ) by {
                    assert(keys_of(asset_views(out@))[k] == keys@[k]@);
                    if k < mid && lex_lt(kx@, keys@[k]@) {
                        lemma_lex_lt_le(kx@, keys@[k]@, km);
                    }
                }
                lo = mid + 1;
            }
        }
        let j = lo;
        let ghost old_out = asset_views(out@);
        let ghost old_keys = keys@;
        let ghost old_perm = perm;
        let ghost xv = x@;
        out.insert(j, x);
        keys.insert(j, kx);
        proof {
            perm = old_perm.insert(j as int, i as int);
            let new_out = asset_views(out@);
            assert(new_out =~= old_out.insert(j as int, xv));
            assert forall|k: int| 0 <= k < i + 1 implies #[trigger] keys@[k]@ == sort_key(
                out@[k]@,
            ) by {
                if k < j {
                    assert(keys@[k] == old_keys[k]);
                } else if k > j {
                    assert(keys@[k] == old_keys[k - 1]);
                }
            }
            let ks = keys_of(new_out);
            let old_ks = keys_of(old_out);
            assert forall|k: int, l: int| 0 <= k < l < ks.len() implies lex_le(ks[k], ks[l]) by {
                assert(ks[k] == keys@[k]@);
                assert(ks[l] == keys@[l]@);
                if l < j {
                    assert(old_ks[k] == ks[k] && old_ks[l] == ks[l]);
                } else if k > j {
                    assert(old_ks[k - 1] == ks[k] && old_ks[l - 1] == ks[l]);
                } else if l == j {
                    assert(old_keys[k]@ == ks[k]);
                } else if k == j {
                    assert(old_keys[l - 1]@ == ks[l]);
                    if lex_lt(ks[l], ks[k]) {
                        lemma_lex_transitive(ks[k], ks[l], ks[k]);
                        lemma_lex_irreflexive(ks[k]);
                    }
                } else {
                    assert(old_ks[k] == ks[k] && old_ks[l - 1] == ks[l]);
                }
            }
            let inp = orig.take(i + 1);
            assert(orig.take(i as int) =~= inp.take(i as int));
            assert(xv == inp[i as int]);
            assert forall|k: int| 0 <= k < perm.len() implies 0 <= #[trigger] perm[k] < inp.len()
                && new_out[k] == inp[perm[k]] by {
                if k < j {
                    assert(perm[k] == old_perm[k]);
                    assert(0 <= old_perm[k] < i);
                    assert(new_out[k] == old_out[k]);
                    assert(old_out[k] == orig.take(i as int)[old_perm[k]]);
                } else if k > j {
                    assert(perm[k] == old_perm[k - 1]);
                    assert(0 <= old_perm[k - 1] < i);
                    assert(new_out[k] == old_out[k - 1]);
                    assert(old_out[k - 1] == orig.take(i as int)[old_perm[k - 1]]);
                } else {
                    assert(perm[k] == i);
                    assert(new_out[k] == xv);
                }
            }
            assert forall|k: int, l: int| 0 <= k < l < perm.len() implies perm[k] != perm[l] by {
                if k != j && l != j {
                    let k0 = if k < j {
                        k
                    } else {
                        k - 1
                    };
                    let l0 = if l < j {
                        l
                    } else {
                        l - 1
                    };
                    assert(perm[k] == old_perm[k0] && perm[l] == old_perm[l0]);
                } else if k == j {
                    assert(perm[l] == old_perm[l - 1]);
                } else {
                    assert(perm[k] == old_perm[k]);
                }
            }
            assert forall|k: int, l: int|
                0 <= k < l < new_out.len() && sort_key(new_out[k]) == sort_key(
                    new_out[l],
                ) implies perm[k] < perm[l] by {
                assert(ks[k] == sort_key(new_out[k]) && ks[l] == sort_key(new_out[l]));
                if k != j && l != j {
                    let k0 = if k < j {
                        k
                    } else {
                        k - 1
                    };
                    let l0 = if l < j {
                        l
                    } else {
                        l - 1
                    };
                    assert(perm[k] == old_perm[k0] && perm[l] == old_perm[l0]);
                    assert(new_out[k] == old_out[k0] && new_out[l] == old_out[l0]);
                } else if l == j {
                    assert(perm[k] == old_perm[k]);
                    assert(0 <= old_perm[k] < i);
                    assert(perm[l] == i);
                } else {
                    assert(keys@[l] == old_keys[l - 1]);
                    assert(lex_lt(kx@, old_keys[l - 1]@));
                    assert(ks[k] == kx@);
                    lemma_lex_irreflexive(kx@);
                }
            }
            assert(stable_permutation(new_out, inp, perm));
        }
        i += 1;
    }
    assert(orig.take(n as int) =~= orig);
    (out, keys)
}

proof fn lemma_sorted_equal_between(ks: Seq<Seq<char>>, a: int, m: int, b: int)
    requires
        sorted_keys(ks),
        0 <= a <= m <= b < ks.len(),
        ks[a] == ks[b],
    ensures
        ks[m] == ks[a],
{
    if a < m {
        assert(lex_le(ks[a], ks[m]));
    }
    if m < b {
        assert(lex_le(ks[m], ks[b]));
    }
    if a < m && m < b {
        lemma_lex_antisymmetric(ks[a], ks[m]);
    }
}

/// Finds the runs of equal keys shared by two or more assets.
fn collisions(sorted: &Vec<AssetInfo>, keys: &Vec<Vec<char>>) -> (r: Vec<Vec<String>>)
    requires
        keys@.len() == sorted@.len(),
        forall|k: int| 0 <= k < keys@.len() ==> #[trigger] keys@[k]@ == sort_key(sorted@[k]@),
        sorted_keys(keys_of(asset_views(sorted@))),
    ensures
        collision_groups(asset_views(sorted@), group_views(r@)),
{
    let ghost s = asset_views(sorted@);
    let ghost ks = keys_of(s);
    assert forall|k: int| 0 <= k < keys@.len() implies #[trigger] ks[k] == keys@[k]@ by {}
    let n = keys.len();
    let mut groups: Vec<Vec<String>> = Vec::new();
    let ghost mut spans: Seq<(int, int)> = Seq::empty();
    let mut i: usize = 0;
    while i < n
        invariant
            n == keys@.len() == s.len() == ks.len(),
            i <= n,
            ks == keys_of(s),
            s == asset_views(sorted@),
            sorted_keys(ks),
            forall|k: int| 0 <= k < keys@.len() ==> #[trigger] ks[k] == keys@[k]@,
            i > 0 && i < n ==> ks[i - 1] != ks[i as int],
            spans.len() == groups@.len(),
            forall|g: int|
                0 <= g < spans.len() ==> is_run(ks, spans[g].0, spans[g].1) && spans[g].1
                    - spans[g].0 >= 2 && spans[g].1 <= i,
            forall|g: int, h: int| 0 <= g < h < spans.len() ==> spans[g].1 <= spans[h].0,
            forall|g: int|
                0 <= g < groups@.len() ==> #[trigger] group_views(groups@)[g] == rels(
                    s,
                    spans[g].0,
                    spans[g].1,
                ),
            forall|a: int, b: int|
                0 <= a < b < n && a < i && ks[a] == ks[b] ==> exists|g: int|
                    0 <= g < spans.len() && (#[trigger] spans[g]).0 <= a < spans[g].1,
        decreases n - i,
    {
        let mut j = i + 1;
        while j < n && chars_eq(&keys[j], &keys[i])
            invariant
                i < j <= n,
                n == keys@.len() == ks.len(),
                forall|k: int| 0 <= k < keys@.len() ==> #[trigger] ks[k] == keys@[k]@,
                forall|t: int| i <= t < j ==> ks[t] == ks[i as int],
            decreases n - j,
        {
            j += 1;
        }
        proof {
            // The run i..j holds every element with its key.
            assert forall|t: int| 0 <= t < n && !(i <= t < j) implies ks[t] != ks[i as int] by {
                if t < i && ks[t] == ks[i as int] {
                    lemma_sorted_equal_between(ks, t, (i - 1) as int, i as int);
                }
                if t >= j && ks[t] == ks[i as int] {
                    lemma_sorted_equal_between(ks, i as int, j as int, t);
                }
            }
            assert(is_run(ks, i as int, j as int));
        }
        let ghost old_spans = spans;
        if j - i >= 2 {
            let mut group: Vec<String> = Vec::new();
            let mut t = i;
            while t < j
                invariant
                    i <= t <= j <= n,
                    n == sorted@.len(),
                    s == asset_views(sorted@),
                    group@.len() == t - i,
                    forall|u: int| 0 <= u < t - i ==> #[trigger] group@[u]@ == s[i + u].relative_path,
                decreases j - t,
            {
                group.push(sorted[t].relative_path.clone());
                t += 1;
            }
            let ghost old_groups = groups@;
            groups.push(group);
            proof {
                spans = spans.push((i as int, j as int));
                assert(group_views(groups@)[spans.len() - 1] =~= rels(s, i as int, j as int));
                assert forall|g: int|
                    0 <= g < groups@.len() implies #[trigger] group_views(groups@)[g] == rels(
                    s,
                    spans[g].0,
                    spans[g].1,
                ) by {
                    if g < old_groups.len() {
                        assert(group_views(groups@)[g] == group_views(old_groups)[g]);
                    }
                }
            }
        }
        proof {
            assert forall|a: int, b: int|
                0 <= a < b < n && a < j && ks[a] == ks[b] implies exists|g: int|
                0 <= g < spans.len() && (#[trigger] spans[g]).0 <= a < spans[g].1 by {
                if a >= i {
                    assert(ks[a] == ks[i as int]);
                    assert(i <= b < j);
                    assert(j - i >= 2);
                    assert(spans[spans.len() - 1] == (i as int, j as int));
                } else {
                    let g = choose|g: int|
                        0 <= g < old_spans.len() && (#[trigger] old_spans[g]).0 <= a
                            < old_spans[g].1;
                    assert(spans[g] == old_spans[g]);
                }
            }
        }
        i = j;
    }
    assert(collision_spans(ks, spans));
    groups
}

/// The inventory of the walked entries of `root`: assets sorted by
/// case-insensitive relative path (stably), issues in walking order, the
/// case-insensitive path collisions, and the number of regular files.
pub fn inventory_report(root: String, entries: &Vec<WalkEntry>) -> (r: InventoryReport)
    ensures
        r.root@ == root@,
        stable_sort_of(asset_views(r.assets@), walk_assets(root@, entries@)),
        issue_views(r.issues@) == walk_issues(root@, entries@),
        collision_groups(asset_views(r.assets@), group_views(r.collisions@)),
        r.total_files_seen == files_seen(entries@),
{
    let mut assets: Vec<AssetInfo> = Vec::new();
    let mut issues: Vec<InventoryIssue> = Vec::new();
    let mut total: usize = 0;
    let ghost es = entries@;
    for i in 0..entries.len()
        invariant
            es == entries@,
            asset_views(assets@) == walk_assets(root@, es.take(i as int)),
            issue_views(issues@) == walk_issues(root@, es.take(i as int)),
            total == files_seen(es.take(i as int)),
            total <= i,
    {
        assert(es.take(i + 1).drop_last() =~= es.take(i as int));
        assert(es.take(i + 1).last() == es[i as int]);
        let ghost old_assets = asset_views(assets@);
        let ghost old_issues = issue_views(issues@);
        match &entries[i] {
            WalkEntry::Failed { path, message } => {
                issues.push(issue(path, "read-error", message.clone()));
                assert(issue_views(issues@) =~= old_issues.push(issues@.last()@));
            },
            WalkEntry::Other => {},
            WalkEntry::File { path, contents } => {
                total += 1;
                if supported_extension(path.as_str()) {
                    match inspect(path.as_str(), root.as_str(), contents) {
                        Ok(asset) => {
                            assets.push(asset);
                            assert(asset_views(assets@) =~= old_assets.push(assets@.last()@));
                        },
                        Err(message) => {
                            issues.push(issue(path, "corrupt", message));
                            assert(issue_views(issues@) =~= old_issues.push(issues@.last()@));
                        },
                    }
                } else if looks_like_image(path.as_str()) {
                    issues.push(
                        issue(path, "unsupported", "Supported formats are PNG, JPG, and JPEG".to_owned()),
                    );
                    assert(issue_views(issues@) =~= old_issues.push(issues@.last()@));
                }
            },
        }
    }
    assert(es.take(entries.len() as int) =~= es);
    let (sorted, keys) = sort_assets(assets);
    let collisions = collisions(&sorted, &keys);
    InventoryReport { root, assets: sorted, issues, collisions, total_files_seen: total }
}

} // verus!
