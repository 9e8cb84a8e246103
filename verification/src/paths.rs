//! A model of POSIX path syntax as `std::path` reads it: components,
//! file names and extensions, joining, parents and prefixes. Every function
//! here works on the text of a path; nothing touches a file system.
use vstd::prelude::*;
use crate::text::{chars_eq, concat_chars, join_with, lemma_split_nonempty, lower, lower_chars, split_chars, split_on, views};

verus! {

/// One component of a path, as `std::path::Component` on a POSIX system.
pub enum Comp {
    Root,
    Cur,
    Parent,
    Normal(Seq<char>),
}

/// The `/`-separated pieces of a path's text.
pub open spec fn pieces(p: Seq<char>) -> Seq<Seq<char>> {
    split_on(p, '/')
}

/// An absolute path starts with the separator.
pub open spec fn has_root(p: Seq<char>) -> bool {
    p.len() > 0 && p[0] == '/'
}

/// A relative path that starts with `.` as its first piece keeps it as a
/// `CurDir` component.
pub open spec fn has_cur(p: Seq<char>) -> bool {
    !has_root(p) && pieces(p)[0] == seq!['.']
}

/// Number of leading pieces taken by the root or the leading `.`.
pub open spec fn lead_len(p: Seq<char>) -> int {
    if has_root(p) || has_cur(p) {
        1
    } else {
        0
    }
}

/// Pieces that name no component: empty ones (repeated or trailing
/// separators) and `.` inside the path.
pub open spec fn skipped(x: Seq<char>) -> bool {
    x.len() == 0 || x == seq!['.']
}

/// The component that a non-skipped piece names.
pub open spec fn comp_of(x: Seq<char>) -> Comp {
    if x == seq!['.', '.'] {
        Comp::Parent
    } else {
        Comp::Normal(x)
    }
}

/// The components named by the pieces after the lead.
pub open spec fn body_comps(ps: Seq<Seq<char>>) -> Seq<Comp>
    decreases ps.len(),
{
    if ps.len() == 0 {
        Seq::empty()
    } else {
        let init = body_comps(ps.drop_last());
        if skipped(ps.last()) {
            init
        } else {
            init.push(comp_of(ps.last()))
        }
    }
}

/// The components of a path, as `Path::components` yields them.
pub open spec fn components(p: Seq<char>) -> Seq<Comp> {
    let lead = if has_root(p) {
        seq![Comp::Root]
    } else if has_cur(p) {
        seq![Comp::Cur]
    } else {
        Seq::empty()
    };
    lead + body_comps(pieces(p).skip(lead_len(p)))
}

/// Every component is a plain name.
pub open spec fn all_normal(c: Seq<Comp>) -> bool {
    forall|i: int| 0 <= i < c.len() ==> c[i] is Normal
}

/// `Path::file_name`: the last component when it is a normal name.
pub open spec fn file_name(p: Seq<char>) -> Option<Seq<char>> {
    let c = components(p);
    if c.len() > 0 && c.last() is Normal {
        Some(c.last()->Normal_0)
    } else {
        None
    }
}

/// Index of the last occurrence of `c` in `s`, or -1.
pub open spec fn last_index_of(s: Seq<char>, c: char) -> int
    decreases s.len(),
{
    if s.len() == 0 {
        -1
    } else if s.last() == c {
        s.len() - 1
    } else {
        last_index_of(s.drop_last(), c)
    }
}

/// The extension of a file name: the text after its last `.`, unless that
/// `.` is the first character or there is none.
pub open spec fn name_extension(name: Seq<char>) -> Option<Seq<char>> {
    let i = last_index_of(name, '.');
    if i <= 0 {
        None
    } else {
        Some(name.skip(i + 1))
    }
}

/// `Path::extension`.
pub open spec fn extension(p: Seq<char>) -> Option<Seq<char>> {
    match file_name(p) {
        Some(name) => name_extension(name),
        None => None,
    }
}

/// The lower-cased extension of a path, if it has one.
pub open spec fn lower_extension(p: Seq<char>) -> Option<Seq<char>> {
    match extension(p) {
        Some(e) => Some(lower(e)),
        None => None,
    }
}

/// `PathBuf::push` (and `Path::join`): an absolute path replaces the base;
/// otherwise one separator is put between them unless the base is empty or
/// already ends with one.
pub open spec fn join(base: Seq<char>, rel: Seq<char>) -> Seq<char> {
    if has_root(rel) {
        rel
    } else if base.len() > 0 && base.last() != '/' {
        base + seq!['/'] + rel
    } else {
        base + rel
    }
}

/// Path equality, which compares components.
pub open spec fn same_path(a: Seq<char>, b: Seq<char>) -> bool {
    components(a) == components(b)
}

/// `Path::starts_with`: the components of `base` begin those of `p`.
pub open spec fn starts_with(p: Seq<char>, base: Seq<char>) -> bool {
    let cp = components(p);
    let cb = components(base);
    cb.len() <= cp.len() && cp.take(cb.len() as int) == cb
}

/// First index at or after `i` of a piece that names a component.
pub open spec fn skip_front(ps: Seq<Seq<char>>, i: int) -> int
    decreases ps.len() - i,
{
    if i >= ps.len() {
        i
    } else if skipped(ps[i]) {
        skip_front(ps, i + 1)
    } else {
        i
    }
}

/// End of the pieces `lo..hi` once trailing pieces that name no component
/// are dropped.
pub open spec fn skip_back(ps: Seq<Seq<char>>, lo: int, hi: int) -> int
    decreases hi - lo,
{
    if hi <= lo {
        hi
    } else if skipped(ps[hi - 1]) {
        skip_back(ps, lo, hi - 1)
    } else {
        hi
    }
}

/// Index of the `m`-th piece (counting from 1) at or after `from` that names
/// a component, or the number of pieces when there are fewer.
pub open spec fn nth_kept(ps: Seq<Seq<char>>, from: int, m: int) -> int
    decreases ps.len() - from,
{
    if from >= ps.len() {
        ps.len() as int
    } else if skipped(ps[from]) {
        nth_kept(ps, from + 1, m)
    } else if m <= 1 {
        from
    } else {
        nth_kept(ps, from + 1, m - 1)
    }
}

/// The text of the leading pieces of a rooted or unrooted path.
pub open spec fn render(ps: Seq<Seq<char>>, root: bool) -> Seq<char> {
    if root && ps.len() == 1 {
        seq!['/']
    } else {
        join_with(ps, '/')
    }
}

/// `Path::parent`: the path without its last component, with trailing
/// separators and `.` pieces dropped; none for a root alone or an empty path.
pub open spec fn parent(p: Seq<char>) -> Option<Seq<char>> {
    let ps = pieces(p);
    let lead = lead_len(p);
    let e = skip_back(ps, lead, ps.len() as int);
    if e > lead {
        Some(render(ps.take(skip_back(ps, lead, e - 1)), has_root(p)))
    } else if has_cur(p) {
        Some(Seq::empty())
    } else {
        None
    }
}

/// `Path::strip_prefix`: what follows the components of `base` in `p`, with
/// leading and trailing separators and `.` pieces dropped; none when `base`
/// is not a prefix.
pub open spec fn strip_prefix(p: Seq<char>, base: Seq<char>) -> Option<Seq<char>> {
    let k = components(base).len();
    let ps = pieces(p);
    let lead = lead_len(p);
    if !starts_with(p, base) {
        None
    } else if k == 0 {
        Some(render(ps.take(skip_back(ps, lead, ps.len() as int)), has_root(p)))
    } else {
        let idx = if k <= lead {
            0
        } else {
            nth_kept(ps, lead, k - lead)
        };
        let start = if idx < ps.len() {
            idx + 1
        } else {
            ps.len() as int
        };
        let lo = skip_front(ps, start);
        let hi = skip_back(ps, lo, ps.len() as int);
        Some(join_with(ps.subrange(lo, hi), '/'))
    }
}

/// A component in executable form.
pub enum PathComp {
    RootDir,
    CurDir,
    ParentDir,
    Normal(Vec<char>),
}

/// A component as a plain value.
pub open spec fn comp_view(c: PathComp) -> Comp {
    match c {
        PathComp::RootDir => Comp::Root,
        PathComp::CurDir => Comp::Cur,
        PathComp::ParentDir => Comp::Parent,
        PathComp::Normal(v) => Comp::Normal(v@),
    }
}

/// Components as plain values.
pub open spec fn comp_views(s: Seq<PathComp>) -> Seq<Comp> {
    Seq::new(s.len(), |i: int| comp_view(s[i]))
}

fn is_skipped(x: &[char]) -> (b: bool)
    ensures
        b == skipped(x@),
{
    let b = x.len() == 0 || (x.len() == 1 && x[0] == '.');
    if x.len() == 1 && x[0] == '.' {
        assert(x@ =~= seq!['.']);
    }
    proof {
        if x@ == seq!['.'] {
            assert(x@.len() == 1 && x@[0] == '.');
        }
    }
    b
}

fn is_dot_dot(x: &[char]) -> (b: bool)
    ensures
        b == (x@ == seq!['.', '.']),
{
    let b = x.len() == 2 && x[0] == '.' && x[1] == '.';
    if b {
        assert(x@ =~= seq!['.', '.']);
    }
    b
}

/// The pieces of a path together with its lead.
pub struct Parsed {
    pub pieces: Vec<Vec<char>>,
    pub root: bool,
    pub cur: bool,
}

/// `r` holds the pieces and the lead of `p`.
pub open spec fn parsed_ok(r: Parsed, p: Seq<char>) -> bool {
    &&& views(r.pieces@) == pieces(p)
    &&& r.root == has_root(p)
    &&& r.cur == has_cur(p)
    &&& r.pieces@.len() >= 1
}

/// Splits a path into its pieces and reads its lead.
pub fn parse(p: &[char]) -> (r: Parsed)
    ensures
        parsed_ok(r, p@),
{
    let ps = split_chars(p, '/');
    proof {
        lemma_split_nonempty(p@, '/');
    }
    let root = p.len() > 0 && p[0] == '/';
    let cur = !root && ps[0].len() == 1 && ps[0][0] == '.';
    proof {
        assert(views(ps@)[0] == ps@[0]@);
        if !root && ps@[0]@ == seq!['.'] {
            assert(ps@[0]@.len() == 1);
        }
        if cur {
            assert(ps@[0]@ =~= seq!['.']);
        }
    }
    Parsed { pieces: ps, root, cur }
}

/// The number of leading pieces taken by the root or a leading `.`.
pub fn lead_of(r: &Parsed) -> (n: usize)
    ensures
        n as int == (if r.root || r.cur {
            1int
        } else {
            0
        }),
{
    if r.root || r.cur {
        1
    } else {
        0
    }
}

/// `Path::components`.
pub fn path_components(p: &[char]) -> (r: Vec<PathComp>)
    ensures
        comp_views(r@) == components(p@),
{
    let parsed = parse(p);
    let ps = &parsed.pieces;
    let lead = lead_of(&parsed);
    let mut r: Vec<PathComp> = Vec::new();
    if parsed.root {
        r.push(PathComp::RootDir);
    } else if parsed.cur {
        r.push(PathComp::CurDir);
    }
    let ghost lead_seq = if has_root(p@) {
        seq![Comp::Root]
    } else if has_cur(p@) {
        seq![Comp::Cur]
    } else {
        Seq::<Comp>::empty()
    };
    let ghost body = pieces(p@).skip(lead as int);
    assert(comp_views(r@) =~= lead_seq);
    assert(body.take(0) =~= Seq::<Seq<char>>::empty());
    let mut i = lead;
    while i < ps.len()
        invariant
            lead <= i <= ps.len(),
            views(ps@) == pieces(p@),
            body == pieces(p@).skip(lead as int),
            comp_views(r@) == lead_seq + body_comps(body.take(i - lead)),
        decreases ps.len() - i,
    {
        let x = &ps[i];
        proof {
            assert(body.take(i + 1 - lead).drop_last() =~= body.take(i - lead));
            assert(body.take(i + 1 - lead).last() == x@);
        }
        let ghost before = r@;
        if !is_skipped(x) {
            if is_dot_dot(x) {
                r.push(PathComp::ParentDir);
            } else {
                let mut copy: Vec<char> = Vec::new();
                concat_chars(&mut copy, x);
                r.push(PathComp::Normal(copy));
            }
            assert(comp_views(r@) =~= comp_views(before).push(comp_of(x@)));
        }
        i += 1;
        assert(comp_views(r@) =~= lead_seq + body_comps(body.take(i - lead)));
    }
    assert(body.take(ps.len() - lead) =~= body);
    r
}

fn comp_eq(a: &PathComp, b: &PathComp) -> (r: bool)
    ensures
        r == (comp_view(*a) == comp_view(*b)),
{
    match (a, b) {
        (PathComp::RootDir, PathComp::RootDir) => true,
        (PathComp::CurDir, PathComp::CurDir) => true,
        (PathComp::ParentDir, PathComp::ParentDir) => true,
        (PathComp::Normal(x), PathComp::Normal(y)) => chars_eq(x, y),
        _ => false,
    }
}

/// Whether the components `b` begin the components `a`.
fn comps_prefix(a: &Vec<PathComp>, b: &Vec<PathComp>) -> (r: bool)
    ensures
        r == (b@.len() <= a@.len() && comp_views(a@).take(b@.len() as int) == comp_views(b@)),
{
    if b.len() > a.len() {
        return false;
    }
    for i in 0..b.len()
        invariant
            b@.len() <= a@.len(),
            forall|j: int| 0 <= j < i ==> comp_view(a@[j]) == comp_view(b@[j]),
    {
        if !comp_eq(&a[i], &b[i]) {
            assert(comp_views(a@).take(b@.len() as int)[i as int] == comp_view(a@[i as int]));
            return false;
        }
    }
    assert(comp_views(a@).take(b@.len() as int) =~= comp_views(b@));
    true
}

/// Path equality (`Path == Path`).
pub fn same_path_exec(a: &[char], b: &[char]) -> (r: bool)
    ensures
        r == same_path(a@, b@),
{
    let ca = path_components(a);
    let cb = path_components(b);
    let r = ca.len() == cb.len() && comps_prefix(&ca, &cb);
    assert(comp_views(ca@).len() == ca@.len());
    assert(comp_views(cb@).len() == cb@.len());
    if r {
        assert(comp_views(ca@).take(cb@.len() as int) =~= comp_views(ca@));
    } else if ca.len() == cb.len() {
        assert(comp_views(ca@).take(cb@.len() as int) =~= comp_views(ca@));
    }
    r
}

/// `Path::starts_with`.
pub fn starts_with_exec(p: &[char], base: &[char]) -> (r: bool)
    ensures
        r == starts_with(p@, base@),
{
    let cp = path_components(p);
    let cb = path_components(base);
    comps_prefix(&cp, &cb)
}

/// `Path::file_name`.
pub fn file_name_exec(p: &[char]) -> (r: Option<Vec<char>>)
    ensures
        match r {
            Some(v) => file_name(p@) == Some(v@),
            None => file_name(p@) is None,
        },
{
    let mut c = path_components(p);
    let ghost cv = comp_views(c@);
    if c.len() == 0 {
        return None;
    }
    assert(cv.last() == comp_view(c@.last()));
    match c.pop() {
        Some(PathComp::Normal(v)) => Some(v),
        _ => None,
    }
}

proof fn lemma_last_index_bounds(s: Seq<char>, c: char)
    ensures
        -1 <= last_index_of(s, c) < s.len(),
    decreases s.len(),
{
    if s.len() > 0 {
        lemma_last_index_bounds(s.drop_last(), c);
    }
}

fn last_index_exec(s: &[char], c: char) -> (r: Option<usize>)
    ensures
        match r {
            Some(k) => last_index_of(s@, c) == k,
            None => last_index_of(s@, c) == -1,
        },
{
    let mut i: usize = 0;
    let mut r: Option<usize> = None;
    while i < s.len()
        invariant
            0 <= i <= s.len(),
            match r {
                Some(k) => last_index_of(s@.take(i as int), c) == k,
                None => last_index_of(s@.take(i as int), c) == -1,
            },
        decreases s.len() - i,
    {
        assert(s@.take(i + 1).drop_last() =~= s@.take(i as int));
        if s[i] == c {
            r = Some(i);
        }
        i += 1;
    }
    assert(s@.take(s.len() as int) =~= s@);
    r
}

fn name_extension_exec(name: &[char]) -> (r: Option<Vec<char>>)
    ensures
        match r {
            Some(v) => name_extension(name@) == Some(v@),
            None => name_extension(name@) is None,
        },
{
    match last_index_exec(name, '.') {
        None => None,
        Some(i) => {
            proof {
                lemma_last_index_bounds(name@, '.');
            }
            assert(i < name.len());
            if i == 0 {
                None
            } else {
                let mut v: Vec<char> = Vec::new();
                let mut j = i + 1;
                assert(name@.skip(i + 1).take(0) =~= Seq::<char>::empty());
                while j < name.len()
                    invariant
                        i + 1 <= j <= name.len(),
                        v@ == name@.skip(i + 1).take(j - i - 1),
                    decreases name.len() - j,
                {
                    v.push(name[j]);
                    j += 1;
                    assert(v@ =~= name@.skip(i + 1).take(j - i - 1));
                }
                assert(v@ =~= name@.skip(i + 1));
                Some(v)
            }
        },
    }
}

/// `Path::extension`, lower-cased as `to_ascii_lowercase` does.
pub fn lower_extension_exec(p: &[char]) -> (r: Option<Vec<char>>)
    ensures
        match r {
            Some(v) => lower_extension(p@) == Some(v@),
            None => lower_extension(p@) is None,
        },
{
    match file_name_exec(p) {
        None => None,
        Some(name) => match name_extension_exec(&name) {
            None => None,
            Some(e) => Some(lower_chars(&e)),
        },
    }
}

/// `Path::join`.
pub fn join_exec(base: &[char], rel: &[char]) -> (r: Vec<char>)
    ensures
        r@ == join(base@, rel@),
{
    let mut r: Vec<char> = Vec::new();
    if rel.len() > 0 && rel[0] == '/' {
        concat_chars(&mut r, rel);
        return r;
    }
    concat_chars(&mut r, base);
    if base.len() > 0 && base[base.len() - 1] != '/' {
        r.push('/');
    }
    concat_chars(&mut r, rel);
    r
}

fn skip_front_exec(ps: &Vec<Vec<char>>, i: usize) -> (r: usize)
    requires
        i <= ps@.len(),
    ensures
        r == skip_front(views(ps@), i as int),
        i <= r <= ps@.len(),
{
    let mut j = i;
    while j < ps.len() && is_skipped(&ps[j])
        invariant
            i <= j <= ps@.len(),
            skip_front(views(ps@), i as int) == skip_front(views(ps@), j as int),
        decreases ps.len() - j,
    {
        assert(views(ps@)[j as int] == ps@[j as int]@);
        j += 1;
    }
    if j < ps.len() {
        assert(views(ps@)[j as int] == ps@[j as int]@);
    }
    j
}

fn skip_back_exec(ps: &Vec<Vec<char>>, lo: usize, hi: usize) -> (r: usize)
    requires
        lo <= hi <= ps@.len(),
    ensures
        r == skip_back(views(ps@), lo as int, hi as int),
        lo <= r <= hi,
{
    let mut j = hi;
    while j > lo && is_skipped(&ps[j - 1])
        invariant
            lo <= j <= hi,
            hi <= ps@.len(),
            skip_back(views(ps@), lo as int, hi as int) == skip_back(
                views(ps@),
                lo as int,
                j as int,
            ),
        decreases j,
    {
        assert(views(ps@)[j - 1] == ps@[j - 1]@);
        j -= 1;
    }
    if j > lo {
        assert(views(ps@)[j - 1] == ps@[j - 1]@);
    }
    j
}

proof fn lemma_nth_kept_bounds(ps: Seq<Seq<char>>, from: int, m: int)
    requires
        0 <= from <= ps.len(),
    ensures
        from <= nth_kept(ps, from, m) <= ps.len(),
    decreases ps.len() - from,
{
    if from < ps.len() {
        lemma_nth_kept_bounds(ps, from + 1, m);
        lemma_nth_kept_bounds(ps, from + 1, m - 1);
    }
}

fn nth_kept_exec(ps: &Vec<Vec<char>>, from: usize, m: usize) -> (r: usize)
    requires
        from <= ps@.len(),
    ensures
        r == nth_kept(views(ps@), from as int, m as int),
        r <= ps@.len(),
{
    let mut j = from;
    let mut left = m;
    while j < ps.len()
        invariant
            from <= j <= ps@.len(),
            nth_kept(views(ps@), from as int, m as int) == nth_kept(
                views(ps@),
                j as int,
                left as int,
            ),
        decreases ps.len() - j,
    {
        assert(views(ps@)[j as int] == ps@[j as int]@);
        if !is_skipped(&ps[j]) {
            if left <= 1 {
                return j;
            }
            left -= 1;
        }
        j += 1;
    }
    j
}

fn join_range(ps: &Vec<Vec<char>>, lo: usize, hi: usize) -> (r: Vec<char>)
    requires
        lo <= hi <= ps@.len(),
    ensures
        r@ == join_with(views(ps@).subrange(lo as int, hi as int), '/'),
{
    let ghost sub = views(ps@).subrange(lo as int, hi as int);
    let mut r: Vec<char> = Vec::new();
    let mut i = lo;
    assert(sub.take(0) =~= Seq::<Seq<char>>::empty());
    while i < hi
        invariant
            lo <= i <= hi <= ps@.len(),
            sub == views(ps@).subrange(lo as int, hi as int),
            r@ == join_with(sub.take(i - lo), '/'),
        decreases hi - i,
    {
        assert(sub.take(i + 1 - lo).drop_last() =~= sub.take(i - lo));
        assert(sub.take(i + 1 - lo).last() == ps@[i as int]@);
        let ghost prev = r@;
        if i > lo {
            r.push('/');
        }
        concat_chars(&mut r, &ps[i]);
        i += 1;
        assert(r@ =~= join_with(sub.take(i - lo), '/'));
    }
    assert(sub.take(hi - lo) =~= sub);
    r
}

fn render_exec(ps: &Vec<Vec<char>>, n: usize, root: bool) -> (r: Vec<char>)
    requires
        n <= ps@.len(),
    ensures
        r@ == render(views(ps@).take(n as int), root),
{
    if root && n == 1 {
        let mut r: Vec<char> = Vec::new();
        r.push('/');
        assert(r@ =~= seq!['/']);
        r
    } else {
        let r = join_range(ps, 0, n);
        assert(views(ps@).subrange(0, n as int) =~= views(ps@).take(n as int));
        r
    }
}

/// `Path::parent`.
pub fn parent_exec(p: &[char]) -> (r: Option<Vec<char>>)
    ensures
        match r {
            Some(v) => parent(p@) == Some(v@),
            None => parent(p@) is None,
        },
{
    let parsed = parse(p);
    let lead = lead_of(&parsed);
    let ps = &parsed.pieces;
    let e = skip_back_exec(ps, lead, ps.len());
    if e > lead {
        let k = skip_back_exec(ps, lead, e - 1);
        Some(render_exec(ps, k, parsed.root))
    } else if parsed.cur {
        Some(Vec::new())
    } else {
        None
    }
}

/// `Path::strip_prefix`.
pub fn strip_prefix_exec(p: &[char], base: &[char]) -> (r: Option<Vec<char>>)
    ensures
        match r {
            Some(v) => strip_prefix(p@, base@) == Some(v@),
            None => strip_prefix(p@, base@) is None,
        },
{
    let cp = path_components(p);
    let cb = path_components(base);
    if !comps_prefix(&cp, &cb) {
        return None;
    }
    let k = cb.len();
    assert(components(base@).len() == k);
    let parsed = parse(p);
    let lead = lead_of(&parsed);
    let ps = &parsed.pieces;
    if k == 0 {
        let e = skip_back_exec(ps, lead, ps.len());
        return Some(render_exec(ps, e, parsed.root));
    }
    let idx = if k <= lead {
        0
    } else {
        nth_kept_exec(ps, lead, k - lead)
    };
    let start = if idx < ps.len() {
        idx + 1
    } else {
        idx
    };
    let lo = skip_front_exec(ps, start);
    let hi = skip_back_exec(ps, lo, ps.len());
    Some(join_range(ps, lo, hi))
}

} // verus!
