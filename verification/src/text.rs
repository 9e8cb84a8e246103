//! Character-level text handling: conversions between `str` and character
//! vectors, ASCII case folding, Unicode white space and splitting.
use vstd::prelude::*;

verus! {

/// The Unicode `White_Space` property, which `char::is_whitespace` tests.
pub open spec fn is_space(c: char) -> bool {
    let u = c as u32;
    ||| 0x09 <= u <= 0x0D
    ||| u == 0x20
    ||| u == 0x85
    ||| u == 0xA0
    ||| u == 0x1680
    ||| 0x2000 <= u <= 0x200A
    ||| u == 0x2028
    ||| u == 0x2029
    ||| u == 0x202F
    ||| u == 0x205F
    ||| u == 0x3000
}

/// Whether `c` is Unicode white space, as `char::is_whitespace`.
pub fn is_space_char(c: char) -> (b: bool)
    ensures
        b == is_space(c),
{
    let u = c as u32;
    (0x09 <= u && u <= 0x0D) || u == 0x20 || u == 0x85 || u == 0xA0 || u == 0x1680 || (0x2000
        <= u && u <= 0x200A) || u == 0x2028 || u == 0x2029 || u == 0x202F || u == 0x205F || u
        == 0x3000
}

/// ASCII lower-casing of one character, as `char::to_ascii_lowercase`.
pub open spec fn lower_char(c: char) -> char {
    if 'A' <= c <= 'Z' {
        ((c as u32) + 32) as char
    } else {
        c
    }
}

/// ASCII lower-casing of a text, as `str::to_ascii_lowercase`.
pub open spec fn lower(s: Seq<char>) -> Seq<char> {
    Seq::new(s.len(), |i: int| lower_char(s[i]))
}

/// ASCII lower-casing of one character.
pub fn lower_char_exec(c: char) -> (r: char)
    ensures
        r == lower_char(c),
{
    if 'A' <= c && c <= 'Z' {
        let b = c as u8;
        let r = (b + 32) as char;
        assert(r as u32 == c as u32 + 32);
        r
    } else {
        c
    }
}

/// ASCII lower-casing of a text.
pub fn lower_chars(s: &[char]) -> (r: Vec<char>)
    ensures
        r@ == lower(s@),
{
    let mut r: Vec<char> = Vec::new();
    for i in 0..s.len()
        invariant
            r@ == lower(s@).take(i as int),
    {
        r.push(lower_char_exec(s[i]));
        assert(r@ =~= lower(s@).take(i + 1));
    }
    assert(r@ =~= lower(s@));
    r
}

/// The characters of a string slice.
pub fn chars_of(s: &str) -> (v: Vec<char>)
    ensures
        v@ == s@,
{
    broadcast use vstd::string::axiom_spec_iter;

    let mut v: Vec<char> = Vec::new();
    for c in it: s.chars()
        invariant
            it.seq() == s@,
            v@ == it.seq().take(it.index() as int),
    {
        v.push(c);
    }
    assert(v@ =~= s@);
    v
}

/// Builds a `String` from its characters (`FromIterator<char>` of std).
#[verifier::external_body]
pub(crate) fn string_of(chars: &[char]) -> (s: String)
    ensures
        s@ == chars@,
{
    chars.iter().collect()
}

/// Whether two texts are equal.
pub fn chars_eq(a: &[char], b: &[char]) -> (r: bool)
    ensures
        r == (a@ == b@),
{
    if a.len() != b.len() {
        return false;
    }
    for i in 0..a.len()
        invariant
            a.len() == b.len(),
            forall|j: int| 0 <= j < i ==> a@[j] == b@[j],
    {
        if a[i] != b[i] {
            return false;
        }
    }
    assert(a@ =~= b@);
    true
}

/// The texts held by a sequence of character vectors.
pub open spec fn views(v: Seq<Vec<char>>) -> Seq<Seq<char>> {
    Seq::new(v.len(), |i: int| v[i]@)
}

/// Splits a text at every occurrence of `sep`, as `str::split` with a
/// character pattern: `n` separators give `n + 1` pieces.
pub open spec fn split_on(s: Seq<char>, sep: char) -> Seq<Seq<char>>
    decreases s.len(),
{
    if s.len() == 0 {
        seq![Seq::empty()]
    } else {
        let init = split_on(s.drop_last(), sep);
        if s.last() == sep {
            init.push(Seq::empty())
        } else {
            init.update(init.len() - 1, init.last().push(s.last()))
        }
    }
}

/// Splitting always gives at least one piece.
pub proof fn lemma_split_nonempty(s: Seq<char>, sep: char)
    ensures
        split_on(s, sep).len() >= 1,
    decreases s.len(),
{
    if s.len() > 0 {
        lemma_split_nonempty(s.drop_last(), sep);
    }
}

/// Splits a text at every `sep` (see `split_on`).
pub fn split_chars(s: &[char], sep: char) -> (parts: Vec<Vec<char>>)
    ensures
        views(parts@) == split_on(s@, sep),
{
    let mut parts: Vec<Vec<char>> = Vec::new();
    let mut cur: Vec<char> = Vec::new();
    assert(s@.take(0) =~= Seq::<char>::empty());
    assert(views(parts@).push(cur@) =~= split_on(s@.take(0), sep));
    for i in 0..s.len()
        invariant
            views(parts@).push(cur@) == split_on(s@.take(i as int), sep),
    {
        proof {
            assert(s@.take(i + 1).drop_last() =~= s@.take(i as int));
            lemma_split_nonempty(s@.take(i as int), sep);
        }
        let ghost before = views(parts@);
        let ghost c = cur@;
        assert(before.push(c).last() == c);
        if s[i] == sep {
            parts.push(cur);
            cur = Vec::new();
            assert(views(parts@) =~= before.push(c));
            assert(views(parts@).push(cur@) =~= split_on(s@.take(i + 1), sep));
        } else {
            let ghost old_cur = cur@;
            cur.push(s[i]);
            assert(views(parts@).push(cur@) =~= split_on(s@.take(i + 1), sep));
        }
    }
    assert(s@.take(s@.len() as int) =~= s@);
    let ghost before = views(parts@);
    let ghost c = cur@;
    parts.push(cur);
    assert(views(parts@) =~= before.push(c));
    parts
}

/// Joins pieces with one `sep` between neighbours.
pub open spec fn join_with(ps: Seq<Seq<char>>, sep: char) -> Seq<char>
    decreases ps.len(),
{
    if ps.len() == 0 {
        Seq::empty()
    } else if ps.len() == 1 {
        ps[0]
    } else {
        join_with(ps.drop_last(), sep) + seq![sep] + ps.last()
    }
}

/// Joins texts with `sep` between them (see `join_with`).
pub fn join_chars(ps: &[Vec<char>], sep: char) -> (r: Vec<char>)
    ensures
        r@ == join_with(views(ps@), sep),
{
    let mut r: Vec<char> = Vec::new();
    for i in 0..ps.len()
        invariant
            r@ == join_with(views(ps@).take(i as int), sep),
    {
        assert(views(ps@).take(i + 1).drop_last() =~= views(ps@).take(i as int));
        if i > 0 {
            r.push(sep);
        }
        let piece = &ps[i];
        for j in 0..piece.len()
            invariant
                r@ == (if i > 0 {
                    join_with(views(ps@).take(i as int), sep) + seq![sep]
                } else {
                    Seq::empty()
                }) + piece@.take(j as int),
        {
            r.push(piece[j]);
            assert(piece@.take(j + 1) =~= piece@.take(j as int).push(piece@[j as int]));
        }
        assert(piece@.take(piece@.len() as int) =~= piece@);
        assert(views(ps@)[i as int] == piece@);
        assert(r@ =~= join_with(views(ps@).take(i + 1), sep));
    }
    assert(views(ps@).take(views(ps@).len() as int) =~= views(ps@));
    r
}

/// Appends `b` to `a`.
pub fn concat_chars(a: &mut Vec<char>, b: &[char])
    ensures
        final(a)@ == old(a)@ + b@,
{
    let ghost start = a@;
    for i in 0..b.len()
        invariant
            a@ == start + b@.take(i as int),
    {
        a.push(b[i]);
        assert(b@.take(i + 1) =~= b@.take(i as int).push(b@[i as int]));
    }
    assert(b@.take(b@.len() as int) =~= b@);
}

/// Lexicographic order of texts by character code, the order of `str`'s
/// `Ord` (UTF-8 byte order and code point order agree).
pub open spec fn lex_lt(a: Seq<char>, b: Seq<char>) -> bool
    decreases a.len(),
{
    if a.len() == 0 {
        b.len() > 0
    } else if b.len() == 0 {
        false
    } else if a[0] != b[0] {
        a[0] < b[0]
    } else {
        lex_lt(a.drop_first(), b.drop_first())
    }
}

/// No text is below itself.
pub proof fn lemma_lex_irreflexive(a: Seq<char>)
    ensures
        !lex_lt(a, a),
    decreases a.len(),
{
    if a.len() > 0 {
        lemma_lex_irreflexive(a.drop_first());
    }
}

/// The lexicographic order is transitive.
pub proof fn lemma_lex_transitive(a: Seq<char>, b: Seq<char>, c: Seq<char>)
    requires
        lex_lt(a, b),
        lex_lt(b, c),
    ensures
        lex_lt(a, c),
    decreases a.len(),
{
    if a.len() > 0 && b.len() > 0 && c.len() > 0 && a[0] == b[0] && b[0] == c[0] {
        lemma_lex_transitive(a.drop_first(), b.drop_first(), c.drop_first());
    }
}

/// Of two different texts, one is below the other.
pub proof fn lemma_lex_total(a: Seq<char>, b: Seq<char>)
    ensures
        lex_lt(a, b) || lex_lt(b, a) || a == b,
    decreases a.len(),
{
    if a.len() > 0 && b.len() > 0 && a[0] == b[0] {
        lemma_lex_total(a.drop_first(), b.drop_first());
        if a.drop_first() == b.drop_first() {
            assert(a =~= seq![a[0]] + a.drop_first());
            assert(b =~= seq![b[0]] + b.drop_first());
        }
    } else if a.len() == 0 && b.len() == 0 {
        assert(a =~= b);
    }
}

/// `b` does not come before `a`.
pub open spec fn lex_le(a: Seq<char>, b: Seq<char>) -> bool {
    !lex_lt(b, a)
}

/// `lex_le` is transitive.
pub proof fn lemma_lex_le_transitive(a: Seq<char>, b: Seq<char>, c: Seq<char>)
    requires
        lex_le(a, b),
        lex_le(b, c),
    ensures
        lex_le(a, c),
{
    if lex_lt(c, a) {
        lemma_lex_total(a, b);
        if lex_lt(a, b) {
            lemma_lex_transitive(c, a, b);
        }
    }
}

/// Two texts each at most the other are equal.
pub proof fn lemma_lex_antisymmetric(a: Seq<char>, b: Seq<char>)
    requires
        lex_le(a, b),
        lex_le(b, a),
    ensures
        a == b,
{
    lemma_lex_total(a, b);
}

/// Below is at most.
pub proof fn lemma_lex_lt_le(a: Seq<char>, b: Seq<char>, c: Seq<char>)
    requires
        lex_lt(a, b),
        lex_le(b, c),
    ensures
        lex_lt(a, c),
{
    lemma_lex_total(b, c);
    if lex_lt(b, c) {
        lemma_lex_transitive(a, b, c);
    }
}

/// Whether `a` comes before `b` in lexicographic character order.
pub fn lex_lt_exec(a: &[char], b: &[char]) -> (r: bool)
    ensures
        r == lex_lt(a@, b@),
{
    let mut i: usize = 0;
    assert(a@.skip(0) =~= a@);
    assert(b@.skip(0) =~= b@);
    while i < a.len() && i < b.len() && a[i] == b[i]
        invariant
            i <= a@.len(),
            i <= b@.len(),
            lex_lt(a@, b@) == lex_lt(a@.skip(i as int), b@.skip(i as int)),
        decreases a.len() - i,
    {
        assert(a@.skip(i as int).drop_first() =~= a@.skip(i + 1));
        assert(b@.skip(i as int).drop_first() =~= b@.skip(i + 1));
        i += 1;
    }
    if i == a.len() {
        i < b.len()
    } else if i == b.len() {
        false
    } else {
        a[i] < b[i]
    }
}

/// The characters `lo..hi` of `s` as a new vector.
pub fn sub_chars(s: &[char], lo: usize, hi: usize) -> (r: Vec<char>)
    requires
        lo <= hi <= s@.len(),
    ensures
        r@ == s@.subrange(lo as int, hi as int),
{
    let mut r: Vec<char> = Vec::new();
    let mut i = lo;
    while i < hi
        invariant
            lo <= i <= hi <= s@.len(),
            r@ == s@.subrange(lo as int, i as int),
        decreases hi - i,
    {
        r.push(s[i]);
        i += 1;
        assert(r@ =~= s@.subrange(lo as int, i as int));
    }
    r
}

/// `s` without its leading characters satisfying `is_space`.
pub open spec fn trim_start(s: Seq<char>) -> Seq<char>
    decreases s.len(),
{
    if s.len() > 0 && is_space(s[0]) {
        trim_start(s.drop_first())
    } else {
        s
    }
}

/// `s` without its trailing characters satisfying `is_space`.
pub open spec fn trim_end(s: Seq<char>) -> Seq<char>
    decreases s.len(),
{
    if s.len() > 0 && is_space(s.last()) {
        trim_end(s.drop_last())
    } else {
        s
    }
}

/// `str::trim`: white space removed from both ends.
pub open spec fn trim(s: Seq<char>) -> Seq<char> {
    trim_end(trim_start(s))
}

/// `s` without its leading copies of `c` (`trim_start_matches` with a
/// character).
pub open spec fn strip_start(s: Seq<char>, c: char) -> Seq<char>
    decreases s.len(),
{
    if s.len() > 0 && s[0] == c {
        strip_start(s.drop_first(), c)
    } else {
        s
    }
}

/// `s` without its trailing copies of `c` (`trim_end_matches` with a
/// character).
pub open spec fn strip_end(s: Seq<char>, c: char) -> Seq<char>
    decreases s.len(),
{
    if s.len() > 0 && s.last() == c {
        strip_end(s.drop_last(), c)
    } else {
        s
    }
}

/// The text without leading white space.
pub fn trim_start_exec(s: &[char]) -> (r: Vec<char>)
    ensures
        r@ == trim_start(s@),
{
    let mut i: usize = 0;
    assert(s@.skip(0) =~= s@);
    while i < s.len() && is_space_char(s[i])
        invariant
            i <= s@.len(),
            trim_start(s@) == trim_start(s@.skip(i as int)),
        decreases s.len() - i,
    {
        assert(s@.skip(i as int).drop_first() =~= s@.skip(i + 1));
        i += 1;
    }
    assert(s@.subrange(i as int, s@.len() as int) =~= s@.skip(i as int));
    sub_chars(s, i, s.len())
}

/// The text without trailing white space.
pub fn trim_end_exec(s: &[char]) -> (r: Vec<char>)
    ensures
        r@ == trim_end(s@),
{
    let mut j: usize = s.len();
    assert(s@.take(s@.len() as int) =~= s@);
    while j > 0 && is_space_char(s[j - 1])
        invariant
            j <= s@.len(),
            trim_end(s@) == trim_end(s@.take(j as int)),
        decreases j,
    {
        assert(s@.take(j as int).drop_last() =~= s@.take(j - 1));
        j -= 1;
    }
    assert(s@.subrange(0, j as int) =~= s@.take(j as int));
    sub_chars(s, 0, j)
}

/// The text without leading and trailing white space.
pub fn trim_exec(s: &[char]) -> (r: Vec<char>)
    ensures
        r@ == trim(s@),
{
    let a = trim_start_exec(s);
    trim_end_exec(&a)
}

/// The text without the leading run of `c`.
pub fn strip_start_exec(s: &[char], c: char) -> (r: Vec<char>)
    ensures
        r@ == strip_start(s@, c),
{
    let mut i: usize = 0;
    assert(s@.skip(0) =~= s@);
    while i < s.len() && s[i] == c
        invariant
            i <= s@.len(),
            strip_start(s@, c) == strip_start(s@.skip(i as int), c),
        decreases s.len() - i,
    {
        assert(s@.skip(i as int).drop_first() =~= s@.skip(i + 1));
        i += 1;
    }
    assert(s@.subrange(i as int, s@.len() as int) =~= s@.skip(i as int));
    sub_chars(s, i, s.len())
}

/// The text without the trailing run of `c`.
pub fn strip_end_exec(s: &[char], c: char) -> (r: Vec<char>)
    ensures
        r@ == strip_end(s@, c),
{
    let mut j: usize = s.len();
    assert(s@.take(s@.len() as int) =~= s@);
    while j > 0 && s[j - 1] == c
        invariant
            j <= s@.len(),
            strip_end(s@, c) == strip_end(s@.take(j as int), c),
        decreases j,
    {
        assert(s@.take(j as int).drop_last() =~= s@.take(j - 1));
        j -= 1;
    }
    assert(s@.subrange(0, j as int) =~= s@.take(j as int));
    sub_chars(s, 0, j)
}

/// Whether `s` holds a character that is not white space.
pub open spec fn has_text(s: Seq<char>) -> bool {
    exists|i: int| 0 <= i < s.len() && !is_space(#[trigger] s[i])
}

/// Whether the text holds a character that is not white space.
pub fn has_text_exec(s: &[char]) -> (r: bool)
    ensures
        r == has_text(s@),
{
    for i in 0..s.len()
        invariant
            forall|j: int| 0 <= j < i ==> is_space(#[trigger] s@[j]),
    {
        if !is_space_char(s[i]) {
            return true;
        }
    }
    false
}

/// A line's terminating carriage return, if any, removed.
pub open spec fn strip_cr(l: Seq<char>) -> Seq<char> {
    if l.len() > 0 && l.last() == '\r' {
        l.drop_last()
    } else {
        l
    }
}

/// `str::lines`: the text split at line feeds, each terminated line without
/// a carriage return before its feed, and no final empty line.
pub open spec fn lines(s: Seq<char>) -> Seq<Seq<char>> {
    let p = split_on(s, '\n');
    let terminated = Seq::new((p.len() - 1) as nat, |i: int| strip_cr(p[i]));
    if p.last().len() > 0 {
        terminated.push(p.last())
    } else {
        terminated
    }
}

/// The lines of a text (see `lines`).
pub fn lines_exec(s: &[char]) -> (r: Vec<Vec<char>>)
    ensures
        views(r@) == lines(s@),
{
    let mut parts = split_chars(s, '\n');
    proof {
        lemma_split_nonempty(s@, '\n');
    }
    let ghost p = views(parts@);
    let last = parts.pop().unwrap();
    assert(last@ == p.last());
    let mut r: Vec<Vec<char>> = Vec::new();
    for i in 0..parts.len()
        invariant
            parts@.len() == p.len() - 1,
            forall|k: int| 0 <= k < parts@.len() ==> #[trigger] parts@[k]@ == p[k],
            views(r@) == Seq::new(i as nat, |k: int| strip_cr(p[k])),
    {
        let line = &parts[i];
        let n = line.len();
        assert(line@ == p[i as int]);
        let ghost before = views(r@);
        if n > 0 && line[n - 1] == '\r' {
            r.push(sub_chars(line, 0, n - 1));
            assert(line@.drop_last() =~= line@.subrange(0, n - 1));
        } else {
            r.push(sub_chars(line, 0, n));
            assert(line@ =~= line@.subrange(0, n as int));
        }
        assert(views(r@) =~= before.push(strip_cr(p[i as int])));
        assert(views(r@) =~= Seq::new((i + 1) as nat, |k: int| strip_cr(p[k])));
    }
    if last.len() > 0 {
        let ghost before = views(r@);
        r.push(last);
        assert(views(r@) =~= before.push(p.last()));
    }
    r
}

} // verus!
