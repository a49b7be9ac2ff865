//! Character-level text model shared by the parsers and matchers.
//!
//! Strings are modelled as `Seq<char>`: every exec helper here works on
//! `Vec<char>` and states its result over the spec functions below, which
//! follow the documented behaviour of the corresponding `str` methods.
use vstd::prelude::*;

verus! {

/// The Unicode `White_Space` property, which `char::is_whitespace`,
/// `str::trim` and `str::split_whitespace` use.
pub open spec fn is_ws(c: char) -> bool {
    let u = c as u32;
    ||| 0x9 <= u <= 0xD
    ||| u == 0x20
    ||| u == 0x85
    ||| u == 0xA0
    ||| u == 0x1680
    ||| 0x2000 <= u <= 0x200A
    ||| u == 0x2028
    ||| u == 0x2029
    ||| u == 0x202F
    ||| u == 0x205F
    ||| u == 0x3000
}

/// Leading white space removed.
pub open spec fn trim_start(s: Seq<char>) -> Seq<char>
    decreases s.len(),
{
    if s.len() > 0 && is_ws(s[0]) {
        trim_start(s.drop_first())
    } else {
        s
    }
}

/// Trailing white space removed.
pub open spec fn trim_end(s: Seq<char>) -> Seq<char>
    decreases s.len(),
{
    if s.len() > 0 && is_ws(s.last()) {
        trim_end(s.drop_last())
    } else {
        s
    }
}

/// `str::trim`: white space removed at both ends.
pub open spec fn trim(s: Seq<char>) -> Seq<char> {
    trim_end(trim_start(s))
}

/// `p` is a prefix of `s`.
pub open spec fn starts_with(s: Seq<char>, p: Seq<char>) -> bool {
    p.len() <= s.len() && s.subrange(0, p.len() as int) == p
}

/// `p` occurs in `s` starting at index `i`.
pub open spec fn occurs_at(s: Seq<char>, p: Seq<char>, i: int) -> bool {
    0 <= i && i + p.len() <= s.len() && s.subrange(i, i + p.len()) == p
}

/// `str::contains` with a string pattern.
pub open spec fn contains(s: Seq<char>, p: Seq<char>) -> bool {
    exists|i: int| #[trigger] occurs_at(s, p, i)
}

/// `str::find`: the index of the first occurrence of `p` in `s`.
pub open spec fn find(s: Seq<char>, p: Seq<char>) -> Option<int>
    decreases s.len(),
{
    if starts_with(s, p) {
        Some(0)
    } else if s.len() == 0 {
        None
    } else {
        match find(s.drop_first(), p) {
            Some(i) => Some(i + 1),
            None => None,
        }
    }
}

/// `str::replace`: every non-overlapping occurrence of `f`, scanning from the
/// left, replaced by `t` (an empty `f` puts `t` around every character).
pub open spec fn replace(s: Seq<char>, f: Seq<char>, t: Seq<char>) -> Seq<char>
    decreases s.len(),
{
    if f.len() == 0 {
        if s.len() == 0 {
            t
        } else {
            t + seq![s[0]] + replace(s.drop_first(), f, t)
        }
    } else if s.len() == 0 {
        Seq::empty()
    } else if starts_with(s, f) {
        t + replace(s.skip(f.len() as int), f, t)
    } else {
        seq![s[0]] + replace(s.drop_first(), f, t)
    }
}

/// Adds `p` in front of the first piece of a split.
pub open spec fn prepend_first(r: Seq<Seq<char>>, p: Seq<char>) -> Seq<Seq<char>> {
    r.update(0, p + r[0])
}

/// `str::split` with a non-empty separator: the pieces between the
/// non-overlapping occurrences of `sep`, scanning from the left.
pub open spec fn split(s: Seq<char>, sep: Seq<char>) -> Seq<Seq<char>>
    decreases s.len(),
{
    if s.len() == 0 || sep.len() == 0 {
        seq![s]
    } else if starts_with(s, sep) {
        seq![Seq::<char>::empty()] + split(s.skip(sep.len() as int), sep)
    } else {
        prepend_first(split(s.drop_first(), sep), seq![s[0]])
    }
}

/// `str::split_whitespace`: the maximal runs of non-white-space characters.
pub open spec fn words(s: Seq<char>) -> Seq<Seq<char>>
    decreases s.len(),
{
    if s.len() == 0 {
        Seq::empty()
    } else if is_ws(s[0]) {
        words(s.drop_first())
    } else if s.len() > 1 && !is_ws(s[1]) {
        prepend_first(words(s.drop_first()), seq![s[0]])
    } else {
        seq![seq![s[0]]] + words(s.drop_first())
    }
}

/// `join` of a list of pieces with a separator.
pub open spec fn join(parts: Seq<Seq<char>>, sep: Seq<char>) -> Seq<char>
    decreases parts.len(),
{
    if parts.len() == 0 {
        Seq::empty()
    } else if parts.len() == 1 {
        parts[0]
    } else {
        join(parts.drop_last(), sep) + sep + parts.last()
    }
}

/// White space collapsed: the words of `s` joined by single spaces, as
/// `split_whitespace().collect::<Vec<_>>().join(" ")` computes.
pub open spec fn squeeze(s: Seq<char>) -> Seq<char> {
    join(words(s), seq![' '])
}

/// `char::to_ascii_lowercase`.
pub open spec fn ascii_lower_char(c: char) -> char {
    if 'A' <= c && c <= 'Z' {
        ((c as u32) + 32) as char
    } else {
        c
    }
}

/// `str::to_ascii_lowercase`.
pub open spec fn ascii_lower(s: Seq<char>) -> Seq<char> {
    s.map_values(|c: char| ascii_lower_char(c))
}

/// `char::is_ascii_digit`.
pub open spec fn is_digit(c: char) -> bool {
    '0' <= c && c <= '9'
}

/// The characters of `s` that are ASCII digits, in order.
pub open spec fn digits_of(s: Seq<char>) -> Seq<char> {
    s.filter(|c: char| is_digit(c))
}

// ---------------------------------------------------------------------------
// Lemmas
// ---------------------------------------------------------------------------

pub proof fn lemma_find_short(s: Seq<char>, p: Seq<char>)
    requires
        s.len() < p.len(),
    ensures
        find(s, p) is None,
    decreases s.len(),
{
    if s.len() > 0 {
        lemma_find_short(s.drop_first(), p);
    }
}

pub proof fn lemma_find_occurs(s: Seq<char>, p: Seq<char>)
    ensures
        match find(s, p) {
            Some(i) => occurs_at(s, p, i) && forall|j: int| 0 <= j < i ==> !#[trigger] occurs_at(s, p, j),
            None => forall|j: int| !#[trigger] occurs_at(s, p, j),
        },
    decreases s.len(),
{
    if starts_with(s, p) {
        assert(s.subrange(0, p.len() as int) == p);
    } else if s.len() == 0 {
        assert forall|j: int| !#[trigger] occurs_at(s, p, j) by {
            if occurs_at(s, p, j) {
                assert(s.subrange(0, p.len() as int) =~= p);
            }
        }
    } else {
        let t = s.drop_first();
        lemma_find_occurs(t, p);
        assert forall|j: int| 0 <= j implies (#[trigger] occurs_at(s, p, j + 1) <==> occurs_at(t, p, j)) by {
            if 0 <= j && j + 1 + p.len() <= s.len() {
                assert(s.subrange(j + 1, j + 1 + p.len()) =~= t.subrange(j, j + p.len()));
            }
        }
        assert(!occurs_at(s, p, 0)) by {
            if occurs_at(s, p, 0) {
                assert(s.subrange(0, p.len() as int) =~= s.subrange(0, 0 + p.len() as int));
            }
        }
        match find(t, p) {
            Some(i) => {
                assert(occurs_at(s, p, i + 1));
                assert forall|j: int| 0 <= j < i + 1 implies !#[trigger] occurs_at(s, p, j) by {
                    if j > 0 {
                        assert(occurs_at(s, p, (j - 1) + 1) <==> occurs_at(t, p, j - 1));
                    }
                }
            },
            None => {
                assert forall|j: int| !#[trigger] occurs_at(s, p, j) by {
                    if j > 0 {
                        assert(occurs_at(s, p, (j - 1) + 1) <==> occurs_at(t, p, j - 1));
                    }
                }
            },
        }
    }
}

/// `find` is `Some` exactly when the pattern occurs.
pub proof fn lemma_find_contains(s: Seq<char>, p: Seq<char>)
    ensures
        find(s, p) is Some <==> contains(s, p),
{
    lemma_find_occurs(s, p);
    if let Some(i) = find(s, p) {
        assert(occurs_at(s, p, i));
    }
}

pub proof fn lemma_split_nonempty(s: Seq<char>, sep: Seq<char>)
    ensures
        split(s, sep).len() >= 1,
    decreases s.len(),
{
    if s.len() == 0 || sep.len() == 0 {
    } else if starts_with(s, sep) {
        lemma_split_nonempty(s.skip(sep.len() as int), sep);
    } else {
        lemma_split_nonempty(s.drop_first(), sep);
    }
}

pub proof fn lemma_words_nonempty(s: Seq<char>)
    requires
        s.len() > 0,
        !is_ws(s[0]),
    ensures
        words(s).len() >= 1,
    decreases s.len(),
{
    if s.len() > 1 && !is_ws(s[1]) {
        lemma_words_nonempty(s.drop_first());
    }
}

/// A string that does not contain the pattern is left unchanged by `replace`.
pub proof fn lemma_replace_absent(s: Seq<char>, f: Seq<char>, t: Seq<char>)
    requires
        f.len() > 0,
        !contains(s, f),
    ensures
        replace(s, f, t) == s,
    decreases s.len(),
{
    if s.len() > 0 {
        assert(!occurs_at(s, f, 0));
        assert(!starts_with(s, f)) by {
            if starts_with(s, f) {
                assert(s.subrange(0, 0 + f.len() as int) =~= s.subrange(0, f.len() as int));
            }
        }
        let u = s.drop_first();
        assert(!contains(u, f)) by {
            if contains(u, f) {
                let j = choose|j: int| occurs_at(u, f, j);
                assert(s.subrange(j + 1, j + 1 + f.len()) =~= u.subrange(j, j + f.len()));
                assert(occurs_at(s, f, j + 1));
            }
        }
        lemma_replace_absent(u, f, t);
        assert(s =~= seq![s[0]] + u);
    }
}

/// A single-character pattern occurs exactly where that character is.
pub proof fn lemma_contains_char(s: Seq<char>, c: char)
    ensures
        contains(s, seq![c]) <==> s.contains(c),
{
    if contains(s, seq![c]) {
        let i = choose|i: int| occurs_at(s, seq![c], i);
        assert(s.subrange(i, i + 1)[0] == s[i]);
    }
    if s.contains(c) {
        let i = choose|i: int| 0 <= i < s.len() && s[i] == c;
        assert(s.subrange(i, i + 1) =~= seq![c]);
        assert(occurs_at(s, seq![c], i));
    }
}

/// Trimming a string whose ends are not white space leaves it unchanged.
pub proof fn lemma_trim_noop(s: Seq<char>)
    requires
        s.len() > 0 ==> !is_ws(s[0]) && !is_ws(s.last()),
    ensures
        trim(s) == s,
{
}

// ---------------------------------------------------------------------------
// Standard library calls
// ---------------------------------------------------------------------------

/// `String::push`: appends one character.
#[verifier::external_body]
pub(crate) fn push_char(s: &mut String, c: char)
    ensures
        final(s)@ == old(s)@.push(c),
{
    s.push(c);
}

// ---------------------------------------------------------------------------
// Exec helpers on character vectors
// ---------------------------------------------------------------------------

/// The characters of a string slice.
pub fn chars_of(s: &str) -> (v: Vec<char>)
    ensures
        v@ == s@,
{
    let mut v: Vec<char> = Vec::new();
    for c in it: s.chars()
        invariant
            v@ == it.seq().take(it.index() as int),
    {
        v.push(c);
    }
    v
}

/// A string made of the given characters.
pub fn string_of(v: &Vec<char>) -> (s: String)
    ensures
        s@ == v@,
{
    let mut s = String::new();
    let mut i: usize = 0;
    while i < v.len()
        invariant
            i <= v.len(),
            s@ == v@.take(i as int),
        decreases v.len() - i,
    {
        push_char(&mut s, v[i]);
        assert(v@.take(i + 1) =~= v@.take(i as int).push(v@[i as int]));
        i = i + 1;
    }
    assert(v@.take(v.len() as int) =~= v@);
    s
}

/// Appends all of `src` to `dst`.
pub fn push_all(dst: &mut Vec<char>, src: &Vec<char>)
    ensures
        final(dst)@ == old(dst)@ + src@,
{
    let mut i: usize = 0;
    while i < src.len()
        invariant
            i <= src.len(),
            dst@ == old(dst)@ + src@.take(i as int),
        decreases src.len() - i,
    {
        dst.push(src[i]);
        assert(src@.take(i + 1) =~= src@.take(i as int).push(src@[i as int]));
        i = i + 1;
    }
    assert(src@.take(src.len() as int) =~= src@);
}

/// The characters `s[start..end]`.
pub fn slice_of(s: &Vec<char>, start: usize, end: usize) -> (r: Vec<char>)
    requires
        start <= end <= s.len(),
    ensures
        r@ == s@.subrange(start as int, end as int),
{
    let mut r: Vec<char> = Vec::new();
    let mut i = start;
    while i < end
        invariant
            start <= i <= end <= s.len(),
            r@ == s@.subrange(start as int, i as int),
        decreases end - i,
    {
        r.push(s[i]);
        assert(s@.subrange(start as int, i + 1) =~= s@.subrange(start as int, i as int).push(
            s@[i as int],
        ));
        i = i + 1;
    }
    r
}

/// Whether `p` occurs in `s` at index `i`.
pub fn matches_at(s: &Vec<char>, p: &Vec<char>, i: usize) -> (b: bool)
    requires
        i <= s.len(),
    ensures
        b == starts_with(s@.skip(i as int), p@),
        b == occurs_at(s@, p@, i as int),
{
    if p.len() > s.len() - i {
        return false;
    }
    let mut k: usize = 0;
    while k < p.len()
        invariant
            k <= p.len(),
            i + p.len() <= s.len(),
            forall|j: int| 0 <= j < k ==> s@[i + j] == p@[j],
        decreases p.len() - k,
    {
        if s[i + k] != p[k] {
            assert(s@.skip(i as int).subrange(0, p.len() as int)[k as int] != p@[k as int]);
            assert(s@.subrange(i as int, i + p.len())[k as int] != p@[k as int]);
            return false;
        }
        k = k + 1;
    }
    assert(s@.skip(i as int).subrange(0, p.len() as int) =~= p@);
    assert(s@.subrange(i as int, i + p.len()) =~= p@);
    true
}

/// Index of the first occurrence of `p` in `s[start..]`, counted from the
/// start of `s`.
pub fn find_from(s: &Vec<char>, p: &Vec<char>, start: usize) -> (r: Option<usize>)
    requires
        start <= s.len(),
    ensures
        match find(s@.skip(start as int), p@) {
            Some(k) => r == Some((start + k) as usize),
            None => r is None,
        },
{
    let mut i = start;
    while i < s.len()
        invariant
            start <= i <= s.len(),
            find(s@.skip(start as int), p@) == match find(s@.skip(i as int), p@) {
                Some(k) => Some(k + (i - start)),
                None => None,
            },
        decreases s.len() - i,
    {
        if matches_at(s, p, i) {
            return Some(i);
        }
        assert(s@.skip(i as int).drop_first() =~= s@.skip(i + 1));
        i = i + 1;
    }
    if matches_at(s, p, i) {
        Some(i)
    } else {
        None
    }
}

/// `contains`: whether `p` occurs in `s`.
pub fn contains_vec(s: &Vec<char>, p: &Vec<char>) -> (b: bool)
    ensures
        b == contains(s@, p@),
{
    let r = find_from(s, p, 0);
    proof {
        assert(s@.skip(0) =~= s@);
        lemma_find_contains(s@, p@);
    }
    r.is_some()
}

/// `contains` with a literal or borrowed pattern.
pub fn contains_str(s: &Vec<char>, p: &str) -> (b: bool)
    ensures
        b == contains(s@, p@),
{
    let pv = chars_of(p);
    contains_vec(s, &pv)
}

/// `starts_with` with a borrowed pattern.
pub fn starts_with_str(s: &Vec<char>, p: &str) -> (b: bool)
    ensures
        b == starts_with(s@, p@),
{
    let pv = chars_of(p);
    let b = matches_at(s, &pv, 0);
    assert(s@.skip(0) =~= s@);
    b
}

/// `replace`: every occurrence of `f` replaced by `t`.
pub fn replace_vec(s: &Vec<char>, f: &Vec<char>, t: &Vec<char>) -> (r: Vec<char>)
    ensures
        r@ == replace(s@, f@, t@),
{
    let mut out: Vec<char> = Vec::new();
    let mut i: usize = 0;
    assert(s@.skip(0) =~= s@);
    assert(out@ + replace(s@, f@, t@) =~= replace(s@, f@, t@));
    while i < s.len()
        invariant
            i <= s.len(),
            replace(s@, f@, t@) == out@ + replace(s@.skip(i as int), f@, t@),
        decreases s.len() - i,
    {
        let ghost rest = s@.skip(i as int);
        if f.len() == 0 {
            push_all(&mut out, t);
            out.push(s[i]);
            assert(rest.drop_first() =~= s@.skip(i + 1));
            assert(replace(rest, f@, t@) == t@ + seq![rest[0]] + replace(rest.drop_first(), f@, t@));
            i = i + 1;
        } else if matches_at(s, f, i) {
            push_all(&mut out, t);
            assert(rest.skip(f.len() as int) =~= s@.skip(i + f.len()));
            i = i + f.len();
        } else {
            out.push(s[i]);
            assert(rest.drop_first() =~= s@.skip(i + 1));
            i = i + 1;
        }
        assert(replace(s@, f@, t@) == out@ + replace(s@.skip(i as int), f@, t@));
    }
    assert(s@.skip(i as int) =~= Seq::<char>::empty());
    if f.len() == 0 {
        push_all(&mut out, t);
    }
    out
}

/// `replace` with borrowed pattern and replacement.
pub fn replace_str(s: &Vec<char>, f: &str, t: &str) -> (r: Vec<char>)
    ensures
        r@ == replace(s@, f@, t@),
{
    let fv = chars_of(f);
    let tv = chars_of(t);
    replace_vec(s, &fv, &tv)
}

/// `trim`: white space removed at both ends.
pub fn trim_vec(s: &Vec<char>) -> (r: Vec<char>)
    ensures
        r@ == trim(s@),
{
    let n = s.len();
    let mut i: usize = 0;
    assert(s@.skip(0) =~= s@);
    while i < n && is_ws_exec(s[i])
        invariant
            i <= n == s.len(),
            trim_start(s@) == trim_start(s@.skip(i as int)),
        decreases n - i,
    {
        assert(s@.skip(i as int).drop_first() =~= s@.skip(i + 1));
        i = i + 1;
    }
    assert(trim_start(s@.skip(i as int)) == s@.skip(i as int));
    let mut j: usize = n;
    while j > i && is_ws_exec(s[j - 1])
        invariant
            i <= j <= n == s.len(),
            trim(s@) == trim_end(s@.subrange(i as int, j as int)),
        decreases j,
    {
        assert(s@.subrange(i as int, j as int).drop_last() =~= s@.subrange(i as int, j - 1));
        j = j - 1;
    }
    slice_of(s, i, j)
}

/// `char::is_whitespace`.
pub fn is_ws_exec(c: char) -> (b: bool)
    ensures
        b == is_ws(c),
{
    let u = c as u32;
    (0x9 <= u && u <= 0xD) || u == 0x20 || u == 0x85 || u == 0xA0 || u == 0x1680 || (0x2000 <= u
        && u <= 0x200A) || u == 0x2028 || u == 0x2029 || u == 0x202F || u == 0x205F || u == 0x3000
}

/// The views of a vector of character vectors.
pub open spec fn views(v: Seq<Vec<char>>) -> Seq<Seq<char>> {
    v.map_values(|x: Vec<char>| x@)
}

/// The views of a list of owned strings.
pub open spec fn string_views(v: Seq<String>) -> Seq<Seq<char>> {
    v.map_values(|x: String| x@)
}

/// `split` with a non-empty separator.
pub fn split_vec(s: &Vec<char>, sep: &Vec<char>) -> (r: Vec<Vec<char>>)
    requires
        sep.len() > 0,
    ensures
        views(r@) == split(s@, sep@),
{
    let mut pieces: Vec<Vec<char>> = Vec::new();
    let mut cur: Vec<char> = Vec::new();
    let mut i: usize = 0;
    proof {
        assert(s@.skip(0) =~= s@);
        lemma_split_nonempty(s@, sep@);
        assert(prepend_first(split(s@, sep@), seq![]) =~= split(s@, sep@));
        assert(views(pieces@) + prepend_first(split(s@, sep@), cur@) =~= split(s@, sep@));
    }
    while i < s.len()
        invariant
            i <= s.len(),
            sep.len() > 0,
            split(s@, sep@) == views(pieces@) + prepend_first(split(s@.skip(i as int), sep@), cur@),
        decreases s.len() - i,
    {
        let ghost rest = s@.skip(i as int);
        let ghost old_pieces = pieces@;
        let ghost old_cur = cur@;
        if matches_at(s, sep, i) {
            proof {
                assert(rest.skip(sep.len() as int) =~= s@.skip(i + sep.len()));
                lemma_split_nonempty(s@.skip(i + sep.len()), sep@);
                let r2 = split(s@.skip(i + sep.len()), sep@);
                assert(prepend_first(seq![Seq::<char>::empty()] + r2, old_cur) =~= seq![old_cur] + r2);
                assert(prepend_first(r2, seq![]) =~= r2);
            }
            pieces.push(cur);
            cur = Vec::new();
            i = i + sep.len();
            proof {
                assert(views(pieces@) =~= views(old_pieces) + seq![old_cur]);
            }
        } else {
            proof {
                assert(rest.drop_first() =~= s@.skip(i + 1));
                lemma_split_nonempty(s@.skip(i + 1), sep@);
                let r2 = split(s@.skip(i + 1), sep@);
                assert(old_cur + (seq![rest[0]] + r2[0]) =~= old_cur.push(rest[0]) + r2[0]);
                assert(prepend_first(prepend_first(r2, seq![rest[0]]), old_cur) =~= prepend_first(
                    r2,
                    old_cur.push(rest[0]),
                ));
            }
            cur.push(s[i]);
            i = i + 1;
        }
    }
    proof {
        assert(s@.skip(i as int) =~= Seq::<char>::empty());
        assert(prepend_first(seq![Seq::<char>::empty()], cur@) =~= seq![cur@]);
    }
    let ghost old_pieces = pieces@;
    pieces.push(cur);
    proof {
        assert(views(pieces@) =~= views(old_pieces) + seq![cur@]);
    }
    pieces
}

/// The pieces of `split` after a partial word `cur` that runs up to `rest`.
pub open spec fn words_with(cur: Seq<char>, rest: Seq<char>) -> Seq<Seq<char>> {
    if cur.len() == 0 {
        words(rest)
    } else if rest.len() > 0 && !is_ws(rest[0]) {
        prepend_first(words(rest), cur)
    } else {
        seq![cur] + words(rest)
    }
}

/// `split_whitespace`: the words of `s`.
pub fn words_vec(s: &Vec<char>) -> (r: Vec<Vec<char>>)
    ensures
        views(r@) == words(s@),
{
    let mut pieces: Vec<Vec<char>> = Vec::new();
    let mut cur: Vec<char> = Vec::new();
    let mut i: usize = 0;
    proof {
        assert(s@.skip(0) =~= s@);
        assert(views(pieces@) + words_with(cur@, s@) =~= words(s@));
    }
    while i < s.len()
        invariant
            i <= s.len(),
            words(s@) == views(pieces@) + words_with(cur@, s@.skip(i as int)),
        decreases s.len() - i,
    {
        let ghost rest = s@.skip(i as int);
        let ghost rest2 = s@.skip(i + 1);
        let ghost old_pieces = pieces@;
        let ghost old_cur = cur@;
        proof {
            assert(rest.drop_first() =~= rest2);
        }
        let c = s[i];
        if is_ws_exec(c) {
            if cur.len() > 0 {
                pieces.push(cur);
                cur = Vec::new();
                proof {
                    assert(views(pieces@) =~= views(old_pieces) + seq![old_cur]);
                    assert(words_with(old_cur, rest) == seq![old_cur] + words(rest2));
                }
            }
        } else {
            proof {
                if rest2.len() > 0 && !is_ws(rest2[0]) {
                    lemma_words_nonempty(rest2);
                    if old_cur.len() > 0 {
                        assert(old_cur + (seq![c] + words(rest2)[0]) =~= old_cur.push(c) + words(rest2)[0]);
                        assert(prepend_first(prepend_first(words(rest2), seq![c]), old_cur)
                            =~= prepend_first(words(rest2), old_cur.push(c)));
                    }
                } else {
                    if old_cur.len() > 0 {
                        assert(old_cur + seq![c] =~= old_cur.push(c));
                        assert(prepend_first(seq![seq![c]] + words(rest2), old_cur) =~= seq![
                            old_cur.push(c),
                        ] + words(rest2));
                    }
                }
                assert(old_cur.push(c) =~= old_cur + seq![c]);
            }
            cur.push(c);
            proof {
                assert(cur@ == old_cur.push(c));
                if old_cur.len() == 0 {
                    assert(cur@ =~= seq![c]);
                }
            }
        }
        i = i + 1;
    }
    proof {
        assert(s@.skip(i as int) =~= Seq::<char>::empty());
    }
    if cur.len() > 0 {
        let ghost old_pieces = pieces@;
        let ghost old_cur = cur@;
        pieces.push(cur);
        proof {
            assert(views(pieces@) =~= views(old_pieces) + seq![old_cur]);
        }
    } else {
        proof {
            assert(views(pieces@) + words_with(cur@, Seq::<char>::empty()) =~= views(pieces@));
        }
    }
    pieces
}

/// `join` of pieces with a separator.
pub fn join_vec(parts: &Vec<Vec<char>>, sep: &Vec<char>) -> (r: Vec<char>)
    ensures
        r@ == join(views(parts@), sep@),
{
    let mut out: Vec<char> = Vec::new();
    let mut i: usize = 0;
    proof {
        assert(views(parts@).take(0) =~= Seq::<Seq<char>>::empty());
    }
    while i < parts.len()
        invariant
            i <= parts.len(),
            out@ == join(views(parts@).take(i as int), sep@),
        decreases parts.len() - i,
    {
        let ghost vs = views(parts@);
        proof {
            assert(vs.take(i + 1).drop_last() =~= vs.take(i as int));
            assert(vs.take(i + 1).last() == parts@[i as int]@);
        }
        if i > 0 {
            push_all(&mut out, sep);
        }
        push_all(&mut out, &parts[i]);
        proof {
            if i == 0 {
                assert(out@ =~= parts@[0]@);
            }
        }
        i = i + 1;
    }
    proof {
        assert(views(parts@).take(parts.len() as int) =~= views(parts@));
    }
    out
}

/// White space collapsed to single spaces and removed at the ends.
pub fn squeeze_vec(s: &Vec<char>) -> (r: Vec<char>)
    ensures
        r@ == squeeze(s@),
{
    let w = words_vec(s);
    let sep = vec![' '];
    assert(sep@ =~= seq![' ']);
    join_vec(&w, &sep)
}

/// The ASCII digits of `s`, in order.
pub fn digits_vec(s: &Vec<char>) -> (r: Vec<char>)
    ensures
        r@ == digits_of(s@),
{
    let mut out: Vec<char> = Vec::new();
    let mut i: usize = 0;
    proof {
        reveal(Seq::filter);
        assert(s@.take(0) =~= Seq::<char>::empty());
    }
    while i < s.len()
        invariant
            i <= s.len(),
            out@ == digits_of(s@.take(i as int)),
        decreases s.len() - i,
    {
        proof {
            reveal(Seq::filter);
            assert(s@.take(i + 1).drop_last() =~= s@.take(i as int));
        }
        let c = s[i];
        if '0' <= c && c <= '9' {
            out.push(c);
        }
        i = i + 1;
    }
    assert(s@.take(s.len() as int) =~= s@);
    out
}

/// `to_ascii_lowercase`.
pub fn ascii_lower_vec(s: &Vec<char>) -> (r: Vec<char>)
    ensures
        r@ == ascii_lower(s@),
{
    let mut out: Vec<char> = Vec::new();
    let mut i: usize = 0;
    while i < s.len()
        invariant
            i <= s.len(),
            out@ == ascii_lower(s@.take(i as int)),
        decreases s.len() - i,
    {
        let c = s[i];
        let l = if 'A' <= c && c <= 'Z' {
            char_from_ascii_upper(c)
        } else {
            c
        };
        out.push(l);
        assert(ascii_lower(s@.take(i + 1)) =~= ascii_lower(s@.take(i as int)).push(l));
        i = i + 1;
    }
    assert(s@.take(s.len() as int) =~= s@);
    out
}

/// The lowercase ASCII letter of an uppercase one.
fn char_from_ascii_upper(c: char) -> (r: char)
    requires
        'A' <= c <= 'Z',
    ensures
        r == ascii_lower_char(c),
{
    let u = (c as u8) + 32;
    u as char
}

/// Whether two character vectors are equal.
pub fn eq_vec(a: &Vec<char>, b: &Vec<char>) -> (r: bool)
    ensures
        r == (a@ == b@),
{
    if a.len() != b.len() {
        return false;
    }
    let mut i: usize = 0;
    while i < a.len()
        invariant
            i <= a.len() == b.len(),
            forall|j: int| 0 <= j < i ==> a@[j] == b@[j],
        decreases a.len() - i,
    {
        if a[i] != b[i] {
            return false;
        }
        i = i + 1;
    }
    assert(a@ =~= b@);
    true
}

/// Whether two string slices are equal.
pub fn str_eq(a: &str, b: &str) -> (r: bool)
    ensures
        r == (a@ == b@),
{
    let av = chars_of(a);
    let bv = chars_of(b);
    eq_vec(&av, &bv)
}

/// A string holding the given literal or borrowed text.
pub fn owned(s: &str) -> (r: String)
    ensures
        r@ == s@,
{
    s.to_string()
}

/// A pattern longer than the text does not occur in it.
pub proof fn lemma_contains_len(s: Seq<char>, p: Seq<char>)
    requires
        contains(s, p),
    ensures
        p.len() <= s.len(),
{
    let i = choose|i: int| occurs_at(s, p, i);
}

/// A pattern occurs only where its first character does.
pub proof fn lemma_contains_first(s: Seq<char>, p: Seq<char>)
    requires
        contains(s, p),
        p.len() > 0,
    ensures
        s.contains(p[0]),
{
    let i = choose|i: int| occurs_at(s, p, i);
    assert(s.subrange(i, i + p.len())[0] == s[i]);
}

/// A text is the single piece of a split when no character of it is the
/// first character of the separator.
pub proof fn lemma_split_without_sep(s: Seq<char>, sep: Seq<char>)
    requires
        sep.len() > 0,
        !s.contains(sep[0]),
    ensures
        split(s, sep) == seq![s],
    decreases s.len(),
{
    if s.len() > 0 {
        assert(!starts_with(s, sep)) by {
            if starts_with(s, sep) {
                assert(s.subrange(0, sep.len() as int)[0] == s[0]);
            }
        }
        let t = s.drop_first();
        assert(!t.contains(sep[0])) by {
            if t.contains(sep[0]) {
                let k = choose|k: int| 0 <= k < t.len() && t[k] == sep[0];
                assert(s[k + 1] == t[k]);
            }
        }
        lemma_split_without_sep(t, sep);
        assert(seq![s[0]] + t =~= s);
    }
}

/// Splitting `x + sep + y`, where no character of `x` starts the separator,
/// gives `x` and then the pieces of `y`.
pub proof fn lemma_split_prefix(x: Seq<char>, sep: Seq<char>, y: Seq<char>)
    requires
        sep.len() > 0,
        !x.contains(sep[0]),
    ensures
        split(x + sep + y, sep) == seq![x] + split(y, sep),
    decreases x.len(),
{
    let s = x + sep + y;
    if x.len() == 0 {
        assert(x =~= Seq::<char>::empty());
        assert(s =~= sep + y);
        assert(s.subrange(0, sep.len() as int) =~= sep);
        assert(s.skip(sep.len() as int) =~= y);
        assert(seq![Seq::<char>::empty()] + split(y, sep) =~= seq![x] + split(y, sep));
    } else {
        assert(!starts_with(s, sep)) by {
            if starts_with(s, sep) {
                assert(s.subrange(0, sep.len() as int)[0] == s[0]);
                assert(s[0] == x[0]);
            }
        }
        let t = x.drop_first();
        assert(!t.contains(sep[0])) by {
            if t.contains(sep[0]) {
                let k = choose|k: int| 0 <= k < t.len() && t[k] == sep[0];
                assert(x[k + 1] == t[k]);
            }
        }
        lemma_split_prefix(t, sep, y);
        assert(s.drop_first() =~= t + sep + y);
        lemma_split_nonempty(y, sep);
        let r = seq![t] + split(y, sep);
        assert(prepend_first(r, seq![x[0]]) =~= seq![x] + split(y, sep)) by {
            assert(seq![x[0]] + t =~= x);
        }
    }
}

/// Splitting a text in which the separator does not occur gives the text.
pub proof fn lemma_split_absent(s: Seq<char>, sep: Seq<char>)
    requires
        sep.len() > 0,
        !contains(s, sep),
    ensures
        split(s, sep) == seq![s],
    decreases s.len(),
{
    if s.len() > 0 {
        assert(!starts_with(s, sep)) by {
            if starts_with(s, sep) {
                assert(occurs_at(s, sep, 0));
            }
        }
        let t = s.drop_first();
        assert(!contains(t, sep)) by {
            if contains(t, sep) {
                let k = choose|k: int| #[trigger] occurs_at(t, sep, k);
                lemma_occurs_shift(s, sep, k);
            }
        }
        lemma_split_absent(t, sep);
        assert(seq![s[0]] + t =~= s);
    }
}

/// An occurrence in a text without its first character is an occurrence in
/// the text one place later.
proof fn lemma_occurs_shift(w: Seq<char>, sep: Seq<char>, k: int)
    requires
        w.len() > 0,
        occurs_at(w.drop_first(), sep, k),
    ensures
        occurs_at(w, sep, k + 1),
{
    assert(w.subrange(k + 1, k + 1 + sep.len()) =~= w.drop_first().subrange(k, k + sep.len()));
}

/// A text that starts with the separator holds it at index 0 of any longer
/// prefix of itself.
proof fn lemma_prefix_occurrence(x: Seq<char>, sep: Seq<char>, y: Seq<char>)
    requires
        x.len() > 0,
        sep.len() > 0,
        starts_with(x + sep + y, sep),
    ensures
        occurs_at(x + sep.drop_last(), sep, 0),
{
    let s = x + sep + y;
    let w = x + sep.drop_last();
    assert(w.subrange(0, sep.len() as int) =~= s.subrange(0, sep.len() as int));
}

/// Splitting `x + sep + y`, where the separator starts nowhere inside `x`
/// (nor across its end), gives `x` and then the pieces of `y`.
pub proof fn lemma_split_first_piece(x: Seq<char>, sep: Seq<char>, y: Seq<char>)
    requires
        sep.len() > 0,
        !contains(x + sep.drop_last(), sep),
    ensures
        split(x + sep + y, sep) == seq![x] + split(y, sep),
    decreases x.len(),
{
    let s = x + sep + y;
    if x.len() == 0 {
        assert(x =~= Seq::<char>::empty());
        assert(s =~= sep + y);
        assert(s.subrange(0, sep.len() as int) =~= sep);
        assert(s.skip(sep.len() as int) =~= y);
        assert(seq![Seq::<char>::empty()] + split(y, sep) =~= seq![x] + split(y, sep));
    } else {
        assert(!starts_with(s, sep)) by {
            if starts_with(s, sep) {
                lemma_prefix_occurrence(x, sep, y);
            }
        }
        let t = x.drop_first();
        assert(!contains(t + sep.drop_last(), sep)) by {
            let w = x + sep.drop_last();
            assert(w.drop_first() =~= t + sep.drop_last());
            if contains(t + sep.drop_last(), sep) {
                let k = choose|k: int| #[trigger] occurs_at(t + sep.drop_last(), sep, k);
                lemma_occurs_shift(w, sep, k);
            }
        }
        lemma_split_first_piece(t, sep, y);
        assert(s.drop_first() =~= t + sep + y);
        lemma_split_nonempty(y, sep);
        assert(prepend_first(seq![t] + split(y, sep), seq![x[0]]) =~= seq![x] + split(y, sep)) by {
            assert(seq![x[0]] + t =~= x);
        }
    }
}

/// `replace` only brings in characters of the text and of the replacement.
pub proof fn lemma_replace_chars(s: Seq<char>, f: Seq<char>, t: Seq<char>, c: char)
    requires
        !s.contains(c),
        !t.contains(c),
    ensures
        !replace(s, f, t).contains(c),
    decreases s.len(),
{
    if s.len() > 0 {
        let u = s.drop_first();
        assert(!u.contains(c)) by {
            if u.contains(c) {
                let k = choose|k: int| 0 <= k < u.len() && u[k] == c;
                assert(s[k + 1] == u[k]);
            }
        }
        lemma_replace_chars(u, f, t, c);
        if f.len() > 0 && starts_with(s, f) {
            let v = s.skip(f.len() as int);
            assert(!v.contains(c)) by {
                if v.contains(c) {
                    let k = choose|k: int| 0 <= k < v.len() && v[k] == c;
                    assert(s[k + f.len()] == v[k]);
                }
            }
            lemma_replace_chars(v, f, t, c);
        }
        assert(s[0] != c);
    }
}

/// The words of a text only hold characters of the text.
pub proof fn lemma_words_chars(s: Seq<char>, c: char)
    requires
        !s.contains(c),
    ensures
        forall|k: int| 0 <= k < words(s).len() ==> !(#[trigger] words(s)[k]).contains(c),
    decreases s.len(),
{
    if s.len() > 0 {
        let u = s.drop_first();
        assert(!u.contains(c)) by {
            if u.contains(c) {
                let k = choose|k: int| 0 <= k < u.len() && u[k] == c;
                assert(s[k + 1] == u[k]);
            }
        }
        lemma_words_chars(u, c);
        let w = words(u);
        if !is_ws(s[0]) {
            if s.len() > 1 && !is_ws(s[1]) {
                lemma_words_nonempty(u);
                let r = prepend_first(w, seq![s[0]]);
                assert forall|k: int| 0 <= k < r.len() implies !(#[trigger] r[k]).contains(c) by {
                    if k == 0 {
                        assert(!w[0].contains(c));
                        if r[0].contains(c) {
                            let j = choose|j: int| 0 <= j < r[0].len() && r[0][j] == c;
                            if j > 0 {
                                assert(r[0][j] == w[0][j - 1]);
                            }
                        }
                    }
                }
            } else {
                let r = seq![seq![s[0]]] + w;
                assert forall|k: int| 0 <= k < r.len() implies !(#[trigger] r[k]).contains(c) by {
                    if k > 0 {
                        assert(r[k] == w[k - 1]);
                    }
                }
            }
        }
    }
}

/// The words of a text are non-empty, hold no white space, and hold only
/// characters of the text.
pub proof fn lemma_words_shape(s: Seq<char>)
    ensures
        forall|k: int| 0 <= k < words(s).len() ==> (#[trigger] words(s)[k]).len() > 0,
        forall|k: int, j: int|
            0 <= k < words(s).len() && 0 <= j < words(s)[k].len() ==> !is_ws(
                #[trigger] words(s)[k][j],
            ) && s.contains(words(s)[k][j]),
    decreases s.len(),
{
    if s.len() > 0 {
        let u = s.drop_first();
        lemma_words_shape(u);
        let w = words(u);
        assert forall|c: char| u.contains(c) implies s.contains(c) by {
            let i = choose|i: int| 0 <= i < u.len() && u[i] == c;
            assert(s[i + 1] == c);
        }
        if !is_ws(s[0]) {
            assert(s.contains(s[0])) by {
                assert(s[0] == s[0]);
            }
            if s.len() > 1 && !is_ws(s[1]) {
                lemma_words_nonempty(u);
                let r = prepend_first(w, seq![s[0]]);
                assert forall|k: int, j: int| 0 <= k < r.len() && 0 <= j < r[k].len() implies !is_ws(
                    #[trigger] r[k][j],
                ) && s.contains(r[k][j]) by {
                    if k == 0 {
                        if j > 0 {
                            assert(r[0][j] == w[0][j - 1]);
                        }
                    } else {
                        assert(r[k] == w[k]);
                    }
                }
                assert forall|k: int| 0 <= k < r.len() implies (#[trigger] r[k]).len() > 0 by {
                    if k > 0 {
                        assert(r[k] == w[k]);
                    }
                }
            } else {
                let r = seq![seq![s[0]]] + w;
                assert forall|k: int, j: int| 0 <= k < r.len() && 0 <= j < r[k].len() implies !is_ws(
                    #[trigger] r[k][j],
                ) && s.contains(r[k][j]) by {
                    if k > 0 {
                        assert(r[k] == w[k - 1]);
                    }
                }
                assert forall|k: int| 0 <= k < r.len() implies (#[trigger] r[k]).len() > 0 by {
                    if k > 0 {
                        assert(r[k] == w[k - 1]);
                    }
                }
            }
        }
    }
}

/// Joining non-empty pieces without white space by single spaces: every
/// character is a space or not white space, the ends are not white space,
/// no two spaces are adjacent, and each other character comes from a piece.
pub proof fn lemma_join_shape(parts: Seq<Seq<char>>)
    requires
        forall|k: int| 0 <= k < parts.len() ==> (#[trigger] parts[k]).len() > 0,
        forall|k: int, j: int|
            0 <= k < parts.len() && 0 <= j < parts[k].len() ==> !is_ws(#[trigger] parts[k][j]),
    ensures
        ({
            let r = join(parts, seq![' ']);
            &&& forall|i: int|
                0 <= i < r.len() ==> #[trigger] r[i] == ' ' || (!is_ws(r[i]) && exists|k: int, j: int|
                    0 <= k < parts.len() && 0 <= j < parts[k].len() && parts[k][j] == r[i])
            &&& r.len() > 0 ==> !is_ws(r[0]) && !is_ws(r.last())
            &&& forall|i: int| 0 <= i < r.len() - 1 ==> !(#[trigger] r[i] == ' ' && r[i + 1] == ' ')
            &&& parts.len() > 0 ==> r.len() > 0
        }),
    decreases parts.len(),
{
    let r = join(parts, seq![' ']);
    if parts.len() == 1 {
        assert(r == parts[0]);
        assert forall|i: int| 0 <= i < r.len() implies #[trigger] r[i] == ' ' || (!is_ws(r[i])
            && exists|k: int, j: int|
            0 <= k < parts.len() && 0 <= j < parts[k].len() && parts[k][j] == r[i]) by {
            assert(parts[0][i] == r[i]);
        }
        assert forall|i: int| 0 <= i < r.len() - 1 implies !(#[trigger] r[i] == ' ' && r[i + 1]
            == ' ') by {
            assert(!is_ws(parts[0][i]));
        }
        assert(!is_ws(parts[0][r.len() - 1]));
    } else if parts.len() > 1 {
        let d = parts.drop_last();
        assert forall|k: int| 0 <= k < d.len() implies (#[trigger] d[k]).len() > 0 by {
            assert(d[k] == parts[k]);
        }
        assert forall|k: int, j: int| 0 <= k < d.len() && 0 <= j < d[k].len() implies !is_ws(
            #[trigger] d[k][j],
        ) by {
            assert(d[k] == parts[k]);
        }
        lemma_join_shape(d);
        let a = join(d, seq![' ']);
        let l = parts.last();
        assert(l == parts[parts.len() - 1]);
        assert(r == a + seq![' '] + l);
        assert(l.len() > 0);
        assert forall|i: int| 0 <= i < r.len() implies #[trigger] r[i] == ' ' || (!is_ws(r[i])
            && exists|k: int, j: int|
            0 <= k < parts.len() && 0 <= j < parts[k].len() && parts[k][j] == r[i]) by {
            if i < a.len() {
                assert(r[i] == a[i]);
                if a[i] != ' ' {
                    let (k, j) = choose|k: int, j: int|
                        0 <= k < d.len() && 0 <= j < d[k].len() && d[k][j] == a[i];
                    assert(parts[k] == d[k]);
                }
            } else if i > a.len() {
                assert(r[i] == l[i - a.len() - 1]);
                assert(parts[parts.len() - 1][i - a.len() - 1] == r[i]);
                assert(!is_ws(l[i - a.len() - 1]));
            }
        }
        assert forall|i: int| 0 <= i < r.len() - 1 implies !(#[trigger] r[i] == ' ' && r[i + 1]
            == ' ') by {
            if i < a.len() - 1 {
                assert(r[i] == a[i] && r[i + 1] == a[i + 1]);
            } else if i == a.len() - 1 {
                assert(r[i] == a.last());
            } else if i == a.len() {
                assert(r[i + 1] == l[0]);
                assert(!is_ws(l[0]));
            } else {
                assert(r[i] == l[i - a.len() - 1]);
                assert(!is_ws(l[i - a.len() - 1]));
            }
        }
        assert(r[0] == a[0]);
        assert(r.last() == l.last());
        assert(!is_ws(l[l.len() - 1]));
    }
}

/// A collapsed text is trimmed, never holds two spaces in a row, holds no
/// white space but spaces, and only holds characters of the text otherwise.
pub proof fn lemma_squeeze_shape(s: Seq<char>)
    ensures
        ({
            let r = squeeze(s);
            &&& trim(r) == r
            &&& forall|i: int| 0 <= i < r.len() ==> #[trigger] r[i] == ' ' || (!is_ws(r[i]) && s.contains(r[i]))
            &&& forall|i: int| 0 <= i < r.len() - 1 ==> !(#[trigger] r[i] == ' ' && r[i + 1] == ' ')
        }),
{
    lemma_words_shape(s);
    let w = words(s);
    lemma_join_shape(w);
    let r = squeeze(s);
    assert forall|i: int| 0 <= i < r.len() implies #[trigger] r[i] == ' ' || (!is_ws(r[i])
        && s.contains(r[i])) by {
        if r[i] != ' ' {
            let (k, j) = choose|k: int, j: int|
                0 <= k < w.len() && 0 <= j < w[k].len() && w[k][j] == r[i];
            assert(s.contains(w[k][j]));
        }
    }
    lemma_trim_noop(r);
}

/// Joining pieces only brings in characters of the pieces and the separator.
pub proof fn lemma_join_chars(parts: Seq<Seq<char>>, sep: Seq<char>, c: char)
    requires
        forall|k: int| 0 <= k < parts.len() ==> !(#[trigger] parts[k]).contains(c),
        !sep.contains(c),
    ensures
        !join(parts, sep).contains(c),
    decreases parts.len(),
{
    if parts.len() > 1 {
        let d = parts.drop_last();
        assert forall|k: int| 0 <= k < d.len() implies !(#[trigger] d[k]).contains(c) by {
            assert(d[k] == parts[k]);
        }
        lemma_join_chars(d, sep, c);
        let a = join(d, sep);
        let l = parts.last();
        assert(!l.contains(c)) by {
            assert(parts[parts.len() - 1] == l);
        }
        if (a + sep + l).contains(c) {
            let j = choose|j: int| 0 <= j < (a + sep + l).len() && (a + sep + l)[j] == c;
            if j < a.len() {
                assert((a + sep + l)[j] == a[j]);
            } else if j < a.len() + sep.len() {
                assert((a + sep + l)[j] == sep[j - a.len()]);
            } else {
                assert((a + sep + l)[j] == l[j - a.len() - sep.len()]);
            }
        }
    } else if parts.len() == 1 {
        assert(!parts[0].contains(c));
    }
}

} // verus!
