//! Character-sequence operations of `str` (trimming, searching, splitting)
//! stated over `Seq<char>` and implemented on `Vec<char>`.
use vstd::prelude::*;

verus! {

// ── Specifications ──────────────────────────────────────────────────────

/// Unicode `White_Space` (what `char::is_whitespace` tests).
pub open spec fn is_ws(c: char) -> bool {
    ('\u{9}' <= c && c <= '\u{d}') || c == ' ' || c == '\u{85}' || c == '\u{a0}' || c
        == '\u{1680}' || ('\u{2000}' <= c && c <= '\u{200a}') || c == '\u{2028}' || c
        == '\u{2029}' || c == '\u{202f}' || c == '\u{205f}' || c == '\u{3000}'
}

/// `s` without leading whitespace (`str::trim_start`).
pub open spec fn trim_start(s: Seq<char>) -> Seq<char>
    decreases s.len(),
{
    if s.len() > 0 && is_ws(s[0]) {
        trim_start(s.drop_first())
    } else {
        s
    }
}

/// `s` without trailing whitespace (`str::trim_end`).
pub open spec fn trim_end(s: Seq<char>) -> Seq<char>
    decreases s.len(),
{
    if s.len() > 0 && is_ws(s.last()) {
        trim_end(s.drop_last())
    } else {
        s
    }
}

/// `s` without leading and trailing whitespace (`str::trim`).
pub open spec fn trim(s: Seq<char>) -> Seq<char> {
    trim_end(trim_start(s))
}

/// `s` without leading copies of `c` (`str::trim_start_matches` with a char).
pub open spec fn trim_start_char(s: Seq<char>, c: char) -> Seq<char>
    decreases s.len(),
{
    if s.len() > 0 && s[0] == c {
        trim_start_char(s.drop_first(), c)
    } else {
        s
    }
}

/// Whether `needle` occurs in `s` at position `i`.
pub open spec fn occurs_at(s: Seq<char>, needle: Seq<char>, i: int) -> bool {
    0 <= i && i + needle.len() <= s.len() && s.subrange(i, i + needle.len()) == needle
}

/// Whether `s` begins with `p` (`str::starts_with`).
pub open spec fn starts_with(s: Seq<char>, p: Seq<char>) -> bool {
    occurs_at(s, p, 0)
}

/// First position at or after `i` holding `c`.
pub open spec fn index_from(s: Seq<char>, c: char, i: int) -> Option<int>
    decreases s.len() - i,
{
    if i < 0 || i >= s.len() {
        None
    } else if s[i] == c {
        Some(i)
    } else {
        index_from(s, c, i + 1)
    }
}

/// First position of `c` in `s` (`str::find` with a char).
pub open spec fn first_index(s: Seq<char>, c: char) -> Option<int> {
    index_from(s, c, 0)
}

/// Last position of `c` among the first `n` characters.
pub open spec fn index_below(s: Seq<char>, c: char, n: int) -> Option<int>
    decreases n,
{
    if n <= 0 {
        None
    } else if s[n - 1] == c {
        Some(n - 1)
    } else {
        index_below(s, c, n - 1)
    }
}

/// Last position of `c` in `s` (`str::rfind` with a char).
pub open spec fn last_index(s: Seq<char>, c: char) -> Option<int> {
    index_below(s, c, s.len() as int)
}

/// First position at or after `i` where `needle` occurs.
pub open spec fn find_from(s: Seq<char>, needle: Seq<char>, i: int) -> Option<int>
    decreases s.len() - i,
{
    if i < 0 || i + needle.len() > s.len() {
        None
    } else if occurs_at(s, needle, i) {
        Some(i)
    } else if i >= s.len() {
        None
    } else {
        find_from(s, needle, i + 1)
    }
}

/// First position of `needle` in `s` (`str::find` with a string).
pub open spec fn find(s: Seq<char>, needle: Seq<char>) -> Option<int> {
    find_from(s, needle, 0)
}

/// Whether `needle` occurs in `s` (`str::contains`).
pub open spec fn contains(s: Seq<char>, needle: Seq<char>) -> bool {
    find(s, needle) is Some
}

/// The pieces of `s` between occurrences of `c` (`str::split` with a char);
/// there is always at least one piece.
pub open spec fn split_char(s: Seq<char>, c: char) -> Seq<Seq<char>>
    decreases s.len(),
{
    if s.len() == 0 {
        seq![Seq::empty()]
    } else {
        let p = split_char(s.drop_last(), c);
        if s.last() == c {
            p.push(Seq::empty())
        } else {
            p.update(p.len() - 1, p.last().push(s.last()))
        }
    }
}

/// `line` without a final carriage return.
pub open spec fn strip_cr(line: Seq<char>) -> Seq<char> {
    if line.len() > 0 && line.last() == '\r' {
        line.drop_last()
    } else {
        line
    }
}

/// The lines of `s` (`str::lines`): the pieces between line feeds, each
/// piece that a line feed ends without a carriage return just before it,
/// and no empty line after a final line feed.
pub open spec fn lines(s: Seq<char>) -> Seq<Seq<char>> {
    let p = split_char(s, '\n');
    let body = p.drop_last().map_values(|l: Seq<char>| strip_cr(l));
    if p.last().len() == 0 {
        body
    } else {
        body.push(p.last())
    }
}

/// The maximal runs of non-whitespace characters of `s`
/// (`str::split_whitespace`).
pub open spec fn tokens(s: Seq<char>) -> Seq<Seq<char>>
    decreases s.len(),
{
    if s.len() == 0 {
        Seq::empty()
    } else {
        let t = tokens(s.drop_last());
        let c = s.last();
        if is_ws(c) {
            t
        } else if s.len() >= 2 && !is_ws(s[s.len() - 2]) {
            t.update(t.len() - 1, t.last().push(c))
        } else {
            t.push(seq![c])
        }
    }
}

/// The character sequences held by a vector of character vectors.
pub open spec fn views(v: Seq<Vec<char>>) -> Seq<Seq<char>> {
    v.map_values(|x: Vec<char>| x@)
}

// ── Lemmas ──────────────────────────────────────────────────────────────

pub proof fn lemma_index_from(s: Seq<char>, c: char, i: int)
    ensures
        match index_from(s, c, i) {
            Some(k) => i <= k < s.len() && 0 <= k && s[k] == c,
            None => true,
        },
    decreases s.len() - i,
{
    if !(i < 0 || i >= s.len()) && s[i] != c {
        lemma_index_from(s, c, i + 1);
    }
}

pub proof fn lemma_index_below(s: Seq<char>, c: char, n: int)
    requires
        n <= s.len(),
    ensures
        match index_below(s, c, n) {
            Some(k) => 0 <= k < n && s[k] == c,
            None => true,
        },
    decreases n,
{
    if n > 0 && s[n - 1] != c {
        lemma_index_below(s, c, n - 1);
    }
}

pub proof fn lemma_find_from(s: Seq<char>, needle: Seq<char>, i: int)
    ensures
        match find_from(s, needle, i) {
            Some(k) => i <= k && occurs_at(s, needle, k),
            None => true,
        },
    decreases s.len() - i,
{
    if !(i < 0 || i + needle.len() > s.len()) && !occurs_at(s, needle, i) && i < s.len() {
        lemma_find_from(s, needle, i + 1);
    }
}

pub proof fn lemma_split_char_len(s: Seq<char>, c: char)
    ensures
        split_char(s, c).len() >= 1,
    decreases s.len(),
{
    if s.len() > 0 {
        lemma_split_char_len(s.drop_last(), c);
    }
}

pub proof fn lemma_tokens_last(s: Seq<char>)
    requires
        s.len() > 0,
        !is_ws(s.last()),
    ensures
        tokens(s).len() >= 1,
    decreases s.len(),
{
    if s.len() >= 2 && !is_ws(s[s.len() - 2]) {
        lemma_tokens_last(s.drop_last());
    }
}

// ── Implementations ─────────────────────────────────────────────────────

pub fn is_whitespace(c: char) -> (b: bool)
    ensures
        b == is_ws(c),
{
    ('\u{9}' <= c && c <= '\u{d}') || c == ' ' || c == '\u{85}' || c == '\u{a0}' || c
        == '\u{1680}' || ('\u{2000}' <= c && c <= '\u{200a}') || c == '\u{2028}' || c
        == '\u{2029}' || c == '\u{202f}' || c == '\u{205f}' || c == '\u{3000}'
}

/// The characters of `v` from `lo` up to `hi`.
pub fn slice_chars(v: &Vec<char>, lo: usize, hi: usize) -> (r: Vec<char>)
    requires
        lo <= hi <= v@.len(),
    ensures
        r@ == v@.subrange(lo as int, hi as int),
{
    let mut r: Vec<char> = Vec::new();
    let mut i = lo;
    while i < hi
        invariant
            lo <= i <= hi <= v@.len(),
            r@ == v@.subrange(lo as int, i as int),
        decreases hi - i,
    {
        r.push(v[i]);
        i += 1;
        assert(r@ =~= v@.subrange(lo as int, i as int));
    }
    r
}

/// A copy of `v`.
pub fn copy_chars(v: &Vec<char>) -> (r: Vec<char>)
    ensures
        r@ == v@,
{
    let r = slice_chars(v, 0, v.len());
    assert(v@.subrange(0, v@.len() as int) =~= v@);
    r
}

pub fn trim_start_vec(v: &Vec<char>) -> (r: Vec<char>)
    ensures
        r@ == trim_start(v@),
{
    let mut i: usize = 0;
    assert(v@.subrange(0, v@.len() as int) =~= v@);
    while i < v.len() && is_whitespace(v[i])
        invariant
            i <= v@.len(),
            trim_start(v@) == trim_start(v@.subrange(i as int, v@.len() as int)),
        decreases v@.len() - i,
    {
        assert(v@.subrange(i as int + 1, v@.len() as int) =~= v@.subrange(
            i as int,
            v@.len() as int,
        ).drop_first());
        i += 1;
    }
    slice_chars(v, i, v.len())
}

pub fn trim_end_vec(v: &Vec<char>) -> (r: Vec<char>)
    ensures
        r@ == trim_end(v@),
{
    let mut j: usize = v.len();
    assert(v@.subrange(0, v@.len() as int) =~= v@);
    while j > 0 && is_whitespace(v[j - 1])
        invariant
            j <= v@.len(),
            trim_end(v@) == trim_end(v@.subrange(0, j as int)),
        decreases j,
    {
        assert(v@.subrange(0, j as int - 1) =~= v@.subrange(0, j as int).drop_last());
        j -= 1;
    }
    slice_chars(v, 0, j)
}

pub fn trim_vec(v: &Vec<char>) -> (r: Vec<char>)
    ensures
        r@ == trim(v@),
{
    let t = trim_start_vec(v);
    trim_end_vec(&t)
}

pub fn trim_start_char_vec(v: &Vec<char>, c: char) -> (r: Vec<char>)
    ensures
        r@ == trim_start_char(v@, c),
{
    let mut i: usize = 0;
    assert(v@.subrange(0, v@.len() as int) =~= v@);
    while i < v.len() && v[i] == c
        invariant
            i <= v@.len(),
            trim_start_char(v@, c) == trim_start_char(v@.subrange(i as int, v@.len() as int), c),
        decreases v@.len() - i,
    {
        assert(v@.subrange(i as int + 1, v@.len() as int) =~= v@.subrange(
            i as int,
            v@.len() as int,
        ).drop_first());
        i += 1;
    }
    slice_chars(v, i, v.len())
}

/// Whether `needle` occurs in `v` at position `i`.
pub fn occurs_at_vec(v: &Vec<char>, needle: &Vec<char>, i: usize) -> (b: bool)
    ensures
        b == occurs_at(v@, needle@, i as int),
{
    if needle.len() > v.len() || i > v.len() - needle.len() {
        return false;
    }
    let mut k: usize = 0;
    while k < needle.len()
        invariant
            i + needle@.len() <= v@.len(),
            v@.len() == v.len(),
            k <= needle@.len(),
            forall|j: int| 0 <= j < k ==> v@[i + j] == needle@[j],
        decreases needle@.len() - k,
    {
        if v[i + k] != needle[k] {
            assert(v@.subrange(i as int, i + needle@.len())[k as int] != needle@[k as int]);
            return false;
        }
        k += 1;
    }
    assert(v@.subrange(i as int, i + needle@.len()) =~= needle@);
    true
}

pub fn starts_with_vec(v: &Vec<char>, p: &Vec<char>) -> (b: bool)
    ensures
        b == starts_with(v@, p@),
{
    occurs_at_vec(v, p, 0)
}

pub fn first_index_vec(v: &Vec<char>, c: char) -> (r: Option<usize>)
    ensures
        match r {
            Some(k) => first_index(v@, c) == Some(k as int),
            None => first_index(v@, c) is None,
        },
        r matches Some(k) ==> k < v@.len() && v@[k as int] == c,
{
    proof {
        lemma_index_from(v@, c, 0);
    }
    let mut i: usize = 0;
    while i < v.len()
        invariant
            i <= v@.len(),
            index_from(v@, c, 0) == index_from(v@, c, i as int),
        decreases v@.len() - i,
    {
        if v[i] == c {
            return Some(i);
        }
        i += 1;
    }
    None
}

pub fn last_index_vec(v: &Vec<char>, c: char) -> (r: Option<usize>)
    ensures
        match r {
            Some(k) => last_index(v@, c) == Some(k as int),
            None => last_index(v@, c) is None,
        },
        r matches Some(k) ==> k < v@.len() && v@[k as int] == c,
{
    proof {
        lemma_index_below(v@, c, v@.len() as int);
    }
    let mut j: usize = v.len();
    while j > 0
        invariant
            j <= v@.len(),
            last_index(v@, c) == index_below(v@, c, j as int),
        decreases j,
    {
        if v[j - 1] == c {
            return Some(j - 1);
        }
        j -= 1;
    }
    None
}

pub fn find_vec(v: &Vec<char>, needle: &Vec<char>) -> (r: Option<usize>)
    ensures
        match r {
            Some(k) => find(v@, needle@) == Some(k as int),
            None => find(v@, needle@) is None,
        },
        r matches Some(k) ==> occurs_at(v@, needle@, k as int),
{
    proof {
        lemma_find_from(v@, needle@, 0);
    }
    if needle.len() > v.len() {
        return None;
    }
    let last = v.len() - needle.len();
    let mut i: usize = 0;
    while i <= last
        invariant
            last + needle@.len() == v@.len(),
            i <= last + 1,
            find(v@, needle@) == find_from(v@, needle@, i as int),
        decreases last + 1 - i,
    {
        if occurs_at_vec(v, needle, i) {
            return Some(i);
        }
        if i >= v.len() {
            return None;
        }
        i += 1;
    }
    None
}

pub fn contains_vec(v: &Vec<char>, needle: &Vec<char>) -> (b: bool)
    ensures
        b == contains(v@, needle@),
{
    find_vec(v, needle).is_some()
}

pub fn contains_char_vec(v: &Vec<char>, c: char) -> (b: bool)
    ensures
        b == (first_index(v@, c) is Some),
{
    first_index_vec(v, c).is_some()
}

pub fn split_vec(v: &Vec<char>, c: char) -> (r: Vec<Vec<char>>)
    ensures
        views(r@) == split_char(v@, c),
        r@.len() >= 1,
{
    let mut pieces: Vec<Vec<char>> = Vec::new();
    let mut cur: Vec<char> = Vec::new();
    let mut i: usize = 0;
    assert(views(pieces@).push(cur@) =~= split_char(v@.subrange(0, 0), c));
    while i < v.len()
        invariant
            i <= v@.len(),
            views(pieces@).push(cur@) == split_char(v@.subrange(0, i as int), c),
        decreases v@.len() - i,
    {
        let ghost s1 = v@.subrange(0, i as int + 1);
        assert(s1.drop_last() =~= v@.subrange(0, i as int));
        if v[i] == c {
            pieces.push(cur);
            cur = Vec::new();
            assert(views(pieces@).push(cur@) =~= split_char(s1, c));
        } else {
            let ghost old_cur = cur@;
            cur.push(v[i]);
            assert(views(pieces@).push(cur@) =~= split_char(s1, c));
        }
        i += 1;
    }
    pieces.push(cur);
    assert(v@.subrange(0, v@.len() as int) =~= v@);
    assert(views(pieces@) =~= split_char(v@, c));
    pieces
}

pub fn strip_cr_vec(v: &Vec<char>) -> (r: Vec<char>)
    ensures
        r@ == strip_cr(v@),
{
    if v.len() > 0 && v[v.len() - 1] == '\r' {
        slice_chars(v, 0, v.len() - 1)
    } else {
        copy_chars(v)
    }
}

pub fn lines_vec(v: &Vec<char>) -> (r: Vec<Vec<char>>)
    ensures
        views(r@) == lines(v@),
{
    let p = split_vec(v, '\n');
    let n = p.len() - 1;
    let ghost body = views(p@).drop_last().map_values(|l: Seq<char>| strip_cr(l));
    let mut r: Vec<Vec<char>> = Vec::new();
    let mut i: usize = 0;
    while i < n
        invariant
            n + 1 == p@.len(),
            i <= n,
            views(p@) == split_char(v@, '\n'),
            body == views(p@).drop_last().map_values(|l: Seq<char>| strip_cr(l)),
            views(r@) == body.subrange(0, i as int),
        decreases n - i,
    {
        let l = strip_cr_vec(&p[i]);
        assert(body[i as int] == strip_cr(views(p@)[i as int]));
        assert(views(p@)[i as int] == p@[i as int]@);
        let ghost old_r = r@;
        r.push(l);
        assert(views(r@) =~= views(old_r).push(body[i as int]));
        i += 1;
        assert(views(r@) =~= body.subrange(0, i as int));
    }
    assert(body.subrange(0, n as int) =~= body);
    if p[n].len() > 0 {
        let last = copy_chars(&p[n]);
        r.push(last);
        assert(views(r@) =~= body.push(views(p@).last()));
    }
    r
}

pub fn tokens_vec(v: &Vec<char>) -> (r: Vec<Vec<char>>)
    ensures
        views(r@) == tokens(v@),
{
    let mut done: Vec<Vec<char>> = Vec::new();
    let mut cur: Vec<char> = Vec::new();
    let mut in_tok = false;
    let mut i: usize = 0;
    assert(views(done@) =~= tokens(v@.subrange(0, 0)));
    while i < v.len()
        invariant
            i <= v@.len(),
            in_tok == (i > 0 && !is_ws(v@[i - 1])),
            !in_tok ==> cur@.len() == 0,
            in_tok ==> views(done@).push(cur@) == tokens(v@.subrange(0, i as int)),
            !in_tok ==> views(done@) == tokens(v@.subrange(0, i as int)),
        decreases v@.len() - i,
    {
        let ghost s1 = v@.subrange(0, i as int + 1);
        assert(s1.drop_last() =~= v@.subrange(0, i as int));
        let c = v[i];
        if is_whitespace(c) {
            if in_tok {
                done.push(cur);
                cur = Vec::new();
            }
            in_tok = false;
            assert(views(done@) =~= tokens(s1));
        } else {
            if in_tok {
                assert(s1[s1.len() - 2] == v@[i - 1]);
                cur.push(c);
            } else {
                cur.push(c);
                assert(cur@ =~= seq![c]);
            }
            in_tok = true;
            assert(views(done@).push(cur@) =~= tokens(s1));
        }
        i += 1;
    }
    assert(v@.subrange(0, v@.len() as int) =~= v@);
    if in_tok {
        done.push(cur);
        assert(views(done@) =~= tokens(v@));
    }
    done
}

} // verus!

verus! {

/// Whether two character vectors hold the same characters.
pub fn chars_eq(a: &Vec<char>, b: &Vec<char>) -> (r: bool)
    ensures
        r == (a@ == b@),
{
    if a.len() != b.len() {
        return false;
    }
    let mut i: usize = 0;
    while i < a.len()
        invariant
            a@.len() == b@.len(),
            i <= a@.len(),
            forall|k: int| 0 <= k < i ==> a@[k] == b@[k],
        decreases a@.len() - i,
    {
        if a[i] != b[i] {
            return false;
        }
        i += 1;
    }
    assert(a@ =~= b@);
    true
}

/// Whether `v` holds a vector with the characters of `n`.
pub fn contains_chars(v: &Vec<Vec<char>>, n: &Vec<char>) -> (b: bool)
    ensures
        b == views(v@).contains(n@),
{
    let mut i: usize = 0;
    while i < v.len()
        invariant
            i <= v@.len(),
            forall|k: int| 0 <= k < i ==> views(v@)[k] != n@,
        decreases v@.len() - i,
    {
        if chars_eq(&v[i], n) {
            assert(views(v@)[i as int] == n@);
            return true;
        }
        i += 1;
    }
    false
}

} // verus!
