//! Character-level string operations with exact specifications over `Seq<char>`.

use vstd::prelude::*;

verus! {

/// `String::push` appends one character.
pub assume_specification[ String::push ](s: &mut String, ch: char)
    ensures
        final(s)@ == old(s)@.push(ch),
;

/// `String::push_str` appends a whole text.
pub assume_specification[ String::push_str ](s: &mut String, string: &str)
    ensures
        final(s)@ == old(s)@ + string@,
;

/// The two texts one after the other.
pub fn concat(a: &str, b: &str) -> (r: String)
    ensures
        r@ == a@ + b@,
{
    let mut r = a.to_owned();
    r.push_str(b);
    r
}

/// The characters of `s`, in order.
pub fn chars_of(s: &str) -> (v: Vec<char>)
    ensures
        v@ == s@,
{
    let mut v: Vec<char> = Vec::new();
    for c in it: s.chars()
        invariant
            v@ == it.seq().take(it.index() as int),
            it.seq() == s@,
    {
        v.push(c);
    }
    v
}

/// A `String` holding exactly the characters of `cs`.
pub fn string_of(cs: &[char]) -> (r: String)
    ensures
        r@ == cs@,
{
    let mut r = String::new();
    let mut i: usize = 0;
    while i < cs.len()
        invariant
            i <= cs.len(),
            r@ == cs@.take(i as int),
        decreases cs.len() - i,
    {
        r.push(cs[i]);
        i = i + 1;
        assert(cs@.take(i as int) == cs@.take((i - 1) as int).push(cs@[i - 1]));
    }
    assert(cs@.take(cs.len() as int) == cs@);
    r
}


/// `p` occurs in `s` starting at index `i`.
pub open spec fn matches_at(s: Seq<char>, p: Seq<char>, i: int) -> bool {
    0 <= i && i + p.len() <= s.len() && s.subrange(i, i + p.len()) == p
}

/// `p` occurs somewhere in `s` (what `str::contains` answers).
pub open spec fn contains(s: Seq<char>, p: Seq<char>) -> bool {
    exists|i: int| matches_at(s, p, i)
}

/// The leftmost occurrence of `p` in `s` that starts at or after `from`.
pub open spec fn find_from(s: Seq<char>, p: Seq<char>, from: int) -> Option<int>
    decreases s.len() + 1 - from,
{
    if from < 0 || from + p.len() > s.len() {
        None
    } else if matches_at(s, p, from) {
        Some(from)
    } else {
        find_from(s, p, from + 1)
    }
}

/// What `find_from` returns is the first occurrence at or after `from`.
pub proof fn lemma_find_from(s: Seq<char>, p: Seq<char>, from: int)
    requires
        0 <= from,
    ensures
        find_from(s, p, from) matches Some(i) ==> from <= i && matches_at(s, p, i) && forall|
            j: int,
        | from <= j < i ==> !matches_at(s, p, j),
        find_from(s, p, from) is None ==> forall|j: int| from <= j ==> !matches_at(s, p, j),
    decreases s.len() + 1 - from,
{
    if from + p.len() > s.len() {
    } else if matches_at(s, p, from) {
    } else {
        lemma_find_from(s, p, from + 1);
    }
}

/// The first occurrence from `from` on is at `i` whenever `i` is an occurrence and none
/// comes before it.
pub proof fn lemma_find_from_is(s: Seq<char>, p: Seq<char>, from: int, i: int)
    requires
        0 <= from <= i,
        matches_at(s, p, i),
        forall|j: int| from <= j < i ==> !matches_at(s, p, j),
    ensures
        find_from(s, p, from) == Some(i),
{
    lemma_find_from(s, p, from);
}

/// No occurrence at or after `from` means `find_from` finds none.
pub proof fn lemma_find_from_none(s: Seq<char>, p: Seq<char>, from: int)
    requires
        0 <= from,
        forall|j: int| from <= j ==> !matches_at(s, p, j),
    ensures
        find_from(s, p, from) is None,
{
    lemma_find_from(s, p, from);
}

/// Whether `p` occurs in `s` at index `i`.
pub fn matches_at_exec(s: &[char], p: &[char], i: usize) -> (b: bool)
    ensures
        b == matches_at(s@, p@, i as int),
{
    if p.len() > s.len() || i > s.len() - p.len() {
        return false;
    }
    let mut k: usize = 0;
    while k < p.len()
        invariant
            k <= p.len(),
            i + p.len() <= s.len(),
            forall|t: int| 0 <= t < k ==> s@[i + t] == p@[t],
        decreases p.len() - k,
    {
        if s[i + k] != p[k] {
            assert(s@.subrange(i as int, i + p.len())[k as int] != p@[k as int]);
            return false;
        }
        k = k + 1;
    }
    assert(s@.subrange(i as int, i + p.len()) =~= p@);
    true
}

/// The leftmost occurrence of `p` in `s` at or after `from`.
pub fn find_from_exec(s: &[char], p: &[char], from: usize) -> (r: Option<usize>)
    ensures
        r matches Some(i) ==> find_from(s@, p@, from as int) == Some(i as int),
        r is None ==> find_from(s@, p@, from as int) is None,
{
    if p.len() > s.len() || from > s.len() - p.len() {
        return None;
    }
    let mut i = from;
    loop
        invariant
            p.len() <= s.len(),
            from <= i <= s.len() - p.len(),
            find_from(s@, p@, from as int) == find_from(s@, p@, i as int),
        decreases s.len() - i,
    {
        if matches_at_exec(s, p, i) {
            return Some(i);
        }
        if i == s.len() - p.len() {
            assert(find_from(s@, p@, i + 1) is None);
            return None;
        }
        i = i + 1;
    }
}

/// Whether `p` occurs in `s`.
pub fn contains_exec(s: &[char], p: &[char]) -> (b: bool)
    ensures
        b == contains(s@, p@),
{
    let r = find_from_exec(s, p, 0);
    proof {
        lemma_find_from(s@, p@, 0);
    }
    r.is_some()
}


/// `str::replace` for a non-empty pattern: every non-overlapping occurrence of `p`, taken
/// from left to right, replaced by `r`. (Nothing here replaces an empty pattern; for one,
/// `s` is given back.)
pub open spec fn replace_all(s: Seq<char>, p: Seq<char>, r: Seq<char>) -> Seq<char>
    recommends
        p.len() > 0,
    decreases s.len(),
{
    if p.len() == 0 || s.len() == 0 {
        s
    } else if matches_at(s, p, 0) {
        r + replace_all(s.skip(p.len() as int), p, r)
    } else {
        seq![s[0]] + replace_all(s.skip(1), p, r)
    }
}

/// Replacing a pattern that does not occur leaves the text as it is.
pub proof fn lemma_replace_absent(s: Seq<char>, p: Seq<char>, r: Seq<char>)
    requires
        p.len() > 0,
        !contains(s, p),
    ensures
        replace_all(s, p, r) == s,
    decreases s.len(),
{
    if s.len() > 0 {
        assert(!matches_at(s, p, 0));
        assert forall|i: int| !matches_at(s.skip(1), p, i) by {
            if matches_at(s.skip(1), p, i) {
                assert(s.subrange(i + 1, i + 1 + p.len()) =~= s.skip(1).subrange(i, i + p.len()));
                assert(matches_at(s, p, i + 1));
            }
        }
        lemma_replace_absent(s.skip(1), p, r);
        assert(s =~= seq![s[0]] + s.skip(1));
    }
}

/// Where no character of `q` is the first one of `r`, a `q` at the start of
/// `replace_all(s, p, r)` was at the start of `s`.
proof fn lemma_replace_prefix(s: Seq<char>, p: Seq<char>, r: Seq<char>, q: Seq<char>)
    requires
        p.len() > 0,
        r.len() > 0,
        forall|a: int| 0 <= a < q.len() ==> q[a] != r[0],
        matches_at(replace_all(s, p, r), q, 0),
    ensures
        matches_at(s, q, 0),
    decreases s.len(),
{
    let t = replace_all(s, p, r);
    if q.len() == 0 {
        assert(s.subrange(0, 0) =~= q);
    } else if s.len() == 0 {
        assert(t.len() == 0);
    } else if matches_at(s, p, 0) {
        assert(t == r + replace_all(s.skip(p.len() as int), p, r));
        assert(t.subrange(0, q.len() as int)[0] == t[0]);
        assert(t[0] == r[0]);
    } else {
        let rest = replace_all(s.skip(1), p, r);
        assert(t == seq![s[0]] + rest);
        assert(t.subrange(0, q.len() as int)[0] == t[0]);
        let q1 = q.skip(1);
        assert(rest.subrange(0, q1.len() as int) =~= t.subrange(1, q.len() as int));
        assert(t.subrange(1, q.len() as int) =~= q1);
        assert(matches_at(rest, q1, 0));
        lemma_replace_prefix(s.skip(1), p, r, q1);
        assert(q[0] == s[0]);
        assert(q =~= seq![q[0]] + q1);
        assert(s.subrange(0, q.len() as int) =~= seq![s[0]] + s.skip(1).subrange(0, q1.len() as int));
    }
}

/// Replacing `p` by `r` brings in no occurrence of `q`, where `q` starts with a character
/// that `r` does not hold and holds no copy of the first character of `r`.
pub proof fn lemma_replace_adds_no(s: Seq<char>, p: Seq<char>, r: Seq<char>, q: Seq<char>)
    requires
        p.len() > 0,
        r.len() > 0,
        q.len() > 0,
        forall|a: int| 0 <= a < q.len() ==> q[a] != r[0],
        forall|b: int| 0 <= b < r.len() ==> r[b] != q[0],
        !contains(s, q),
    ensures
        !contains(replace_all(s, p, r), q),
    decreases s.len(),
{
    let t = replace_all(s, p, r);
    if s.len() > 0 {
        let m = matches_at(s, p, 0);
        let n: int = if m { p.len() as int } else { 1 };
        let s2 = s.skip(n);
        assert forall|j: int| !matches_at(s2, q, j) by {
            if matches_at(s2, q, j) {
                assert(s.subrange(j + n, j + n + q.len()) =~= s2.subrange(j, j + q.len()));
                assert(matches_at(s, q, j + n));
            }
        }
        lemma_replace_adds_no(s2, p, r, q);
        let rest = replace_all(s2, p, r);
        let head = if m { r } else { seq![s[0]] };
        assert(t == head + rest);
        assert forall|j: int| !matches_at(t, q, j) by {
            if matches_at(t, q, j) {
                if j >= head.len() {
                    let k = j - head.len();
                    assert(rest.subrange(k, k + q.len()) =~= t.subrange(j, j + q.len()));
                    assert(matches_at(rest, q, k));
                } else if m {
                    assert(t.subrange(j, j + q.len())[0] == t[j]);
                    assert(t[j] == r[j]);
                } else {
                    lemma_replace_prefix(s, p, r, q);
                }
            }
        }
    }
}

/// Every occurrence of the non-empty pattern `p` in `s` replaced by `r`, as
/// `str::replace` does.
pub fn replace_all_exec(s: &[char], p: &[char], r: &[char]) -> (out: Vec<char>)
    requires
        p.len() > 0,
    ensures
        out@ == replace_all(s@, p@, r@),
{
    let mut out: Vec<char> = Vec::new();
    assert(s@.skip(0) =~= s@);
    let mut i: usize = 0;
    assert(out@ + replace_all(s@.skip(0), p@, r@) =~= replace_all(s@, p@, r@));
    while i < s.len()
        invariant
            i <= s.len(),
            p.len() > 0,
            replace_all(s@, p@, r@) == out@ + replace_all(s@.skip(i as int), p@, r@),
        decreases s.len() - i,
    {
        let ghost rest = s@.skip(i as int);
        let ghost before = out@;
        if matches_at_exec(s, p, i) {
            assert(matches_at(rest, p@, 0)) by {
                assert(rest.subrange(0, p@.len() as int) =~= s@.subrange(i as int, i + p@.len()));
            }
            push_all(&mut out, r);
            assert(rest.skip(p@.len() as int) =~= s@.skip(i + p.len()));
            i = i + p.len();
        } else {
            assert(!matches_at(rest, p@, 0)) by {
                if matches_at(rest, p@, 0) {
                    assert(rest.subrange(0, p@.len() as int) =~= s@.subrange(i as int, i + p@.len()));
                }
            }
            out.push(s[i]);
            assert(rest.skip(1) =~= s@.skip(i + 1));
            i = i + 1;
        }
        assert(out@ + replace_all(s@.skip(i as int), p@, r@) =~= before + replace_all(rest, p@, r@));
    }
    assert(s@.skip(i as int).len() == 0);
    assert(out@ + seq![] =~= out@);
    out
}

/// Appends the characters of `r` to `out`.
pub fn push_all(out: &mut Vec<char>, r: &[char])
    ensures
        final(out)@ == old(out)@ + r@,
{
    let mut k: usize = 0;
    while k < r.len()
        invariant
            k <= r.len(),
            out@ == old(out)@ + r@.take(k as int),
        decreases r.len() - k,
    {
        out.push(r[k]);
        k = k + 1;
        assert(r@.take(k as int) =~= r@.take(k - 1).push(r@[k - 1]));
    }
    assert(r@.take(r.len() as int) =~= r@);
}

/// `char::is_whitespace`: the Unicode `White_Space` property.
pub open spec fn is_whitespace(c: char) -> bool {
    ('\u{9}' <= c && c <= '\u{d}') || c == ' ' || c == '\u{85}' || c == '\u{a0}' || c
        == '\u{1680}' || ('\u{2000}' <= c && c <= '\u{200a}') || c == '\u{2028}' || c
        == '\u{2029}' || c == '\u{202f}' || c == '\u{205f}' || c == '\u{3000}'
}

/// Whether `c` is a Unicode white-space character.
pub fn is_whitespace_exec(c: char) -> (b: bool)
    ensures
        b == is_whitespace(c),
{
    ('\u{9}' <= c && c <= '\u{d}') || c == ' ' || c == '\u{85}' || c == '\u{a0}' || c
        == '\u{1680}' || ('\u{2000}' <= c && c <= '\u{200a}') || c == '\u{2028}' || c
        == '\u{2029}' || c == '\u{202f}' || c == '\u{205f}' || c == '\u{3000}'
}

/// `str::trim_end`: trailing white space removed.
pub open spec fn trim_end(s: Seq<char>) -> Seq<char>
    decreases s.len(),
{
    if s.len() > 0 && is_whitespace(s.last()) {
        trim_end(s.drop_last())
    } else {
        s
    }
}

/// `trim_end` keeps a prefix of its argument.
pub proof fn lemma_trim_end_prefix(s: Seq<char>)
    ensures
        trim_end(s).len() <= s.len(),
        trim_end(s) == s.take(trim_end(s).len() as int),
    decreases s.len(),
{
    if s.len() > 0 && is_whitespace(s.last()) {
        lemma_trim_end_prefix(s.drop_last());
        assert(s.drop_last().take(trim_end(s).len() as int) =~= s.take(
            trim_end(s).len() as int,
        ));
    } else {
        assert(s.take(s.len() as int) =~= s);
    }
}

/// The text without its trailing white space.
pub fn trim_end_exec(s: &[char]) -> (out: Vec<char>)
    ensures
        out@ == trim_end(s@),
{
    let mut n = s.len();
    assert(s@.take(n as int) =~= s@);
    while n > 0 && is_whitespace_exec(s[n - 1])
        invariant
            n <= s.len(),
            trim_end(s@) == trim_end(s@.take(n as int)),
        decreases n,
    {
        assert(s@.take(n as int).drop_last() =~= s@.take(n - 1));
        n = n - 1;
    }
    let mut out: Vec<char> = Vec::new();
    let mut k: usize = 0;
    while k < n
        invariant
            k <= n <= s.len(),
            out@ == s@.take(k as int),
        decreases n - k,
    {
        out.push(s[k]);
        k = k + 1;
        assert(s@.take(k as int) =~= s@.take(k - 1).push(s@[k - 1]));
    }
    out
}


/// `str::trim_start`: leading white space removed.
pub open spec fn trim_start(s: Seq<char>) -> Seq<char>
    decreases s.len(),
{
    if s.len() > 0 && is_whitespace(s[0]) {
        trim_start(s.skip(1))
    } else {
        s
    }
}

/// `str::trim`: leading and trailing white space removed.
pub open spec fn trim(s: Seq<char>) -> Seq<char> {
    trim_start(trim_end(s))
}

/// The text without its leading and trailing white space.
pub fn trim_exec(s: &[char]) -> (out: Vec<char>)
    ensures
        out@ == trim(s@),
{
    let e = trim_end_exec(s);
    let mut k: usize = 0;
    assert(e@.skip(0) =~= e@);
    while k < e.len() && is_whitespace_exec(e[k])
        invariant
            k <= e.len(),
            trim_start(e@) == trim_start(e@.skip(k as int)),
        decreases e.len() - k,
    {
        assert(e@.skip(k as int).skip(1) =~= e@.skip(k + 1));
        assert(e@.skip(k as int)[0] == e@[k as int]);
        k = k + 1;
    }
    assert(k < e.len() ==> e@.skip(k as int)[0] == e@[k as int]);
    assert(k == e.len() ==> e@.skip(k as int).len() == 0);
    let mut out: Vec<char> = Vec::new();
    let mut j: usize = k;
    while j < e.len()
        invariant
            k <= j <= e.len(),
            out@ == e@.subrange(k as int, j as int),
        decreases e.len() - j,
    {
        out.push(e[j]);
        j = j + 1;
        assert(e@.subrange(k as int, j as int) =~= e@.subrange(k as int, j - 1).push(e@[j - 1]));
    }
    assert(e@.subrange(k as int, e.len() as int) =~= e@.skip(k as int));
    out
}

/// `str::split` on the character `c`: the pieces between occurrences of `c`, empty ones
/// included (an empty text gives one empty piece).
pub open spec fn split_char(s: Seq<char>, c: char) -> Seq<Seq<char>>
    decreases s.len(),
{
    if s.len() == 0 {
        seq![Seq::<char>::empty()]
    } else {
        let rest = split_char(s.drop_last(), c);
        if s.last() == c {
            rest.push(Seq::<char>::empty())
        } else {
            rest.update(rest.len() - 1, rest.last().push(s.last()))
        }
    }
}

/// `split_char` always yields at least one piece.
pub proof fn lemma_split_char_nonempty(s: Seq<char>, c: char)
    ensures
        split_char(s, c).len() >= 1,
    decreases s.len(),
{
    if s.len() > 0 {
        lemma_split_char_nonempty(s.drop_last(), c);
    }
}

/// The pieces of `s` between occurrences of `c`.
pub fn split_char_exec(s: &[char], c: char) -> (pieces: Vec<String>)
    ensures
        pieces.deep_view() == split_char(s@, c),
{
    let mut pieces: Vec<String> = Vec::new();
    let mut cur: Vec<char> = Vec::new();
    let mut i: usize = 0;
    assert(s@.take(0) =~= Seq::<char>::empty());
    assert(pieces.deep_view().push(cur@) =~= split_char(s@.take(0), c));
    while i < s.len()
        invariant
            i <= s.len(),
            pieces.deep_view().push(cur@) == split_char(s@.take(i as int), c),
        decreases s.len() - i,
    {
        let ch = s[i];
        let ghost prev = pieces.deep_view();
        let ghost prev_cur = cur@;
        assert(s@.take(i + 1).drop_last() =~= s@.take(i as int));
        assert(s@.take(i + 1).last() == ch);
        proof {
            lemma_split_char_nonempty(s@.take(i as int), c);
        }
        if ch == c {
            let piece = string_of(cur.as_slice());
            pieces.push(piece);
            cur = Vec::new();
            assert(pieces.deep_view() =~= prev.push(prev_cur));
            assert(pieces.deep_view().push(cur@) =~= prev.push(prev_cur).push(Seq::<char>::empty()));
        } else {
            cur.push(ch);
            assert(pieces.deep_view() =~= prev);
            assert(pieces.deep_view().push(cur@) =~= prev.push(prev_cur).update(
                prev.len() as int,
                prev_cur.push(ch),
            ));
        }
        i = i + 1;
    }
    assert(s@.take(s.len() as int) =~= s@);
    let ghost before = pieces.deep_view();
    let last = string_of(cur.as_slice());
    pieces.push(last);
    assert(pieces.deep_view() =~= before.push(cur@));
    pieces
}

/// One line with its `'\r'` terminator removed, if it has one.
pub open spec fn strip_cr(l: Seq<char>) -> Seq<char> {
    if l.len() > 0 && l.last() == '\r' {
        l.drop_last()
    } else {
        l
    }
}

/// `str::lines`: the pieces between `'\n'`, each stripped of one trailing `'\r'`; a final
/// empty piece (text that ends in `'\n'`, or empty text) is not a line, and the final
/// unterminated piece keeps its `'\r'`.
pub open spec fn lines(s: Seq<char>) -> Seq<Seq<char>> {
    let parts = split_char(s, '\n');
    let body = parts.drop_last().map_values(|l: Seq<char>| strip_cr(l));
    if parts.last().len() == 0 {
        body
    } else {
        body.push(parts.last())
    }
}

/// The lines of `s`.
pub fn lines_exec(s: &[char]) -> (out: Vec<String>)
    ensures
        out.deep_view() == lines(s@),
{
    let parts = split_char_exec(s, '\n');
    proof {
        lemma_split_char_nonempty(s@, '\n');
    }
    let ghost pv = parts.deep_view();
    let ghost body = pv.drop_last().map_values(|l: Seq<char>| strip_cr(l));
    let n = parts.len();
    let mut out: Vec<String> = Vec::new();
    let mut k: usize = 0;
    while k + 1 < n
        invariant
            n == parts.len(),
            pv == parts.deep_view(),
            n >= 1,
            k + 1 <= n,
            out.deep_view() == body.take(k as int),
            body == pv.drop_last().map_values(|l: Seq<char>| strip_cr(l)),
        decreases n - k,
    {
        let mut cs = chars_of(parts[k].as_str());
        let ghost before = out.deep_view();
        let ghost full = cs@;
        if cs.len() > 0 && cs[cs.len() - 1] == '\r' {
            cs.pop();
            assert(cs@ =~= full.drop_last());
            let piece = string_of(cs.as_slice());
            out.push(piece);
        } else {
            let piece = string_of(cs.as_slice());
            out.push(piece);
        }
        assert(pv[k as int] == parts[k as int]@);
        assert(out.deep_view() =~= before.push(strip_cr(pv[k as int])));
        k = k + 1;
        assert(body.take(k as int) =~= body.take(k - 1).push(body[k - 1]));
    }
    assert(body.take(k as int) =~= body);
    let last = chars_of(parts[n - 1].as_str());
    if last.len() > 0 {
        let ghost before = out.deep_view();
        let piece = string_of(last.as_slice());
        out.push(piece);
        assert(out.deep_view() =~= before.push(pv.last()));
    }
    out
}

/// `str::trim_start_matches` with a single character: every leading `c` removed.
pub open spec fn trim_leading(s: Seq<char>, c: char) -> Seq<char>
    decreases s.len(),
{
    if s.len() > 0 && s[0] == c {
        trim_leading(s.skip(1), c)
    } else {
        s
    }
}

/// The text without its leading run of `c`.
pub fn trim_leading_exec(s: &[char], c: char) -> (out: Vec<char>)
    ensures
        out@ == trim_leading(s@, c),
{
    let mut i: usize = 0;
    assert(s@.skip(0) =~= s@);
    while i < s.len() && s[i] == c
        invariant
            i <= s.len(),
            trim_leading(s@, c) == trim_leading(s@.skip(i as int), c),
        decreases s.len() - i,
    {
        assert(s@.skip(i as int).skip(1) =~= s@.skip(i + 1));
        i = i + 1;
    }
    let mut out: Vec<char> = Vec::new();
    let mut k: usize = i;
    while k < s.len()
        invariant
            i <= k <= s.len(),
            out@ == s@.subrange(i as int, k as int),
        decreases s.len() - k,
    {
        out.push(s[k]);
        k = k + 1;
        assert(s@.subrange(i as int, k as int) =~= s@.subrange(i as int, k - 1).push(s@[k - 1]));
    }
    assert(s@.subrange(i as int, s.len() as int) =~= s@.skip(i as int));
    out
}

/// `s` begins with `p` (what `str::starts_with` answers).
pub open spec fn starts_with(s: Seq<char>, p: Seq<char>) -> bool {
    matches_at(s, p, 0)
}

/// Two strings hold the same text.
pub fn str_eq(a: &str, b: &str) -> (r: bool)
    ensures
        r == (a@ == b@),
{
    let x = chars_of(a);
    let y = chars_of(b);
    same_chars(x.as_slice(), y.as_slice())
}

/// Two texts hold the same characters.
pub fn same_chars(a: &[char], b: &[char]) -> (r: bool)
    ensures
        r == (a@ == b@),
{
    if a.len() != b.len() {
        return false;
    }
    let r = matches_at_exec(a, b, 0);
    assert(a@.subrange(0, b@.len() as int) =~= a@);
    r
}

} // verus!
