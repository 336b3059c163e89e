//! The shell side of `kit`: where its files live, the aliases file it writes, and the
//! block it keeps in the shell rc file.

use vstd::prelude::*;
use crate::config::Config;
use crate::config::opt_view;
use crate::paths::{expand_home, expand_home_exec, join, joined};
use crate::system;
use crate::text::{
    chars_of, contains, matches_at, find_from, lemma_find_from_is, lemma_find_from_none,
    lemma_trim_end_prefix, lemma_replace_absent, lemma_replace_adds_no, find_from_exec, lemma_find_from, replace_all, replace_all_exec,
    string_of, trim_end, trim_end_exec,
};

verus! {

/// The line that opens the block `kit` manages in the shell rc: `# >>> kit >>>`.
pub open spec fn marker_start() -> Seq<char> {
    seq!['#', ' ', '>', '>', '>', ' ', 'k', 'i', 't', ' ', '>', '>', '>']
}

/// The line that closes the block `kit` manages in the shell rc: `# <<< kit <<<`.
pub open spec fn marker_end() -> Seq<char> {
    seq!['#', ' ', '<', '<', '<', ' ', 'k', 'i', 't', ' ', '<', '<', '<']
}

/// The text between the opening marker and the first mention of the kit directory.
pub open spec fn export_prefix() -> Seq<char> {
    seq!['\n', 'e', 'x', 'p', 'o', 'r', 't', ' ', 'P', 'A', 'T', 'H', '=', '"']
}

/// The text between the two mentions of the kit directory.
pub open spec fn source_prefix() -> Seq<char> {
    seq!['/', 'b', 'i', 'n', ':', '$', 'P', 'A', 'T', 'H', '"', '\n', 's', 'o', 'u', 'r', 'c', 'e', ' ', '"']
}

/// The text between the second mention of the kit directory and the closing marker.
pub open spec fn source_suffix() -> Seq<char> {
    seq!['/', 'a', 'l', 'i', 'a', 's', 'e', 's', '.', 'z', 's', 'h', '"', '\n']
}

/// The block injected into the shell rc, for the kit directory as it is written there.
pub open spec fn injection_text(kit_dir: Seq<char>) -> Seq<char> {
    marker_start() + export_prefix() + kit_dir + source_prefix() + kit_dir + source_suffix()
        + marker_end()
}

/// The text before the first occurrence of `p`, or all of `s` where there is none
/// (`s.split(p).next()`).
pub open spec fn before_first(s: Seq<char>, p: Seq<char>) -> Seq<char> {
    match find_from(s, p, 0) {
        Some(i) => s.take(i),
        None => s,
    }
}

/// The text between the first and the second occurrence of `p`, or after the first where
/// there is no second one; empty where `p` does not occur (`s.split(p).nth(1)`, or `""`).
pub open spec fn second_piece(s: Seq<char>, p: Seq<char>) -> Seq<char> {
    match find_from(s, p, 0) {
        None => Seq::<char>::empty(),
        Some(i) => {
            let st = i + p.len();
            match find_from(s, p, st) {
                Some(j) => s.subrange(st, j),
                None => s.skip(st),
            }
        },
    }
}

/// The shell rc after injection: where the opening marker occurs, the text before it, the
/// block, then the text after the first closing marker (up to a second one); elsewhere the
/// rc without trailing white space, a newline, the block and a newline.
pub open spec fn rc_injected(existing: Seq<char>, injection: Seq<char>) -> Seq<char> {
    if contains(existing, marker_start()) {
        before_first(existing, marker_start()) + injection + second_piece(existing, marker_end())
    } else {
        trim_end(existing) + seq!['\n'] + injection + seq!['\n']
    }
}

/// Neither marker occurs in `s`.
pub open spec fn marker_free(s: Seq<char>) -> bool {
    !contains(s, marker_start()) && !contains(s, marker_end())
}

/// `p` holds no `'/'`.
pub open spec fn no_slash(p: Seq<char>) -> bool {
    forall|k: int| 0 <= k < p.len() ==> p[k] != '/'
}

/// `p` starts with `'#'` and holds no other `'#'`.
pub open spec fn hash_led(p: Seq<char>) -> bool {
    p.len() > 0 && p[0] == '#' && forall|k: int| 1 <= k < p.len() ==> p[k] != '#'
}

/// An occurrence of a `'#'`-led pattern in `b + t`, where `t` starts with `'#'`, that starts
/// inside `b` lies wholly inside `b`.
proof fn lemma_match_stays_left(b: Seq<char>, t: Seq<char>, p: Seq<char>, j: int)
    requires
        hash_led(p),
        t.len() > 0,
        t[0] == '#',
        0 <= j < b.len(),
        matches_at(b + t, p, j),
    ensures
        matches_at(b, p, j),
{
    let r = b + t;
    if j + p.len() > b.len() {
        let k = b.len() - j;
        assert(r.subrange(j, j + p.len())[k] == r[b.len() as int]);
        assert(r[b.len() as int] == '#');
        assert(p[k] != '#');
    } else {
        assert(b.subrange(j, j + p.len()) =~= r.subrange(j, j + p.len()));
    }
}

/// The part of the block between its two markers.
pub open spec fn injection_body(kit_dir: Seq<char>) -> Seq<char> {
    export_prefix() + kit_dir + source_prefix() + kit_dir + source_suffix()
}

/// The block is its opening marker, its body and its closing marker; the markers are
/// `'#'`-led, of equal length, free of `'/'`, and differ.
proof fn lemma_injection_shape(kit_dir: Seq<char>)
    ensures
        injection_text(kit_dir) == marker_start() + injection_body(kit_dir) + marker_end(),
        hash_led(marker_start()),
        hash_led(marker_end()),
        no_slash(marker_start()),
        no_slash(marker_end()),
        marker_start().len() == marker_end().len(),
        marker_start()[2] != marker_end()[2],
{
    let mid = injection_body(kit_dir);
    assert(injection_text(kit_dir) =~= marker_start() + mid + marker_end());
}

/// An occurrence in `x + y` that starts `x.len()` places in is an occurrence in `y`.
proof fn lemma_shift_match(x: Seq<char>, y: Seq<char>, p: Seq<char>, j: int)
    requires
        0 <= j,
    ensures
        matches_at(x + y, p, x.len() + j) == matches_at(y, p, j),
{
    if j + p.len() <= y.len() {
        assert((x + y).subrange(x.len() + j, x.len() + j + p.len()) =~= y.subrange(
            j,
            j + p.len(),
        ));
    }
}

/// No occurrence of a marker starts inside the body of the block, when the kit directory
/// does not hold that marker: the fixed text of the body holds no `'#'`, and an occurrence
/// that starts in the kit directory and runs past its end would have to match the `'/'`
/// that follows it.
proof fn lemma_body_clean(kit_dir: Seq<char>, p: Seq<char>, tail: Seq<char>, j: int)
    requires
        hash_led(p),
        no_slash(p),
        !contains(kit_dir, p),
        0 <= j < injection_body(kit_dir).len(),
    ensures
        !matches_at(injection_body(kit_dir) + tail, p, j),
{
    let body = injection_body(kit_dir);
    let w = body + tail;
    let l1 = export_prefix().len() as int;
    let e1 = l1 + kit_dir.len();
    let c2 = e1 + source_prefix().len();
    let e2 = c2 + kit_dir.len();
    if matches_at(w, p, j) {
        assert(w.subrange(j, j + p.len())[0] == w[j]);
        assert(w[j] == '#');
        if j < l1 {
            assert(w[j] == export_prefix()[j]);
        } else if j < e1 {
            if j + p.len() <= e1 {
                assert(kit_dir.subrange(j - l1, j - l1 + p.len()) =~= w.subrange(j, j + p.len()));
                assert(matches_at(kit_dir, p, j - l1));
            } else {
                let k = e1 - j;
                assert(w.subrange(j, j + p.len())[k] == w[e1]);
                assert(w[e1] == source_prefix()[0]);
            }
        } else if j < c2 {
            assert(w[j] == source_prefix()[j - e1]);
        } else if j < e2 {
            if j + p.len() <= e2 {
                assert(kit_dir.subrange(j - c2, j - c2 + p.len()) =~= w.subrange(j, j + p.len()));
                assert(matches_at(kit_dir, p, j - c2));
            } else {
                let k = e2 - j;
                assert(w.subrange(j, j + p.len())[k] == w[e2]);
                assert(w[e2] == source_suffix()[0]);
            }
        } else {
            assert(w[j] == source_suffix()[j - e2]);
        }
    }
}

/// In `b + ms + mid + me + a`, the opening marker first occurs right after `b`.
proof fn lemma_first_start_after(b: Seq<char>, mid: Seq<char>, a: Seq<char>)
    requires
        !contains(b, marker_start()),
        hash_led(marker_start()),
    ensures
        find_from(b + marker_start() + mid + marker_end() + a, marker_start(), 0) == Some(
            b.len() as int,
        ),
{
    let ms = marker_start();
    let t = ms + mid + marker_end() + a;
    let r = b + t;
    assert(b + marker_start() + mid + marker_end() + a =~= r);
    let bl = b.len() as int;
    assert(t[0] == '#');
    assert(r.subrange(bl, bl + ms.len()) =~= ms);
    assert forall|j: int| 0 <= j < bl implies !matches_at(r, ms, j) by {
        if matches_at(r, ms, j) {
            lemma_match_stays_left(b, t, ms, j);
        }
    }
    lemma_find_from_is(r, ms, 0, bl);
}

/// In `b + ms + body + me + a`, no closing marker starts before the end of the body.
#[verifier::spinoff_prover]
#[verifier::rlimit(40)]
proof fn lemma_no_end_before(b: Seq<char>, kit_dir: Seq<char>, a: Seq<char>, j: int)
    requires
        !contains(b, marker_end()),
        !contains(kit_dir, marker_end()),
        0 <= j < b.len() + marker_start().len() + injection_body(kit_dir).len(),
    ensures
        !matches_at(b + marker_start() + injection_body(kit_dir) + marker_end() + a, marker_end(), j),
{
    lemma_injection_shape(kit_dir);
    let mid = injection_body(kit_dir);
    let ms = marker_start();
    let me = marker_end();
    let t = ms + mid + me + a;
    let r = b + t;
    assert(b + ms + mid + me + a =~= r);
    let bl = b.len() as int;
    if matches_at(r, me, j) {
        if j < bl {
            assert(t[0] == '#');
            lemma_match_stays_left(b, t, me, j);
        } else if j == bl {
            assert(r.subrange(j, j + me.len()) =~= ms);
            assert(ms[2] != me[2]);
        } else if j < bl + ms.len() {
            assert(r.subrange(j, j + me.len())[0] == r[j]);
            assert(r[j] == ms[j - bl]);
        } else {
            let off = bl + ms.len();
            assert(r =~= (b + ms) + (mid + (me + a)));
            lemma_shift_match(b + ms, mid + (me + a), me, j - off);
            lemma_body_clean(kit_dir, me, me + a, j - off);
        }
    }
}

/// In `b + ms + body + me + a`, the closing marker first occurs after the body, and not
/// again.
proof fn lemma_end_after(b: Seq<char>, kit_dir: Seq<char>, a: Seq<char>)
    requires
        !contains(b, marker_end()),
        !contains(a, marker_end()),
        !contains(kit_dir, marker_end()),
    ensures
        find_from(
            b + marker_start() + injection_body(kit_dir) + marker_end() + a,
            marker_end(),
            0,
        ) == Some((b.len() + marker_start().len() + injection_body(kit_dir).len()) as int),
        find_from(
            b + marker_start() + injection_body(kit_dir) + marker_end() + a,
            marker_end(),
            (b.len() + marker_start().len() + injection_body(kit_dir).len()
                + marker_end().len()) as int,
        ) is None,
{
    lemma_injection_shape(kit_dir);
    let mid = injection_body(kit_dir);
    let ms = marker_start();
    let me = marker_end();
    let r = b + ms + mid + me + a;
    let bl = b.len() as int;
    let q = bl + ms.len() + mid.len();
    let st = q + me.len();
    assert(r.subrange(q, q + me.len()) =~= me);
    assert forall|j: int| 0 <= j < q implies !matches_at(r, me, j) by {
        lemma_no_end_before(b, kit_dir, a, j);
    }
    lemma_find_from_is(r, me, 0, q);
    assert forall|j: int| st <= j implies !matches_at(r, me, j) by {
        if matches_at(r, me, j) {
            assert(a.subrange(j - st, j - st + me.len()) =~= r.subrange(j, j + me.len()));
            assert(matches_at(a, me, j - st));
        }
    }
    lemma_find_from_none(r, me, st);
}

/// Re-injecting into a text that already holds the block between `b` and `a` gives that
/// same text back, when neither marker occurs in `b`, the closing one does not occur in
/// `a`, and the kit directory holds no marker.
proof fn lemma_reinject(b: Seq<char>, a: Seq<char>, kit_dir: Seq<char>)
    requires
        marker_free(kit_dir),
        !contains(b, marker_start()),
        !contains(b, marker_end()),
        !contains(a, marker_end()),
    ensures
        rc_injected(b + injection_text(kit_dir) + a, injection_text(kit_dir)) == b
            + injection_text(kit_dir) + a,
{
    let inj = injection_text(kit_dir);
    let ms = marker_start();
    let me = marker_end();
    let mid = injection_body(kit_dir);
    lemma_injection_shape(kit_dir);
    lemma_first_start_after(b, mid, a);
    lemma_end_after(b, kit_dir, a);
    let r = b + inj + a;
    assert(r =~= b + ms + mid + me + a);
    let bl = b.len() as int;
    let st = bl + ms.len() + mid.len() + me.len();
    lemma_find_from(r, ms, 0);
    assert(contains(r, ms));
    assert(r.take(bl) =~= b);
    assert(r.skip(st) =~= a);
}

/// The rc without trailing white space, followed by a newline, holds no occurrence of a
/// marker that the rc does not hold.
proof fn lemma_trimmed_line_clean(x: Seq<char>, p: Seq<char>)
    requires
        !contains(x, p),
        p.len() > 0,
        p.last() != '\n',
    ensures
        !contains(trim_end(x) + seq!['\n'], p),
{
    let t = trim_end(x);
    lemma_trim_end_prefix(x);
    let b = t + seq!['\n'];
    assert forall|j: int| !matches_at(b, p, j) by {
        if matches_at(b, p, j) {
            if j + p.len() <= t.len() {
                assert(x.subrange(j, j + p.len()) =~= b.subrange(j, j + p.len()));
                assert(matches_at(x, p, j));
            } else {
                assert(b.subrange(j, j + p.len())[p.len() - 1] == b[t.len() as int]);
            }
        }
    }
}

/// In `b + ms + body + me + a`, no opening marker starts anywhere but right after `b`.
#[verifier::spinoff_prover]
#[verifier::rlimit(40)]
proof fn lemma_start_not_at(b: Seq<char>, kit_dir: Seq<char>, a: Seq<char>, j: int)
    requires
        !contains(b, marker_start()),
        !contains(a, marker_start()),
        !contains(kit_dir, marker_start()),
        j != b.len(),
    ensures
        !matches_at(
            b + marker_start() + injection_body(kit_dir) + marker_end() + a,
            marker_start(),
            j,
        ),
{
    lemma_injection_shape(kit_dir);
    let mid = injection_body(kit_dir);
    let ms = marker_start();
    let me = marker_end();
    let t = ms + mid + me + a;
    let r = b + t;
    assert(b + ms + mid + me + a =~= r);
    let bl = b.len() as int;
    let q = bl + ms.len() + mid.len();
    let st = q + me.len();
    if matches_at(r, ms, j) {
        if j < bl {
            assert(t[0] == '#');
            lemma_match_stays_left(b, t, ms, j);
        } else if j < bl + ms.len() {
            assert(r.subrange(j, j + ms.len())[0] == r[j]);
            assert(r[j] == ms[j - bl]);
        } else if j < q {
            let off = bl + ms.len();
            assert(r =~= (b + ms) + (mid + (me + a)));
            lemma_shift_match(b + ms, mid + (me + a), ms, j - off);
            lemma_body_clean(kit_dir, ms, me + a, j - off);
        } else if j == q {
            assert(r.subrange(j, j + ms.len()) =~= me);
            assert(ms[2] != me[2]);
        } else if j < st {
            assert(r.subrange(j, j + ms.len())[0] == r[j]);
            assert(r[j] == me[j - q]);
        } else {
            assert(a.subrange(j - st, j - st + ms.len()) =~= r.subrange(j, j + ms.len()));
            assert(matches_at(a, ms, j - st));
        }
    }
}

/// In `b + ms + body + me + a`, the opening marker occurs only right after `b`.
proof fn lemma_start_only_once(b: Seq<char>, kit_dir: Seq<char>, a: Seq<char>)
    requires
        !contains(b, marker_start()),
        !contains(a, marker_start()),
        !contains(kit_dir, marker_start()),
    ensures
        forall|j: int|
            matches_at(
                b + marker_start() + injection_body(kit_dir) + marker_end() + a,
                marker_start(),
                j,
            ) ==> j == b.len(),
{
    assert forall|j: int|
        matches_at(
            b + marker_start() + injection_body(kit_dir) + marker_end() + a,
            marker_start(),
            j,
        ) implies j == b.len() by {
        if j != b.len() {
            lemma_start_not_at(b, kit_dir, a, j);
        }
    }
}

/// The injected rc holds exactly one opening marker, provided the kit directory holds no
/// marker and, where the rc already had a block, the text kept after it holds no opening
/// marker.
pub proof fn lemma_injection_single_block(existing: Seq<char>, kit_dir: Seq<char>)
    requires
        marker_free(kit_dir),
        contains(existing, marker_start()) ==> !contains(
            second_piece(existing, marker_end()),
            marker_start(),
        ),
    ensures
        occurs_once(rc_injected(existing, injection_text(kit_dir)), marker_start()),
{
    let inj = injection_text(kit_dir);
    let ms = marker_start();
    let me = marker_end();
    let mid = injection_body(kit_dir);
    lemma_injection_shape(kit_dir);
    lemma_find_from(existing, ms, 0);
    let (b, a) = if contains(existing, ms) {
        let f = find_from(existing, ms, 0)->0;
        let b = existing.take(f);
        assert forall|j: int| !matches_at(b, ms, j) by {
            if matches_at(b, ms, j) {
                assert(existing.subrange(j, j + ms.len()) =~= b.subrange(j, j + ms.len()));
                assert(matches_at(existing, ms, j));
            }
        }
        (b, second_piece(existing, me))
    } else {
        lemma_trimmed_line_clean(existing, ms);
        (trim_end(existing) + seq!['\n'], seq!['\n'])
    };
    assert(!contains(a, ms)) by {
        if !contains(existing, ms) {
            assert forall|j: int| !matches_at(a, ms, j) by {}
        }
    }
    let r = rc_injected(existing, inj);
    assert(r =~= b + ms + mid + me + a);
    lemma_start_only_once(b, kit_dir, a);
    let bl = b.len() as int;
    assert(r.subrange(bl, bl + ms.len()) =~= ms);
    assert(matches_at(r, ms, bl));
}

/// Running the injection twice gives what running it once gives, provided the kit
/// directory holds no marker and the closing marker does not occur before the first opening
/// one (or anywhere, where there is no opening one).
pub proof fn lemma_injection_idempotent(existing: Seq<char>, kit_dir: Seq<char>)
    requires
        marker_free(kit_dir),
        !contains(before_first(existing, marker_start()), marker_end()),
    ensures
        rc_injected(rc_injected(existing, injection_text(kit_dir)), injection_text(kit_dir))
            == rc_injected(existing, injection_text(kit_dir)),
{
    let inj = injection_text(kit_dir);
    let ms = marker_start();
    let me = marker_end();
    lemma_find_from(existing, ms, 0);
    if contains(existing, ms) {
        assert(find_from(existing, ms, 0) is Some);
        let f = find_from(existing, ms, 0)->0;
        let b = existing.take(f);
        assert forall|j: int| !matches_at(b, ms, j) by {
            if matches_at(b, ms, j) {
                assert(existing.subrange(j, j + ms.len()) =~= b.subrange(j, j + ms.len()));
                assert(matches_at(existing, ms, j));
            }
        }
        let a = second_piece(existing, me);
        lemma_find_from(existing, me, 0);
        assert forall|j: int| !matches_at(a, me, j) by {
            if matches_at(a, me, j) {
                let e0 = find_from(existing, me, 0)->0;
                let st = e0 + me.len();
                lemma_find_from(existing, me, st);
                assert(existing.subrange(st + j, st + j + me.len()) =~= a.subrange(
                    j,
                    j + me.len(),
                ));
                assert(matches_at(existing, me, st + j));
            }
        }
        lemma_reinject(b, a, kit_dir);
    } else {
        let t = trim_end(existing);
        let b = t + seq!['\n'];
        let a = seq!['\n'];
        assert(before_first(existing, ms) == existing);
        lemma_trimmed_line_clean(existing, ms);
        lemma_trimmed_line_clean(existing, me);
        assert forall|j: int| !matches_at(a, me, j) by {}
        lemma_reinject(b, a, kit_dir);
        assert(rc_injected(existing, inj) =~= b + inj + a);
    }
}

/// The injected rc holds the block.
pub proof fn lemma_injection_present(existing: Seq<char>, injection: Seq<char>)
    ensures
        contains(rc_injected(existing, injection), injection),
{
    let r = rc_injected(existing, injection);
    if contains(existing, marker_start()) {
        let b = before_first(existing, marker_start());
        let bl = b.len() as int;
        assert(r.subrange(bl, bl + injection.len()) =~= injection);
        assert(matches_at(r, injection, bl));
    } else {
        let t = trim_end(existing);
        let tl = t.len() + 1int;
        assert(r.subrange(tl, tl + injection.len()) =~= injection);
        assert(matches_at(r, injection, tl));
    }
}

/// `p` occurs in `s` exactly once.
pub open spec fn occurs_once(s: Seq<char>, p: Seq<char>) -> bool {
    exists|i: int| matches_at(s, p, i) && forall|j: int| matches_at(s, p, j) ==> j == i
}

/// A shell rc as `kit` leaves it: with no marker, or with exactly one opening marker
/// followed later by exactly one closing marker.
pub open spec fn rc_well_formed(existing: Seq<char>) -> bool {
    ||| marker_free(existing)
    ||| {
        &&& occurs_once(existing, marker_start())
        &&& occurs_once(existing, marker_end())
        &&& forall|i: int, j: int|
            matches_at(existing, marker_start(), i) && matches_at(existing, marker_end(), j)
                ==> i < j
    }
}

/// Writing the kit directory with `$HOME` for the home directory brings in no marker.
pub proof fn lemma_display_marker_free(kit_dir: Seq<char>, home: Seq<char>)
    requires
        marker_free(kit_dir),
    ensures
        marker_free(displayed_dir(kit_dir, home)),
{
    if home.len() > 0 {
        reveal_strlit("$HOME");
        lemma_replace_adds_no(kit_dir, home, "$HOME"@, marker_start());
        lemma_replace_adds_no(kit_dir, home, "$HOME"@, marker_end());
    }
}

/// Injecting the block into a shell rc that has no block, or one block between one
/// opening and one closing marker, leaves exactly one opening marker; injecting it again
/// for the same kit directory and home directory changes nothing. The kit directory holds
/// no marker.
pub proof fn lemma_inject_rc_twice(existing: Seq<char>, kit_dir: Seq<char>, home: Seq<char>)
    requires
        rc_well_formed(existing),
        marker_free(kit_dir),
    ensures
        ({
            let inj = injection_text(displayed_dir(kit_dir, home));
            let once = rc_injected(existing, inj);
            &&& occurs_once(once, marker_start())
            &&& rc_injected(once, inj) == once
        }),
{
    let d = displayed_dir(kit_dir, home);
    let ms = marker_start();
    let me = marker_end();
    lemma_display_marker_free(kit_dir, home);
    lemma_find_from(existing, ms, 0);
    if contains(existing, ms) {
        let i = find_from(existing, ms, 0)->0;
        assert forall|j: int| !matches_at(before_first(existing, ms), me, j) by {
            if matches_at(existing.take(i), me, j) {
                assert(existing.subrange(j, j + me.len()) =~= existing.take(i).subrange(
                    j,
                    j + me.len(),
                ));
                assert(matches_at(existing, me, j));
            }
        }
        let e = choose|e: int|
            matches_at(existing, me, e) && forall|j: int| matches_at(existing, me, j) ==> j == e;
        assert(i < e);
        lemma_find_from_is(existing, me, 0, e);
        let st = e + me.len();
        lemma_find_from_none(existing, me, st);
        assert(second_piece(existing, me) == existing.skip(st));
        assert forall|j: int| !matches_at(existing.skip(st), ms, j) by {
            if matches_at(existing.skip(st), ms, j) {
                assert(existing.subrange(st + j, st + j + ms.len()) =~= existing.skip(st).subrange(
                    j,
                    j + ms.len(),
                ));
                assert(matches_at(existing, ms, st + j));
            }
        }
    } else {
        assert(before_first(existing, ms) == existing);
    }
    lemma_injection_idempotent(existing, d);
    lemma_injection_single_block(existing, d);
}

/// A kit directory that begins with the home directory, and does not hold it again, is
/// written with `$HOME` in place of the home directory.
pub proof fn lemma_display_under_home(home: Seq<char>, rest: Seq<char>)
    requires
        home.len() > 0,
        !contains(rest, home),
    ensures
        replace_all(home + rest, home, "$HOME"@) == "$HOME"@ + rest,
{
    let s = home + rest;
    assert(s.subrange(0, home.len() as int) =~= home);
    assert(s.skip(home.len() as int) =~= rest);
    lemma_replace_absent(rest, home, "$HOME"@);
}

/// The block written for a kit directory under a (non-empty) home directory names it as
/// `$HOME` followed by the rest of the path, and for no home directory names the kit
/// directory as it is.
pub proof fn lemma_block_names_home_relative(home: Seq<char>, rest: Seq<char>)
    requires
        !contains(rest, home),
    ensures
        home.len() > 0 ==> injection_text(displayed_dir(home + rest, home)) == injection_text(
            "$HOME"@ + rest,
        ),
        injection_text(displayed_dir(rest, Seq::<char>::empty())) == injection_text(rest),
{
    if home.len() > 0 {
        lemma_display_under_home(home, rest);
    }
}

/// A kit directory that does not hold the home directory is written as it is.
pub proof fn lemma_display_outside_home(home: Seq<char>, kit_dir: Seq<char>)
    requires
        home.len() > 0,
        !contains(kit_dir, home),
    ensures
        replace_all(kit_dir, home, "$HOME"@) == kit_dir,
{
    lemma_replace_absent(kit_dir, home, "$HOME"@);
}

/// The kit directory as written in the rc block, for a home directory: with a non-empty
/// one, each occurrence of it replaced by `$HOME`; with an empty one (no home directory),
/// the kit directory as it is.
pub open spec fn displayed_dir(kit_dir: Seq<char>, home: Seq<char>) -> Seq<char> {
    if home.len() == 0 {
        kit_dir
    } else {
        replace_all(kit_dir, home, "$HOME"@)
    }
}

/// The text of a home directory, empty where there is none.
pub open spec fn home_text(home: Option<Seq<char>>) -> Seq<char> {
    match home {
        Some(h) => h,
        None => Seq::<char>::empty(),
    }
}

/// The kit directory for a configured `bin_dir`: the parent of the path with a leading `~`
/// read as the home directory, or `<home>/.kit` where that path has no parent.
pub open spec fn kit_dir_for(bin_dir: Seq<char>, home: Option<Seq<char>>) -> Seq<char> {
    match system::path_parent(expand_home(bin_dir, home)) {
        Some(d) => d,
        None => joined(
            match home {
                Some(h) => h,
                None => Seq::<char>::empty(),
            },
            seq!['.', 'k', 'i', 't'],
        ),
    }
}

/// The first line of the aliases file.
pub open spec fn aliases_header() -> Seq<char> {
    "# ~/.kit/aliases.zsh - managed by kit, do not edit\n"@
}

/// `alias <name>="<target>"` and a newline.
pub open spec fn alias_line(name: Seq<char>, target: Seq<char>) -> Seq<char> {
    "alias "@ + name + "=\""@ + target + "\"\n"@
}

/// One alias line per pair, in order.
pub open spec fn alias_lines(pairs: Seq<(Seq<char>, Seq<char>)>) -> Seq<char>
    decreases pairs.len(),
{
    if pairs.len() == 0 {
        Seq::<char>::empty()
    } else {
        alias_lines(pairs.drop_last()) + alias_line(pairs.last().0, pairs.last().1)
    }
}

/// The aliases file: the header, then one line per (alias, target) pair.
pub open spec fn aliases_file(pairs: Seq<(Seq<char>, Seq<char>)>) -> Seq<char> {
    aliases_header() + alias_lines(pairs)
}

/// The content of the aliases file for the given (alias, target) pairs.
pub fn aliases_file_content(aliases: &[(String, String)]) -> (r: String)
    ensures
        r@ == aliases_file(aliases.deep_view()),
{
    let mut r = "# ~/.kit/aliases.zsh - managed by kit, do not edit\n".to_owned();
    let mut i: usize = 0;
    while i < aliases.len()
        invariant
            i <= aliases.len(),
            r@ == aliases_header() + alias_lines(aliases.deep_view().take(i as int)),
        decreases aliases.len() - i,
    {
        let ghost before = r@;
        r.push_str("alias ");
        r.push_str(aliases[i].0.as_str());
        r.push_str("=\"");
        r.push_str(aliases[i].1.as_str());
        r.push_str("\"\n");
        let ghost pairs = aliases.deep_view();
        assert(pairs.take(i + 1).drop_last() =~= pairs.take(i as int));
        assert(pairs[i as int] == (aliases@[i as int].0@, aliases@[i as int].1@));
        i = i + 1;
        assert(r@ =~= before + alias_line(pairs[i - 1].0, pairs[i - 1].1));
    }
    assert(aliases.deep_view().take(aliases.len() as int) =~= aliases.deep_view());
    r
}

/// The characters of the opening marker.
fn marker_start_chars() -> (r: Vec<char>)
    ensures
        r@ == marker_start(),
{
    let r = vec!['#', ' ', '>', '>', '>', ' ', 'k', 'i', 't', ' ', '>', '>', '>'];
    assert(r@ =~= marker_start());
    r
}

/// The characters of the closing marker.
fn marker_end_chars() -> (r: Vec<char>)
    ensures
        r@ == marker_end(),
{
    let r = vec!['#', ' ', '<', '<', '<', ' ', 'k', 'i', 't', ' ', '<', '<', '<'];
    assert(r@ =~= marker_end());
    r
}

/// The block injected into the shell rc, for the kit directory as it is written there.
pub fn injection_block(kit_dir: &str) -> (r: String)
    ensures
        r@ == injection_text(kit_dir@),
{
    proof {
        reveal_strlit("# >>> kit >>>\nexport PATH=\"");
        reveal_strlit("/bin:$PATH\"\nsource \"");
        reveal_strlit("/aliases.zsh\"\n# <<< kit <<<");
    }
    assert("# >>> kit >>>\nexport PATH=\""@ =~= marker_start() + export_prefix());
    assert("/bin:$PATH\"\nsource \""@ =~= source_prefix());
    assert("/aliases.zsh\"\n# <<< kit <<<"@ =~= source_suffix() + marker_end());
    let mut r = "# >>> kit >>>\nexport PATH=\"".to_owned();
    r.push_str(kit_dir);
    r.push_str("/bin:$PATH\"\nsource \"");
    r.push_str(kit_dir);
    r.push_str("/aliases.zsh\"\n# <<< kit <<<");
    assert(r@ =~= injection_text(kit_dir@));
    r
}

/// The characters of `s` from `lo` up to `hi`.
fn slice_chars(s: &[char], lo: usize, hi: usize) -> (r: Vec<char>)
    requires
        lo <= hi <= s.len(),
    ensures
        r@ == s@.subrange(lo as int, hi as int),
{
    let mut r: Vec<char> = Vec::new();
    let mut k = lo;
    while k < hi
        invariant
            lo <= k <= hi <= s.len(),
            r@ == s@.subrange(lo as int, k as int),
        decreases hi - k,
    {
        r.push(s[k]);
        k = k + 1;
        assert(s@.subrange(lo as int, k as int) =~= s@.subrange(lo as int, k - 1).push(s@[k - 1]));
    }
    r
}

/// The shell rc `existing` with `injection` put in: in place of an existing block, or
/// appended after the rc's trailing white space is removed.
pub fn rc_with_injection(existing: &str, injection: &str) -> (r: String)
    ensures
        r@ == rc_injected(existing@, injection@),
{
    let s = chars_of(existing);
    let ms = marker_start_chars();
    let me = marker_end_chars();
    let first_start = find_from_exec(s.as_slice(), ms.as_slice(), 0);
    proof {
        lemma_find_from(s@, ms@, 0);
    }
    match first_start {
        Some(i) => {
            let before = slice_chars(s.as_slice(), 0, i);
            assert(before@ =~= before_first(s@, marker_start()));
            let after: Vec<char> = match find_from_exec(s.as_slice(), me.as_slice(), 0) {
                None => Vec::new(),
                Some(e0) => {
                    proof {
                        lemma_find_from(s@, me@, 0);
                    }
                    assert(matches_at(s@, me@, e0 as int));
                    let n = s.len();
                    assert(e0 + me@.len() <= n);
                    let st = e0 + me.len();
                    match find_from_exec(s.as_slice(), me.as_slice(), st) {
                        Some(e1) => {
                            proof {
                                lemma_find_from(s@, me@, st as int);
                            }
                            slice_chars(s.as_slice(), st, e1)
                        },
                        None => {
                            let r = slice_chars(s.as_slice(), st, s.len());
                            assert(r@ =~= s@.skip(st as int));
                            r
                        },
                    }
                },
            };
            assert(after@ =~= second_piece(s@, marker_end()));
            let mut r = string_of(before.as_slice());
            r.push_str(injection);
            let tail = string_of(after.as_slice());
            r.push_str(tail.as_str());
            r
        },
        None => {
            let t = trim_end_exec(s.as_slice());
            let mut r = string_of(t.as_slice());
            r.push('\n');
            r.push_str(injection);
            r.push('\n');
            r
        },
    }
}

/// The directories and files that `kit` manages, under one kit directory.
pub struct Shell {
    pub kit_dir: String,
    pub shell_rc: String,
}

impl Shell {
    /// A shell with the given kit directory and rc file.
    pub fn new(kit_dir: String, shell_rc: String) -> (r: Self)
        ensures
            r.kit_dir == kit_dir,
            r.shell_rc == shell_rc,
    {
        Shell { kit_dir, shell_rc }
    }

    /// `<kit dir>/aliases.zsh`.
    pub fn aliases_path(&self) -> (r: String)
        ensures
            r@ == joined(self.kit_dir@, "aliases.zsh"@),
    {
        join(self.kit_dir.as_str(), "aliases.zsh")
    }

    /// `<kit dir>/bin`.
    pub fn bin_dir(&self) -> (r: String)
        ensures
            r@ == joined(self.kit_dir@, "bin"@),
    {
        join(self.kit_dir.as_str(), "bin")
    }

    /// Where the symlink for `name` goes: `<kit dir>/bin/<name>`.
    pub fn symlink_path(&self, name: &str) -> (r: String)
        ensures
            r@ == joined(joined(self.kit_dir@, "bin"@), name@),
    {
        let b = self.bin_dir();
        join(b.as_str(), name)
    }

    /// The kit directory as written in the rc block: with a non-empty home directory, each
    /// occurrence of it replaced by `$HOME`; with an empty one, the kit directory itself.
    pub fn kit_dir_display(&self, home: &str) -> (r: String)
        ensures
            r@ == displayed_dir(self.kit_dir@, home@),
    {
        let k = chars_of(self.kit_dir.as_str());
        let h = chars_of(home);
        if h.len() == 0 {
            return string_of(k.as_slice());
        }
        let d = chars_of("$HOME");
        let out = replace_all_exec(k.as_slice(), h.as_slice(), d.as_slice());
        string_of(out.as_slice())
    }

    /// The rc file text after injecting the block, for the given home directory (an empty
    /// one standing for none).
    pub fn injected_rc_with_home(&self, existing: &str, home: &str) -> (r: String)
        ensures
            r@ == rc_injected(existing@, injection_text(displayed_dir(self.kit_dir@, home@))),
    {
        let display = self.kit_dir_display(home);
        let block = injection_block(display.as_str());
        rc_with_injection(existing, block.as_str())
    }

    /// The rc file text after injecting the block, for the home directory that the
    /// environment reports: with one, the kit directory is written with `$HOME` in place of
    /// it; with none, the kit directory is written as it is.
    pub fn injected_rc(&self, existing: &str) -> (r: String)
        ensures
            (exists|home: Seq<char>|
                home.len() > 0 && r@ == rc_injected(
                    existing@,
                    injection_text(replace_all(self.kit_dir@, home, "$HOME"@)),
                )) || r@ == rc_injected(existing@, injection_text(self.kit_dir@)),
            exists|home: Option<Seq<char>>|
                system::home_dir_gave(home) && r@ == rc_injected(
                    existing@,
                    injection_text(displayed_dir(self.kit_dir@, home_text(home))),
                ),
    {
        let got = system::home_dir();
        let r = match &got {
            Some(h) => self.injected_rc_with_home(existing, h.as_str()),
            None => {
                proof {
                    reveal_strlit("");
                }
                self.injected_rc_with_home(existing, "")
            },
        };
        proof {
            let hv = opt_view(got);
            assert(system::home_dir_gave(hv));
            if got is Some && got->0@.len() > 0 {
                assert(r@ == rc_injected(
                    existing@,
                    injection_text(replace_all(self.kit_dir@, got->0@, "$HOME"@)),
                ));
            }
        }
        r
    }

    /// The shell for a configuration and a home directory: its kit directory is the parent
    /// of the configured `bin_dir` (`<home>/.kit` where that path has none), and its rc
    /// file the configured `shell_rc`, each with a leading `~` read as the home directory.
    pub fn from_config_in(config: &Config, home: &Option<String>) -> (r: Shell)
        ensures
            r.kit_dir@ == kit_dir_for(config.config.bin_dir@, opt_view(*home)),
            r.shell_rc@ == expand_home(config.config.shell_rc@, opt_view(*home)),
    {
        let bin = expand_home_exec(config.config.bin_dir.as_str(), home);
        let kit_dir = match system::parent(bin.as_str()) {
            Some(d) => d,
            None => {
                let base = match home {
                    Some(h) => h.clone(),
                    None => String::new(),
                };
                proof {
                    reveal_strlit(".kit");
                }
                assert(".kit"@ =~= seq!['.', 'k', 'i', 't']);
                join(base.as_str(), ".kit")
            },
        };
        let shell_rc = expand_home_exec(config.config.shell_rc.as_str(), home);
        Shell::new(kit_dir, shell_rc)
    }

    /// The shell for a configuration (see `from_config_in`), for the home directory that
    /// the environment reports.
    pub fn from_config(config: &Config) -> (r: Shell)
        ensures
            exists|home: Option<Seq<char>>|
                system::home_dir_gave(home) && r.kit_dir@ == kit_dir_for(
                    config.config.bin_dir@,
                    home,
                ) && r.shell_rc@ == expand_home(config.config.shell_rc@, home),
    {
        let home = system::home_dir();
        proof {
            assert(system::home_dir_gave(opt_view(home)));
        }
        Self::from_config_in(config, &home)
    }
}

} // verus!
