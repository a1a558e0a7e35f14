//! Character-sequence utilities shared by the classifier and the emitter:
//! whitespace tokenisation, substring search, and suffix extraction.

use vstd::prelude::*;
use vstd::string::StrSliceExecFns;

verus! {

/// A whitespace character, as far as the dependency-identifier grammar is
/// concerned: the ASCII spacing characters.
pub open spec fn is_ws(c: char) -> bool {
    c == ' ' || c == '\t' || c == '\n' || c == '\r' || c == '\u{b}' || c == '\u{c}'
}

/// Executable mirror of `is_ws`.
pub fn is_ws_char(c: char) -> (r: bool)
    ensures
        r == is_ws(c),
{
    c == ' ' || c == '\t' || c == '\n' || c == '\r' || c == '\u{b}' || c == '\u{c}'
}

/// Length of the maximal non-whitespace prefix of `s`.
pub open spec fn token_len(s: Seq<char>) -> int
    decreases s.len(),
{
    if s.len() == 0 || is_ws(s[0]) {
        0
    } else {
        1 + token_len(s.drop_first())
    }
}

pub proof fn lemma_token_len_bound(s: Seq<char>)
    ensures
        0 <= token_len(s) <= s.len(),
    decreases s.len(),
{
    if s.len() != 0 && !is_ws(s[0]) {
        lemma_token_len_bound(s.drop_first());
    }
}

/// If the first `m` characters of `s` are non-whitespace and the character at
/// `m` (if any) is whitespace, then the maximal token has length exactly `m`.
pub proof fn lemma_token_len_eq(s: Seq<char>, m: int)
    requires
        0 <= m <= s.len(),
        forall|k: int| 0 <= k < m ==> !is_ws(s[k]),
        m == s.len() || is_ws(s[m]),
    ensures
        token_len(s) == m,
    decreases m,
{
    if m > 0 {
        lemma_token_len_eq(s.drop_first(), m - 1);
    }
}

/// The whitespace-separated tokens of `s`, in order, with no empty tokens:
/// the model of `str::split_whitespace`.
pub open spec fn split_ws(s: Seq<char>) -> Seq<Seq<char>>
    decreases s.len(),
    via split_ws_decreases
{
    if s.len() == 0 {
        Seq::empty()
    } else if is_ws(s[0]) {
        split_ws(s.drop_first())
    } else {
        seq![s.take(token_len(s))] + split_ws(s.skip(token_len(s)))
    }
}

#[via_fn]
proof fn split_ws_decreases(s: Seq<char>) {
    if s.len() != 0 && !is_ws(s[0]) {
        lemma_token_len_bound(s);
        lemma_token_len_bound(s.drop_first());
    }
}

/// Splits `s` into its whitespace-separated tokens.
pub fn split_ws_str(s: &str) -> (r: Vec<String>)
    ensures
        r.deep_view() == split_ws(s@),
{
    let n = s.unicode_len();
    let mut r: Vec<String> = Vec::new();
    let mut i: usize = 0;
    proof {
        assert(r.deep_view() =~= Seq::<Seq<char>>::empty());
        assert(s@.skip(0) =~= s@);
        assert(Seq::<Seq<char>>::empty() + split_ws(s@) =~= split_ws(s@));
    }
    while i < n
        invariant
            n == s@.len(),
            i <= n,
            r.deep_view() + split_ws(s@.skip(i as int)) == split_ws(s@),
        decreases n - i,
    {
        let c = s.get_char(i);
        if is_ws_char(c) {
            proof {
                assert(s@.skip(i as int).drop_first() =~= s@.skip(i + 1));
            }
            i = i + 1;
        } else {
            let mut j: usize = i + 1;
            while j < n && !is_ws_char(s.get_char(j))
                invariant
                    n == s@.len(),
                    i < j <= n,
                    forall|k: int| i <= k < j ==> !is_ws(s@[k]),
                decreases n - j,
            {
                j = j + 1;
            }
            let tok = String::from_str(s.substring_char(i, j));
            proof {
                let t = s@.skip(i as int);
                assert(forall|k: int| 0 <= k < j - i ==> !is_ws(t[k]));
                lemma_token_len_eq(t, j - i);
                assert(t.take(j - i) =~= s@.subrange(i as int, j as int));
                assert(t.skip(j - i) =~= s@.skip(j as int));
                let old_dv = r.deep_view();
                assert((old_dv + seq![tok@]) + split_ws(s@.skip(j as int)) =~= old_dv + (
                seq![tok@] + split_ws(s@.skip(j as int))));
            }
            let ghost old_r = r;
            r.push(tok);
            proof {
                assert(r.deep_view() =~= old_r.deep_view() + seq![tok@]);
            }
            i = j;
        }
    }
    proof {
        assert(s@.skip(n as int) =~= Seq::<char>::empty());
        assert(r.deep_view() =~= r.deep_view() + split_ws(s@.skip(n as int)));
    }
    r
}

/// `s` holds no whitespace character.
pub open spec fn ws_free(s: Seq<char>) -> bool
    decreases s.len(),
{
    s.len() == 0 || (!is_ws(s[0]) && ws_free(s.drop_first()))
}

pub proof fn lemma_ws_free_indices(s: Seq<char>)
    requires
        ws_free(s),
    ensures
        forall|k: int| 0 <= k < s.len() ==> !is_ws(s[k]),
    decreases s.len(),
{
    if s.len() > 0 {
        lemma_ws_free_indices(s.drop_first());
        assert forall|k: int| 0 <= k < s.len() implies !is_ws(s[k]) by {
            if k > 0 {
                assert(s[k] == s.drop_first()[k - 1]);
            }
        }
    }
}

/// One step towards `ws_free` of a whole sequence: a suffix stays
/// whitespace-free when one more non-whitespace character is put in front.
pub proof fn lemma_ws_free_cons(s: Seq<char>, k: int)
    requires
        0 <= k < s.len(),
        !is_ws(s[k]),
        ws_free(s.skip(k + 1)),
    ensures
        ws_free(s.skip(k)),
{
    assert(s.skip(k)[0] == s[k]);
    assert(s.skip(k).drop_first() =~= s.skip(k + 1));
}

/// A leading token runs to the first whitespace: splitting text that opens
/// with a whitespace-free token yields that token and then what the rest
/// yields.
pub proof fn lemma_split_ws_leading_token(t: Seq<char>, rest: Seq<char>)
    requires
        t.len() > 0,
        forall|k: int| 0 <= k < t.len() ==> !is_ws(t[k]),
        rest.len() == 0 || is_ws(rest[0]),
    ensures
        split_ws(t + rest) == seq![t] + split_ws(rest),
{
    let s = t + rest;
    assert(forall|k: int| 0 <= k < t.len() ==> s[k] == t[k]);
    if rest.len() > 0 {
        assert(s[t.len() as int] == rest[0]);
    }
    lemma_token_len_eq(s, t.len() as int);
    assert(!is_ws(s[0]));
    assert(s.take(t.len() as int) =~= t);
    assert(s.skip(t.len() as int) =~= rest);
}

/// Leading whitespace separates nothing: it is skipped.
pub proof fn lemma_split_ws_leading_ws(s: Seq<char>)
    requires
        s.len() > 0,
        is_ws(s[0]),
    ensures
        split_ws(s) == split_ws(s.drop_first()),
{
}

/// `sep` occurs in `s` at position `i`.
pub open spec fn match_at(s: Seq<char>, sep: Seq<char>, i: int) -> bool {
    0 <= i && i + sep.len() <= s.len() && s.subrange(i, i + sep.len()) == sep
}

/// Position of the first occurrence of `sep` in `s`, if any:
/// the model of `str::find` on a substring pattern.
pub open spec fn find_sub(s: Seq<char>, sep: Seq<char>) -> Option<int>
    decreases s.len(),
{
    if s.len() == 0 || s.len() < sep.len() {
        None
    } else if s.take(sep.len() as int) == sep {
        Some(0)
    } else {
        match find_sub(s.drop_first(), sep) {
            None => None,
            Some(j) => Some(j + 1),
        }
    }
}

/// `find_sub` returns the least position at which `sep` occurs, or `None`
/// when it occurs nowhere.
pub proof fn lemma_find_sub(s: Seq<char>, sep: Seq<char>)
    requires
        sep.len() >= 1,
    ensures
        match find_sub(s, sep) {
            Some(i) => match_at(s, sep, i) && (forall|j: int| 0 <= j < i ==> !match_at(s, sep, j)),
            None => forall|j: int| !match_at(s, sep, j),
        },
    decreases s.len(),
{
    if s.len() == 0 || s.len() < sep.len() {
    } else if s.take(sep.len() as int) == sep {
        assert(s.subrange(0, sep.len() as int) =~= s.take(sep.len() as int));
        assert(match_at(s, sep, 0));
    } else {
        lemma_find_sub(s.drop_first(), sep);
        assert(s.subrange(0, sep.len() as int) =~= s.take(sep.len() as int));
        assert(!match_at(s, sep, 0));
        match find_sub(s.drop_first(), sep) {
            None => {
                assert forall|j: int| !match_at(s, sep, j) by {
                    if j >= 1 && match_at(s, sep, j) {
                        assert(s.drop_first().subrange(j - 1, j - 1 + sep.len()) =~= s.subrange(
                            j,
                            j + sep.len(),
                        ));
                        assert(match_at(s.drop_first(), sep, j - 1));
                    }
                }
            },
            Some(i0) => {
                assert(match_at(s.drop_first(), sep, i0));
                assert(s.drop_first().subrange(i0, i0 + sep.len()) =~= s.subrange(
                    i0 + 1,
                    i0 + 1 + sep.len(),
                ));
                assert(match_at(s, sep, i0 + 1));
                assert forall|j: int| 0 <= j < i0 + 1 implies !match_at(s, sep, j) by {
                    if j >= 1 && match_at(s, sep, j) {
                        assert(s.drop_first().subrange(j - 1, j - 1 + sep.len()) =~= s.subrange(
                            j,
                            j + sep.len(),
                        ));
                        assert(match_at(s.drop_first(), sep, j - 1));
                    }
                }
            },
        }
    }
}

/// Whether `sep` occurs at position `i` of `s`, by direct comparison.
fn match_at_str(s: &str, sep: &str, i: usize) -> (r: bool)
    requires
        i + sep@.len() <= s@.len(),
        s@.len() <= usize::MAX,
    ensures
        r == match_at(s@, sep@, i as int),
{
    let m = sep.unicode_len();
    let mut k: usize = 0;
    while k < m
        invariant
            m == sep@.len(),
            i + m <= s@.len(),
            s@.len() <= usize::MAX,
            k <= m,
            forall|t: int| 0 <= t < k ==> s@[i + t] == sep@[t],
        decreases m - k,
    {
        if s.get_char(i + k) != sep.get_char(k) {
            proof {
                assert(s@.subrange(i as int, i + m)[k as int] == s@[i + k]);
            }
            return false;
        }
        k = k + 1;
    }
    proof {
        assert(s@.subrange(i as int, i + m) =~= sep@);
    }
    true
}

/// Position of the first occurrence of `sep` in `s`, if any.
pub fn find_sub_str(s: &str, sep: &str) -> (r: Option<usize>)
    requires
        sep@.len() >= 1,
    ensures
        match r {
            Some(i) => find_sub(s@, sep@) == Some(i as int),
            None => find_sub(s@, sep@) is None,
        },
{
    proof {
        lemma_find_sub(s@, sep@);
    }
    let n = s.unicode_len();
    let m = sep.unicode_len();
    if m > n {
        return None;
    }
    let mut i: usize = 0;
    while i <= n - m
        invariant
            n == s@.len(),
            m == sep@.len(),
            1 <= m <= n,
            i <= n - m + 1,
            forall|j: int| 0 <= j < i ==> !match_at(s@, sep@, j),
        decreases n - m + 1 - i,
    {
        if match_at_str(s, sep, i) {
            proof {
                lemma_find_sub(s@, sep@);
            }
            return Some(i);
        }
        i = i + 1;
    }
    None
}

/// The text of `s` before the first occurrence of `sep`, or all of `s` when
/// `sep` occurs nowhere: the first element of a `split` on `sep`.
pub open spec fn before_sub(s: Seq<char>, sep: Seq<char>) -> Seq<char> {
    match find_sub(s, sep) {
        None => s,
        Some(i) => s.take(i),
    }
}

/// The text of `s` between the first and second occurrences of `sep`, up to
/// the end when there is no second occurrence, and empty when there is no
/// first one: the second element of a `split` on `sep`.
pub open spec fn between_sub(s: Seq<char>, sep: Seq<char>) -> Seq<char> {
    match find_sub(s, sep) {
        None => Seq::empty(),
        Some(i) => before_sub(s.skip(i + sep.len()), sep),
    }
}

/// The text of `s` before the first occurrence of `sep`.
pub fn before_sub_str(s: &str, sep: &str) -> (r: String)
    requires
        sep@.len() >= 1,
    ensures
        r@ == before_sub(s@, sep@),
{
    proof {
        lemma_find_sub(s@, sep@);
    }
    match find_sub_str(s, sep) {
        None => String::from_str(s),
        Some(i) => String::from_str(s.substring_char(0, i)),
    }
}

/// The text of `s` between the first and second occurrences of `sep`.
pub fn between_sub_str(s: &str, sep: &str) -> (r: String)
    requires
        sep@.len() >= 1,
    ensures
        r@ == between_sub(s@, sep@),
{
    proof {
        lemma_find_sub(s@, sep@);
    }
    let n = s.unicode_len();
    let m = sep.unicode_len();
    match find_sub_str(s, sep) {
        None => String::new(),
        Some(i) => {
            let rest = s.substring_char(i + m, n);
            before_sub_str(rest, sep)
        },
    }
}

/// Position of the first occurrence of `d1` or `d2` in `s`, if any.
pub open spec fn find_char2(s: Seq<char>, d1: char, d2: char) -> Option<int>
    decreases s.len(),
{
    if s.len() == 0 {
        None
    } else if s[0] == d1 || s[0] == d2 {
        Some(0)
    } else {
        match find_char2(s.drop_first(), d1, d2) {
            None => None,
            Some(j) => Some(j + 1),
        }
    }
}

/// `find_char2` returns the least position holding `d1` or `d2`, or `None`
/// when neither occurs.
pub proof fn lemma_find_char2(s: Seq<char>, d1: char, d2: char)
    ensures
        match find_char2(s, d1, d2) {
            Some(i) => 0 <= i < s.len() && (s[i] == d1 || s[i] == d2) && (forall|k: int|
                0 <= k < i ==> s[k] != d1 && s[k] != d2),
            None => forall|k: int| 0 <= k < s.len() ==> s[k] != d1 && s[k] != d2,
        },
    decreases s.len(),
{
    if s.len() != 0 && s[0] != d1 && s[0] != d2 {
        lemma_find_char2(s.drop_first(), d1, d2);
        match find_char2(s, d1, d2) {
            Some(i) => {
                assert forall|k: int| 0 <= k < i implies s[k] != d1 && s[k] != d2 by {
                    if k > 0 {
                        assert(s[k] == s.drop_first()[k - 1]);
                    }
                }
            },
            None => {
                assert forall|k: int| 0 <= k < s.len() implies s[k] != d1 && s[k] != d2 by {
                    if k > 0 {
                        assert(s[k] == s.drop_first()[k - 1]);
                    }
                }
            },
        }
    }
}

/// Position of the first occurrence of `d1` or `d2` in `s`, if any.
pub fn find_char2_str(s: &str, d1: char, d2: char) -> (r: Option<usize>)
    ensures
        match r {
            Some(i) => find_char2(s@, d1, d2) == Some(i as int),
            None => find_char2(s@, d1, d2) is None,
        },
{
    proof {
        lemma_find_char2(s@, d1, d2);
    }
    let n = s.unicode_len();
    let mut i: usize = 0;
    while i < n
        invariant
            n == s@.len(),
            i <= n,
            forall|k: int| 0 <= k < i ==> s@[k] != d1 && s@[k] != d2,
        decreases n - i,
    {
        let c = s.get_char(i);
        if c == d1 || c == d2 {
            proof {
                lemma_find_char2(s@, d1, d2);
            }
            return Some(i);
        }
        i = i + 1;
    }
    None
}

/// `s` with every occurrence of `d` removed: the model of replacing `d`
/// with the empty string.
pub open spec fn remove_char(s: Seq<char>, d: char) -> Seq<char>
    decreases s.len(),
{
    if s.len() == 0 {
        s
    } else if s[0] == d {
        remove_char(s.drop_first(), d)
    } else {
        seq![s[0]] + remove_char(s.drop_first(), d)
    }
}

/// Removes every occurrence of `d` from `s`.
pub fn remove_char_str(s: &str, d: char) -> (r: String)
    ensures
        r@ == remove_char(s@, d),
{
    let n = s.unicode_len();
    let mut out = String::new();
    let mut i: usize = 0;
    proof {
        assert(s@.skip(0) =~= s@);
        assert(out@ + remove_char(s@, d) =~= remove_char(s@, d));
    }
    while i < n
        invariant
            n == s@.len(),
            i <= n,
            out@ + remove_char(s@.skip(i as int), d) == remove_char(s@, d),
        decreases n - i,
    {
        let c = s.get_char(i);
        proof {
            assert(s@.skip(i as int).drop_first() =~= s@.skip(i + 1));
        }
        if c != d {
            let piece = s.substring_char(i, i + 1);
            proof {
                assert(piece@ =~= seq![s@[i as int]]);
                assert(out@ + (piece@ + remove_char(s@.skip(i + 1), d)) =~= (out@ + piece@)
                    + remove_char(s@.skip(i + 1), d));
            }
            out.append(piece);
        }
        i = i + 1;
    }
    proof {
        assert(s@.skip(n as int) =~= Seq::<char>::empty());
    }
    out
}

/// The text of `s` after the last occurrence of `d`, or all of `s` when `d`
/// occurs nowhere: the last element of a `split` on `d`.
pub open spec fn after_last(s: Seq<char>, d: char) -> Seq<char>
    decreases s.len(),
{
    if s.len() == 0 {
        s
    } else if s.last() == d {
        Seq::empty()
    } else {
        after_last(s.drop_last(), d).push(s.last())
    }
}

proof fn lemma_after_last_at(s: Seq<char>, d: char, j: int)
    requires
        0 <= j <= s.len(),
        forall|k: int| j <= k < s.len() ==> s[k] != d,
        j == 0 || s[j - 1] == d,
    ensures
        after_last(s, d) == s.skip(j),
    decreases s.len(),
{
    if s.len() == 0 {
        assert(s.skip(0) =~= s);
    } else if s.last() == d {
        assert(j == s.len());
        assert(s.skip(j) =~= Seq::<char>::empty());
    } else {
        assert(j < s.len());
        lemma_after_last_at(s.drop_last(), d, j);
        assert(s.drop_last().skip(j).push(s.last()) =~= s.skip(j));
    }
}

/// The text of `s` after the last occurrence of `d`.
pub fn after_last_str(s: &str, d: char) -> (r: String)
    ensures
        r@ == after_last(s@, d),
{
    let n = s.unicode_len();
    let mut j: usize = n;
    while j > 0 && s.get_char(j - 1) != d
        invariant
            n == s@.len(),
            j <= n,
            forall|k: int| j <= k < n ==> s@[k] != d,
        decreases j,
    {
        j = j - 1;
    }
    let out = String::from_str(s.substring_char(j, n));
    proof {
        lemma_after_last_at(s@, d, j as int);
        assert(out@ =~= s@.skip(j as int));
    }
    out
}

} // verus!
