//! Substring search, trimming, line splitting, and substring removal over
//! character sequences, each with a specification-level definition and a
//! verified executable counterpart.

use vstd::prelude::*;

verus! {

// --- Substring search ---

/// `pat` occurs in `s` starting at index `i`.
pub open spec fn is_match_at(s: Seq<char>, pat: Seq<char>, i: int) -> bool {
    &&& 0 <= i
    &&& i + pat.len() <= s.len()
    &&& s.subrange(i, i + pat.len()) == pat
}

/// The first index `>= i` at which `pat` occurs in `s`, if any.
pub open spec fn find_from(s: Seq<char>, pat: Seq<char>, i: int) -> Option<int>
    decreases s.len() - i,
{
    if pat.len() == 0 {
        if 0 <= i <= s.len() {
            Some(i)
        } else {
            None
        }
    } else if i < 0 || i + pat.len() > s.len() {
        None
    } else if is_match_at(s, pat, i) {
        Some(i)
    } else {
        find_from(s, pat, i + 1)
    }
}

/// The index of the first occurrence of `pat` in `s`, if any.
pub open spec fn find_first(s: Seq<char>, pat: Seq<char>) -> Option<int> {
    find_from(s, pat, 0)
}

/// The last index `<= i` at which `pat` occurs in `s`, if any.
pub open spec fn rfind_from(s: Seq<char>, pat: Seq<char>, i: int) -> Option<int>
    decreases i + 1,
{
    if i < 0 {
        None
    } else if is_match_at(s, pat, i) {
        Some(i)
    } else {
        rfind_from(s, pat, i - 1)
    }
}

/// The index of the last occurrence of `pat` in `s`, if any.
pub open spec fn find_last(s: Seq<char>, pat: Seq<char>) -> Option<int> {
    rfind_from(s, pat, s.len() - pat.len())
}

/// `pat` occurs somewhere in `s`.
pub open spec fn contains_sub(s: Seq<char>, pat: Seq<char>) -> bool {
    find_first(s, pat) is Some
}

/// What `find_from` returns: the first match position at or after `i`.
pub proof fn lemma_find_from(s: Seq<char>, pat: Seq<char>, i: int)
    requires
        0 <= i <= s.len(),
        pat.len() > 0,
    ensures
        match find_from(s, pat, i) {
            Some(j) => i <= j && is_match_at(s, pat, j) && forall|k: int|
                i <= k < j ==> !is_match_at(s, pat, k),
            None => forall|k: int| i <= k ==> !is_match_at(s, pat, k),
        },
    decreases s.len() - i,
{
    if i + pat.len() > s.len() {
    } else if is_match_at(s, pat, i) {
    } else {
        lemma_find_from(s, pat, i + 1);
    }
}

/// What `rfind_from` returns: the last match position at or before `i`.
pub proof fn lemma_rfind_from(s: Seq<char>, pat: Seq<char>, i: int)
    ensures
        match rfind_from(s, pat, i) {
            Some(j) => j <= i && is_match_at(s, pat, j) && forall|k: int|
                j < k <= i ==> !is_match_at(s, pat, k),
            None => forall|k: int| k <= i ==> !is_match_at(s, pat, k),
        },
    decreases i + 1,
{
    if i < 0 {
    } else if is_match_at(s, pat, i) {
    } else {
        lemma_rfind_from(s, pat, i - 1);
    }
}

/// `pat` occurs at `i` in `s` exactly when it occurs at `i - d` in `s`
/// shortened by its first `d` characters.
pub proof fn lemma_match_shift(s: Seq<char>, pat: Seq<char>, d: int, i: int)
    requires
        0 <= d <= s.len(),
    ensures
        is_match_at(s.subrange(d, s.len() as int), pat, i - d) == (i >= d && is_match_at(
            s,
            pat,
            i,
        )),
{
    let t = s.subrange(d, s.len() as int);
    if i >= d && is_match_at(s, pat, i) {
        assert(t.subrange(i - d, i - d + pat.len()) =~= s.subrange(i, i + pat.len()));
    }
    if is_match_at(t, pat, i - d) {
        assert(s.subrange(i, i + pat.len()) =~= t.subrange(i - d, i - d + pat.len()));
    }
}

/// Checks whether `pat` occurs in `s` at index `i`.
pub fn is_match_at_exec(s: &Vec<char>, pat: &Vec<char>, i: usize) -> (r: bool)
    requires
        i + pat@.len() <= s@.len(),
    ensures
        r == is_match_at(s@, pat@, i as int),
{
    let n = s.len();
    let mut j: usize = 0;
    while j < pat.len()
        invariant
            n == s@.len(),
            i + pat@.len() <= s@.len(),
            j <= pat@.len(),
            forall|k: int| 0 <= k < j ==> s@[i + k] == pat@[k],
        decreases pat@.len() - j,
    {
        if s[i + j] != pat[j] {
            proof {
                assert(s@.subrange(i as int, i + pat@.len())[j as int] == s@[i + j]);
            }
            return false;
        }
        j = j + 1;
    }
    proof {
        assert(s@.subrange(i as int, i + pat@.len()) =~= pat@);
    }
    true
}

/// The index of the first occurrence of `pat` in `s` at or after `from`, if
/// any.
pub fn find_sub_from(s: &Vec<char>, pat: &Vec<char>, from: usize) -> (r: Option<usize>)
    requires
        pat@.len() > 0,
        from <= s@.len(),
    ensures
        match r {
            Some(j) => find_from(s@, pat@, from as int) == Some(j as int),
            None => find_from(s@, pat@, from as int) is None,
        },
{
    if pat.len() > s.len() - from {
        return None;
    }
    let mut i: usize = from;
    while i <= s.len() - pat.len()
        invariant
            pat@.len() > 0,
            pat@.len() <= s@.len(),
            from <= i <= s@.len(),
            find_from(s@, pat@, from as int) == find_from(s@, pat@, i as int),
        decreases s@.len() - i,
    {
        if is_match_at_exec(s, pat, i) {
            return Some(i);
        }
        i = i + 1;
    }
    None
}

/// The index of the first occurrence of `pat` in `s`, if any.
pub fn find_sub(s: &Vec<char>, pat: &Vec<char>) -> (r: Option<usize>)
    requires
        pat@.len() > 0,
    ensures
        match r {
            Some(j) => find_first(s@, pat@) == Some(j as int),
            None => find_first(s@, pat@) is None,
        },
{
    find_sub_from(s, pat, 0)
}

/// The index of the last occurrence of `pat` in `s`, if any.
pub fn rfind_sub(s: &Vec<char>, pat: &Vec<char>) -> (r: Option<usize>)
    requires
        pat@.len() > 0,
    ensures
        match r {
            Some(j) => find_last(s@, pat@) == Some(j as int),
            None => find_last(s@, pat@) is None,
        },
{
    if pat.len() > s.len() {
        proof {
            assert(s@.len() - pat@.len() < 0);
        }
        return None;
    }
    let mut i: usize = s.len() - pat.len() + 1;
    while i > 0
        invariant
            pat@.len() > 0,
            pat@.len() <= s@.len(),
            i <= s@.len() - pat@.len() + 1,
            find_last(s@, pat@) == rfind_from(s@, pat@, i - 1),
        decreases i,
    {
        i = i - 1;
        if is_match_at_exec(s, pat, i) {
            return Some(i);
        }
    }
    None
}

/// Whether `pat` occurs anywhere in `s`.
pub fn contains_sub_exec(s: &Vec<char>, pat: &Vec<char>) -> (r: bool)
    requires
        pat@.len() > 0,
    ensures
        r == contains_sub(s@, pat@),
{
    find_sub(s, pat).is_some()
}

/// Whether `s` begins with `pat`.
pub fn starts_with_exec(s: &Vec<char>, pat: &Vec<char>) -> (r: bool)
    ensures
        r == is_match_at(s@, pat@, 0),
{
    if pat.len() > s.len() {
        return false;
    }
    is_match_at_exec(s, pat, 0)
}

// --- Whitespace and trimming ---

/// The characters with Unicode property `White_Space`, as documented for
/// `char::is_whitespace`.
pub open spec fn is_ws(c: char) -> bool {
    let u = c as u32;
    ||| u == 9
    ||| u == 10
    ||| u == 11
    ||| u == 12
    ||| u == 13
    ||| u == 32
    ||| u == 0x85
    ||| u == 0xA0
    ||| u == 0x1680
    ||| (0x2000 <= u && u <= 0x200A)
    ||| u == 0x2028
    ||| u == 0x2029
    ||| u == 0x202F
    ||| u == 0x205F
    ||| u == 0x3000
}

/// Whether `c` has the Unicode `White_Space` property.
pub fn is_ws_exec(c: char) -> (r: bool)
    ensures
        r == is_ws(c),
{
    let u = c as u32;
    u == 9 || u == 10 || u == 11 || u == 12 || u == 13 || u == 32 || u == 0x85 || u == 0xA0 || u
        == 0x1680 || (0x2000 <= u && u <= 0x200A) || u == 0x2028 || u == 0x2029 || u == 0x202F || u
        == 0x205F || u == 0x3000
}

/// `s` with leading whitespace removed.
pub open spec fn trim_left(s: Seq<char>) -> Seq<char>
    decreases s.len(),
{
    if s.len() > 0 && is_ws(s[0]) {
        trim_left(s.subrange(1, s.len() as int))
    } else {
        s
    }
}

/// `s` with trailing whitespace removed.
pub open spec fn trim_right(s: Seq<char>) -> Seq<char>
    decreases s.len(),
{
    if s.len() > 0 && is_ws(s[s.len() - 1]) {
        trim_right(s.subrange(0, s.len() - 1))
    } else {
        s
    }
}

/// `s` with leading and trailing whitespace removed, as `str::trim` does.
pub open spec fn trim_of(s: Seq<char>) -> Seq<char> {
    trim_right(trim_left(s))
}

/// `trim_left` drops exactly the longest whitespace prefix.
pub proof fn lemma_trim_left_at(s: Seq<char>, a: int)
    requires
        0 <= a <= s.len(),
        forall|k: int| 0 <= k < a ==> is_ws(s[k]),
        a < s.len() ==> !is_ws(s[a]),
    ensures
        trim_left(s) == s.subrange(a, s.len() as int),
    decreases s.len(),
{
    if s.len() > 0 && is_ws(s[0]) {
        let t = s.subrange(1, s.len() as int);
        lemma_trim_left_at(t, a - 1);
        assert(t.subrange(a - 1, t.len() as int) =~= s.subrange(a, s.len() as int));
    } else {
        assert(s.subrange(a, s.len() as int) =~= s);
    }
}

/// `trim_right` drops exactly the longest whitespace suffix.
pub proof fn lemma_trim_right_at(s: Seq<char>, b: int)
    requires
        0 <= b <= s.len(),
        forall|k: int| b <= k < s.len() ==> is_ws(s[k]),
        b > 0 ==> !is_ws(s[b - 1]),
    ensures
        trim_right(s) == s.subrange(0, b),
    decreases s.len(),
{
    if s.len() > 0 && is_ws(s[s.len() - 1]) {
        let t = s.subrange(0, s.len() - 1);
        lemma_trim_right_at(t, b);
        assert(t.subrange(0, b) =~= s.subrange(0, b));
    } else {
        assert(s.subrange(0, s.len() as int) =~= s);
    }
}

/// Trimming yields a contiguous piece of `s`: there are bounds `a <= b` with
/// only whitespace outside them such that the trimmed string is `s[a..b]`.
pub proof fn lemma_trim_of_bounds(s: Seq<char>) -> (r: (int, int))
    ensures
        0 <= r.0 <= r.1 <= s.len(),
        trim_of(s) == s.subrange(r.0, r.1),
        trim_of(s).len() > 0 ==> !is_ws(trim_of(s)[0]) && !is_ws(trim_of(s)[trim_of(s).len() - 1]),
{
    let a = first_non_ws(s);
    lemma_first_non_ws(s);
    lemma_trim_left_at(s, a);
    let t = s.subrange(a, s.len() as int);
    let b = last_non_ws(t);
    lemma_last_non_ws(t);
    lemma_trim_right_at(t, b);
    assert(t.subrange(0, b) =~= s.subrange(a, a + b));
    if trim_of(s).len() > 0 {
        assert(trim_of(s)[0] == s[a] && !is_ws(t[0]));
        assert(trim_of(s)[trim_of(s).len() - 1] == t[b - 1]);
    }
    (a, a + b)
}

/// The index of the first non-whitespace character of `s`, or its length.
pub open spec fn first_non_ws(s: Seq<char>) -> int
    decreases s.len(),
{
    if s.len() == 0 {
        0
    } else if !is_ws(s[0]) {
        0
    } else {
        1 + first_non_ws(s.subrange(1, s.len() as int))
    }
}

/// One past the index of the last non-whitespace character of `s`, or zero.
pub open spec fn last_non_ws(s: Seq<char>) -> int
    decreases s.len(),
{
    if s.len() == 0 {
        0
    } else if !is_ws(s[s.len() - 1]) {
        s.len() as int
    } else {
        last_non_ws(s.subrange(0, s.len() - 1))
    }
}

/// `first_non_ws` marks the end of the longest whitespace prefix.
pub proof fn lemma_first_non_ws(s: Seq<char>)
    ensures
        0 <= first_non_ws(s) <= s.len(),
        forall|k: int| 0 <= k < first_non_ws(s) ==> is_ws(s[k]),
        first_non_ws(s) < s.len() ==> !is_ws(s[first_non_ws(s)]),
    decreases s.len(),
{
    if s.len() > 0 && is_ws(s[0]) {
        let t = s.subrange(1, s.len() as int);
        lemma_first_non_ws(t);
        assert forall|k: int| 0 <= k < first_non_ws(s) implies is_ws(s[k]) by {
            if k >= 1 {
                assert(is_ws(t[k - 1]));
            }
        }
        if first_non_ws(s) < s.len() {
            assert(s[first_non_ws(s)] == t[first_non_ws(t)]);
        }
    }
}

/// `last_non_ws` marks the start of the longest whitespace suffix.
pub proof fn lemma_last_non_ws(s: Seq<char>)
    ensures
        0 <= last_non_ws(s) <= s.len(),
        forall|k: int| last_non_ws(s) <= k < s.len() ==> is_ws(s[k]),
        last_non_ws(s) > 0 ==> !is_ws(s[last_non_ws(s) - 1]),
    decreases s.len(),
{
    if s.len() > 0 && is_ws(s[s.len() - 1]) {
        let t = s.subrange(0, s.len() - 1);
        lemma_last_non_ws(t);
        assert forall|k: int| last_non_ws(s) <= k < s.len() implies is_ws(s[k]) by {
            if k < s.len() - 1 {
                assert(is_ws(t[k]));
            }
        }
        if last_non_ws(s) > 0 {
            assert(s[last_non_ws(s) - 1] == t[last_non_ws(t) - 1]);
        }
    }
}

/// Trimming a trimmed string changes nothing.
pub proof fn lemma_trim_idempotent(s: Seq<char>)
    ensures
        trim_of(trim_of(s)) == trim_of(s),
{
    let t = trim_of(s);
    let _b = lemma_trim_of_bounds(s);
    if t.len() == 0 {
        assert(trim_left(t) == t);
        assert(trim_right(t) == t);
    } else {
        assert(trim_left(t) == t);
        assert(trim_right(t) == t);
    }
}

/// `s` with leading and trailing whitespace removed.
pub fn trim_vec(v: &Vec<char>) -> (r: Vec<char>)
    ensures
        r@ == trim_of(v@),
{
    let n = v.len();
    let mut a: usize = 0;
    while a < n && is_ws_exec(v[a])
        invariant
            n == v@.len(),
            a <= n,
            forall|k: int| 0 <= k < a ==> is_ws(v@[k]),
        decreases n - a,
    {
        a = a + 1;
    }
    proof {
        lemma_trim_left_at(v@, a as int);
    }
    let mut b: usize = n;
    while b > a && is_ws_exec(v[b - 1])
        invariant
            n == v@.len(),
            a <= b <= n,
            forall|k: int| b <= k < n ==> is_ws(v@[k]),
        decreases b,
    {
        b = b - 1;
    }
    proof {
        let t = v@.subrange(a as int, n as int);
        assert(forall|k: int|
            b - a <= k < t.len() ==> t[k] == v@[k + a] && is_ws(#[trigger] t[k]));
        lemma_trim_right_at(t, b - a);
        assert(t.subrange(0, b - a) =~= v@.subrange(a as int, b as int));
    }
    crate::chars::subvec(v, a, b)
}

// --- Line splitting ---

/// The index of the first newline in `s`, or its length if there is none.
pub open spec fn first_nl(s: Seq<char>) -> int
    decreases s.len(),
{
    if s.len() == 0 {
        0
    } else if s[0] == '\n' {
        0
    } else {
        1 + first_nl(s.subrange(1, s.len() as int))
    }
}

/// A line with a trailing carriage return removed, as `str::lines` does for
/// lines that ended in `\r\n`.
pub open spec fn strip_cr(l: Seq<char>) -> Seq<char> {
    if l.len() > 0 && l[l.len() - 1] == '\r' {
        l.subrange(0, l.len() - 1)
    } else {
        l
    }
}

/// The lines of `s`, as `str::lines` yields them: split at `\n`, a carriage
/// return directly before the split removed, and no final empty line.
pub open spec fn lines_of(s: Seq<char>) -> Seq<Seq<char>>
    decreases s.len(),
{
    if s.len() == 0 {
        Seq::empty()
    } else {
        let k = first_nl(s);
        if 0 <= k < s.len() {
            seq![strip_cr(s.subrange(0, k))] + lines_of(s.subrange(k + 1, s.len() as int))
        } else {
            seq![s]
        }
    }
}

/// `first_nl(s) == k` for any `k` that points at the first newline.
pub proof fn lemma_first_nl_at(s: Seq<char>, k: int)
    requires
        0 <= k <= s.len(),
        forall|j: int| 0 <= j < k ==> s[j] != '\n',
        k < s.len() ==> s[k] == '\n',
    ensures
        first_nl(s) == k,
    decreases s.len(),
{
    if s.len() > 0 && s[0] != '\n' {
        lemma_first_nl_at(s.subrange(1, s.len() as int), k - 1);
    }
}

/// The lines of `v`, as `str::lines` yields them.
pub fn split_lines(v: &Vec<char>) -> (r: Vec<Vec<char>>)
    ensures
        r@.len() == lines_of(v@).len(),
        forall|i: int| 0 <= i < r@.len() ==> r@[i]@ == lines_of(v@)[i],
{
    let n = v.len();
    let mut r: Vec<Vec<char>> = Vec::new();
    let mut pos: usize = 0;
    let mut i: usize = 0;
    proof {
        assert(v@.subrange(0, n as int) =~= v@);
    }
    while i < n
        invariant
            n == v@.len(),
            pos <= i <= n,
            forall|k: int| pos <= k < i ==> v@[k] != '\n',
            lines_of(v@) =~= Seq::new(r@.len(), |j: int| r@[j]@) + lines_of(
                v@.subrange(pos as int, n as int),
            ),
        decreases n - i,
    {
        if v[i] == '\n' {
            let line = if i > pos && v[i - 1] == '\r' {
                crate::chars::subvec(v, pos, i - 1)
            } else {
                crate::chars::subvec(v, pos, i)
            };
            proof {
                let rest = v@.subrange(pos as int, n as int);
                assert(forall|j: int|
                    0 <= j < i - pos ==> rest[j] == v@[j + pos] && #[trigger] rest[j] != '\n');
                lemma_first_nl_at(rest, i - pos);
                assert(rest.subrange(0, i - pos) =~= v@.subrange(pos as int, i as int));
                if i > pos && v@[i - 1] == '\r' {
                    assert(strip_cr(rest.subrange(0, i - pos)) =~= v@.subrange(
                        pos as int,
                        i - 1,
                    ));
                }
                assert(rest.subrange(i - pos + 1, rest.len() as int) =~= v@.subrange(
                    i + 1,
                    n as int,
                ));
                assert(strip_cr(rest.subrange(0, i - pos)) == line@);
            }
            r.push(line);
            proof {
                assert(lines_of(v@) =~= Seq::new(r@.len(), |j: int| r@[j]@) + lines_of(
                    v@.subrange(i + 1, n as int),
                ));
            }
            pos = i + 1;
        }
        i = i + 1;
    }
    proof {
        let rest = v@.subrange(pos as int, n as int);
        if pos < n {
            assert(forall|j: int|
                0 <= j < rest.len() ==> rest[j] == v@[j + pos] && #[trigger] rest[j] != '\n');
            lemma_first_nl_at(rest, rest.len() as int);
        }
    }
    if pos < n {
        let line = crate::chars::subvec(v, pos, n);
        r.push(line);
        proof {
            assert(lines_of(v@) =~= Seq::new(r@.len(), |j: int| r@[j]@));
        }
    } else {
        proof {
            assert(lines_of(v@) =~= Seq::new(r@.len(), |j: int| r@[j]@));
        }
    }
    r
}

// --- Removal of every occurrence of a pattern ---

/// `s` with every occurrence of `pat` removed, scanning left to right over
/// non-overlapping occurrences, as `str::replace(pat, "")` does.
pub open spec fn remove_all(s: Seq<char>, pat: Seq<char>) -> Seq<char>
    decreases s.len(),
{
    if pat.len() == 0 || s.len() == 0 {
        s
    } else if is_match_at(s, pat, 0) {
        remove_all(s.subrange(pat.len() as int, s.len() as int), pat)
    } else {
        seq![s[0]] + remove_all(s.subrange(1, s.len() as int), pat)
    }
}

/// `s` with every occurrence of `pat` removed.
pub fn remove_all_exec(s: &Vec<char>, pat: &Vec<char>) -> (r: Vec<char>)
    requires
        pat@.len() > 0,
    ensures
        r@ == remove_all(s@, pat@),
{
    let n = s.len();
    let mut r: Vec<char> = Vec::new();
    let mut i: usize = 0;
    proof {
        assert(s@.subrange(0, n as int) =~= s@);
    }
    while i < n
        invariant
            n == s@.len(),
            pat@.len() > 0,
            i <= n,
            remove_all(s@, pat@) =~= r@ + remove_all(s@.subrange(i as int, n as int), pat@),
        decreases n - i,
    {
        let ghost rest = s@.subrange(i as int, n as int);
        if pat.len() <= n - i && is_match_at_exec(s, pat, i) {
            proof {
                lemma_match_shift(s@, pat@, i as int, i as int);
                assert(is_match_at(rest, pat@, 0));
                assert(rest.subrange(pat@.len() as int, rest.len() as int) =~= s@.subrange(
                    i + pat@.len(),
                    n as int,
                ));
            }
            i = i + pat.len();
        } else {
            proof {
                if i + pat@.len() <= n {
                    lemma_match_shift(s@, pat@, i as int, i as int);
                }
                assert(!is_match_at(rest, pat@, 0));
                assert(rest.subrange(1, rest.len() as int) =~= s@.subrange(i + 1, n as int));
                assert(rest[0] == s@[i as int]);
            }
            r.push(s[i]);
            i = i + 1;
        }
    }
    r
}

// --- First whitespace-separated token ---

/// The first index `>= j` holding a non-whitespace character, or the length.
pub open spec fn ws_run_end(s: Seq<char>, j: int) -> int
    decreases s.len() - j,
{
    if j < 0 || j >= s.len() {
        s.len() as int
    } else if is_ws(s[j]) {
        ws_run_end(s, j + 1)
    } else {
        j
    }
}

/// The first index `>= j` holding a whitespace character, or the length.
pub open spec fn non_ws_run_end(s: Seq<char>, j: int) -> int
    decreases s.len() - j,
{
    if j < 0 || j >= s.len() {
        s.len() as int
    } else if !is_ws(s[j]) {
        non_ws_run_end(s, j + 1)
    } else {
        j
    }
}

/// The first whitespace-separated token of `s`, or the empty sequence if `s`
/// is all whitespace; what `str::split_whitespace` yields first.
pub open spec fn first_token(s: Seq<char>) -> Seq<char> {
    let a = ws_run_end(s, 0);
    let b = non_ws_run_end(s, a);
    if 0 <= a <= b <= s.len() {
        s.subrange(a, b)
    } else {
        Seq::empty()
    }
}

/// The first whitespace-separated token of `s`, or the empty vector.
pub fn first_token_exec(s: &Vec<char>) -> (r: Vec<char>)
    ensures
        r@ == first_token(s@),
{
    let n = s.len();
    let mut a: usize = 0;
    while a < n && is_ws_exec(s[a])
        invariant
            n == s@.len(),
            a <= n,
            ws_run_end(s@, 0) == ws_run_end(s@, a as int),
        decreases n - a,
    {
        a = a + 1;
    }
    let mut b: usize = a;
    while b < n && !is_ws_exec(s[b])
        invariant
            n == s@.len(),
            a <= b <= n,
            non_ws_run_end(s@, a as int) == non_ws_run_end(s@, b as int),
        decreases n - b,
    {
        b = b + 1;
    }
    proof {
        assert(ws_run_end(s@, 0) == a);
        assert(non_ws_run_end(s@, a as int) == b);
    }
    crate::chars::subvec(s, a, b)
}

} // verus!
