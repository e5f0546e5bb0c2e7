//! Removal of ANSI control sequences and of a prompt-glyph artifact from
//! diagnostic output, followed by trimming: the line-cleaning step of the
//! report parser.
//!
//! An ANSI control sequence here is an escape character, an opening bracket,
//! a run of digits and semicolons, and one ASCII letter: the pattern the
//! remote tooling emits for colours and cursor movement.

use vstd::prelude::*;
use crate::text::{
    is_match_at, remove_all, trim_of, lemma_trim_of_bounds, lemma_trim_idempotent,
    remove_all_exec, trim_vec,
};

verus! {

/// A digit or semicolon: the characters allowed inside a control sequence.
pub open spec fn is_csi_param(c: char) -> bool {
    (48 <= c as u32 && c as u32 <= 57) || c == ';'
}

/// An ASCII letter: the character that closes a control sequence.
pub open spec fn is_ascii_letter(c: char) -> bool {
    (65 <= c as u32 && c as u32 <= 90) || (97 <= c as u32 && c as u32 <= 122)
}

/// The first index `>= j` holding neither a digit nor a semicolon, or the
/// length of `s`.
pub open spec fn csi_run_end(s: Seq<char>, j: int) -> int
    decreases s.len() - j,
{
    if j < 0 || j >= s.len() {
        s.len() as int
    } else if is_csi_param(s[j]) {
        csi_run_end(s, j + 1)
    } else {
        j
    }
}

/// What `csi_run_end` returns: the end of the run of parameter characters.
pub proof fn lemma_csi_run_end(s: Seq<char>, j: int)
    requires
        0 <= j <= s.len(),
    ensures
        j <= csi_run_end(s, j) <= s.len(),
        forall|k: int| j <= k < csi_run_end(s, j) ==> is_csi_param(s[k]),
        csi_run_end(s, j) < s.len() ==> !is_csi_param(s[csi_run_end(s, j)]),
    decreases s.len() - j,
{
    if j < s.len() && is_csi_param(s[j]) {
        lemma_csi_run_end(s, j + 1);
    }
}

/// `csi_run_end(s, j) == e` for any `e` that ends the parameter run.
pub proof fn lemma_csi_run_end_at(s: Seq<char>, j: int, e: int)
    requires
        0 <= j <= e <= s.len(),
        forall|k: int| j <= k < e ==> is_csi_param(s[k]),
        e < s.len() ==> !is_csi_param(s[e]),
    ensures
        csi_run_end(s, j) == e,
    decreases s.len() - j,
{
    if j < s.len() && is_csi_param(s[j]) {
        lemma_csi_run_end_at(s, j + 1, e);
    }
}

/// The length of the ANSI control sequence starting at index `i` of `s`, if
/// one starts there.
pub open spec fn ansi_len_at(s: Seq<char>, i: int) -> Option<int> {
    if 0 <= i && i + 2 <= s.len() && s[i] == '\u{1b}' && s[i + 1] == '[' {
        let e = csi_run_end(s, i + 2);
        if e < s.len() && is_ascii_letter(s[e]) {
            Some(e + 1 - i)
        } else {
            None
        }
    } else {
        None
    }
}

/// A control sequence is at least three characters long and stays in bounds.
pub proof fn lemma_ansi_len_bounds(s: Seq<char>, i: int)
    requires
        ansi_len_at(s, i) is Some,
    ensures
        3 <= ansi_len_at(s, i)->Some_0,
        i + ansi_len_at(s, i)->Some_0 <= s.len(),
{
    lemma_csi_run_end(s, i + 2);
}

/// Dropping a prefix of `d` characters moves every control sequence `d`
/// places left.
pub proof fn lemma_ansi_shift(s: Seq<char>, d: int, i: int)
    requires
        0 <= d <= s.len(),
        0 <= i,
    ensures
        ansi_len_at(s.subrange(d, s.len() as int), i) == ansi_len_at(s, i + d),
{
    let t = s.subrange(d, s.len() as int);
    if i + 2 <= t.len() && t[i] == '\u{1b}' && t[i + 1] == '[' {
        lemma_csi_run_end(s, i + d + 2);
        let e = csi_run_end(s, i + d + 2);
        assert forall|k: int| i + 2 <= k < e - d implies is_csi_param(t[k]) by {
            assert(t[k] == s[k + d]);
        }
        if e - d < t.len() {
            assert(t[e - d] == s[e]);
        }
        lemma_csi_run_end_at(t, i + 2, e - d);
    } else if i + d + 2 <= s.len() && s[i + d] == '\u{1b}' && s[i + d + 1] == '[' {
        assert(t[i] == s[i + d] && t[i + 1] == s[i + d + 1]);
    }
}

/// `s` with every ANSI control sequence removed, scanning left to right, as
/// a regular-expression replace-all with the empty string does.
pub open spec fn strip_ansi(s: Seq<char>) -> Seq<char>
    decreases s.len(),
{
    if s.len() == 0 {
        Seq::empty()
    } else {
        match ansi_len_at(s, 0) {
            Some(k) => if 0 < k <= s.len() {
                strip_ansi(s.subrange(k, s.len() as int))
            } else {
                seq![s[0]] + strip_ansi(s.subrange(1, s.len() as int))
            },
            None => seq![s[0]] + strip_ansi(s.subrange(1, s.len() as int)),
        }
    }
}

/// `s` contains an ANSI control sequence somewhere.
pub open spec fn has_ansi(s: Seq<char>) -> bool {
    exists|i: int| ansi_len_at(s, i) is Some
}

/// A string without control sequences is unchanged by `strip_ansi`.
pub proof fn lemma_no_ansi_id(s: Seq<char>)
    requires
        !has_ansi(s),
    ensures
        strip_ansi(s) == s,
    decreases s.len(),
{
    if s.len() > 0 {
        assert(ansi_len_at(s, 0) is None);
        let t = s.subrange(1, s.len() as int);
        assert forall|i: int| !(#[trigger] ansi_len_at(t, i) is Some) by {
            if i >= 0 {
                lemma_ansi_shift(s, 1, i);
                assert(ansi_len_at(s, i + 1) is None);
            }
        }
        lemma_no_ansi_id(t);
        assert(seq![s[0]] + t =~= s);
    }
}

/// The glyph artifact that the remote prompt leaves in captured output.
pub open spec fn prompt_glyph() -> char {
    '\u{e0b0}'
}

/// The full line-cleaning step: control sequences removed, the prompt glyph
/// removed, and the result trimmed of surrounding whitespace.
pub open spec fn clean_of(s: Seq<char>) -> Seq<char> {
    trim_of(remove_all(strip_ansi(s), seq![prompt_glyph()]))
}

/// Detects a control sequence starting at index `i` and returns its length.
fn ansi_len_exec(s: &Vec<char>, i: usize) -> (r: Option<usize>)
    requires
        i <= s@.len(),
    ensures
        match r {
            Some(k) => ansi_len_at(s@, i as int) == Some(k as int),
            None => ansi_len_at(s@, i as int) is None,
        },
{
    let n = s.len();
    if n - i < 2 || s[i] != '\u{1b}' || s[i + 1] != '[' {
        return None;
    }
    let mut e: usize = i + 2;
    while e < n && ((48 <= s[e] as u32 && s[e] as u32 <= 57) || s[e] == ';')
        invariant
            n == s@.len(),
            i + 2 <= e <= n,
            forall|k: int| i + 2 <= k < e ==> is_csi_param(s@[k]),
        decreases n - e,
    {
        e = e + 1;
    }
    proof {
        lemma_csi_run_end_at(s@, i + 2, e as int);
    }
    if e < n {
        let c = s[e];
        if (65 <= c as u32 && c as u32 <= 90) || (97 <= c as u32 && c as u32 <= 122) {
            return Some(e + 1 - i);
        }
    }
    None
}

/// `s` with every ANSI control sequence removed.
pub fn strip_ansi_exec(v: &Vec<char>) -> (r: Vec<char>)
    ensures
        r@ == strip_ansi(v@),
{
    let n = v.len();
    let mut r: Vec<char> = Vec::new();
    let mut i: usize = 0;
    proof {
        assert(v@.subrange(0, n as int) =~= v@);
    }
    while i < n
        invariant
            n == v@.len(),
            i <= n,
            strip_ansi(v@) =~= r@ + strip_ansi(v@.subrange(i as int, n as int)),
        decreases n - i,
    {
        let ghost rest = v@.subrange(i as int, n as int);
        proof {
            lemma_ansi_shift(v@, i as int, 0);
            assert(ansi_len_at(rest, 0) == ansi_len_at(v@, i as int));
        }
        match ansi_len_exec(v, i) {
            Some(k) => {
                proof {
                    lemma_ansi_len_bounds(v@, i as int);
                    assert(rest.subrange(k as int, rest.len() as int) =~= v@.subrange(
                        i + k,
                        n as int,
                    ));
                }
                i = i + k;
            },
            None => {
                proof {
                    assert(rest[0] == v@[i as int]);
                    assert(rest.subrange(1, rest.len() as int) =~= v@.subrange(i + 1, n as int));
                }
                r.push(v[i]);
                i = i + 1;
            },
        }
    }
    r
}

/// Cleans one piece of output: strips control sequences and the prompt
/// glyph, then trims surrounding whitespace.
pub fn strip_ansi_and_symbols(v: &Vec<char>) -> (r: Vec<char>)
    ensures
        r@ == clean_of(v@),
{
    let a = strip_ansi_exec(v);
    let mut glyph: Vec<char> = Vec::new();
    glyph.push('\u{e0b0}');
    proof {
        assert(glyph@ =~= seq![prompt_glyph()]);
    }
    let b = remove_all_exec(&a, &glyph);
    trim_vec(&b)
}

/// Removing every occurrence of a character leaves none behind.
pub proof fn lemma_remove_char_free(s: Seq<char>, c: char)
    ensures
        forall|idx: int|
            0 <= idx < remove_all(s, seq![c]).len() ==> remove_all(s, seq![c])[idx] != c,
    decreases s.len(),
{
    let pat = seq![c];
    if s.len() > 0 {
        if is_match_at(s, pat, 0) {
            assert(s.subrange(pat.len() as int, s.len() as int) =~= s.subrange(
                1,
                s.len() as int,
            ));
            lemma_remove_char_free(s.subrange(1, s.len() as int), c);
            assert(remove_all(s, pat) == remove_all(s.subrange(1, s.len() as int), pat));
        } else {
            assert(s[0] != c) by {
                if s[0] == c {
                    assert(s.subrange(0, 1) =~= pat);
                }
            }
            lemma_remove_char_free(s.subrange(1, s.len() as int), c);
            let r2 = remove_all(s.subrange(1, s.len() as int), pat);
            assert forall|idx: int|
                0 <= idx < remove_all(s, pat).len() implies remove_all(s, pat)[idx] != c by {
                assert(remove_all(s, pat) == seq![s[0]] + r2);
                if idx >= 1 {
                    assert(remove_all(s, pat)[idx] == r2[idx - 1]);
                } else {
                    assert(remove_all(s, pat)[0] == s[0]);
                }
            }
        }
    }
}

/// A string without the character is unchanged by its removal.
pub proof fn lemma_remove_char_id(s: Seq<char>, c: char)
    requires
        forall|idx: int| 0 <= idx < s.len() ==> s[idx] != c,
    ensures
        remove_all(s, seq![c]) == s,
    decreases s.len(),
{
    let pat = seq![c];
    if s.len() > 0 {
        assert(!is_match_at(s, pat, 0)) by {
            if is_match_at(s, pat, 0) {
                assert(s.subrange(0, 1)[0] == s[0]);
            }
        }
        lemma_remove_char_id(s.subrange(1, s.len() as int), c);
        assert(seq![s[0]] + s.subrange(1, s.len() as int) =~= s);
    }
}

/// Cleaning is idempotent on every input whose cleaned form contains no
/// ANSI control sequence; removal can splice the remaining characters into
/// a new control sequence, and on such inputs a second cleaning still finds
/// work to do.
pub proof fn lemma_clean_idempotent(s: Seq<char>)
    requires
        !has_ansi(clean_of(s)),
    ensures
        clean_of(clean_of(s)) == clean_of(s),
{
    let u = remove_all(strip_ansi(s), seq![prompt_glyph()]);
    let t = clean_of(s);
    lemma_no_ansi_id(t);
    lemma_remove_char_free(strip_ansi(s), prompt_glyph());
    let ab = lemma_trim_of_bounds(u);
    assert forall|idx: int| 0 <= idx < t.len() implies t[idx] != prompt_glyph() by {
        assert(t[idx] == u[idx + ab.0]);
    }
    lemma_remove_char_id(t, prompt_glyph());
    lemma_trim_idempotent(u);
}

} // verus!
