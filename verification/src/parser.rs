//! The diagnostic-report parser: finds the marker-delimited window in the
//! captured output, splits it into a summary and a detailed section, cleans
//! each line, and builds the structured report.

use vstd::prelude::*;
use vstd::pervasive::VecAdditionalExecFns;
use crate::chars::{chars_of, string_of, subvec, append_all, eq_chars};
use crate::report::{CheckItem, CheckItemV, SystemCheckReport, SystemCheckReportV};
use crate::strip::{clean_of, strip_ansi_and_symbols};
use crate::text::{
    is_match_at, find_from, find_first, find_last, contains_sub, trim_of, first_token,
    remove_all, lines_of, lemma_find_from, lemma_rfind_from, find_sub, find_sub_from, rfind_sub,
    contains_sub_exec, starts_with_exec, trim_vec, remove_all_exec, split_lines,
    first_token_exec,
};

verus! {

/// The line that opens the diagnostic window in the remote output.
pub open spec fn start_marker() -> Seq<char> {
    "=== Check Start ==="@
}

/// The line that closes the diagnostic window.
pub open spec fn end_marker() -> Seq<char> {
    "======================="@
}

/// The heading that separates the summary from the detailed section.
pub open spec fn split_marker() -> Seq<char> {
    "=== Detailed Report ==="@
}

/// The tag of a passing summary line.
pub open spec fn pass_tag() -> Seq<char> {
    "[PASS]"@
}

/// The tag of a failing summary line.
pub open spec fn fail_tag() -> Seq<char> {
    "[FAIL]"@
}

/// The prefix of a plugin-load failure line.
pub open spec fn plugin_prefix() -> Seq<char> {
    "Plugin error:"@
}

/// The phrase that precedes the failing class name on a plugin-error line.
pub open spec fn class_type_marker() -> Seq<char> {
    "class type "@
}

/// The window of `text` between the first start marker and the last end
/// marker, both inclusive. A missing start marker widens the window to the
/// beginning, a missing end marker to the end; if the last end marker ends
/// before the first start marker begins, the whole text is the window.
pub open spec fn window_of(text: Seq<char>) -> Seq<char> {
    let s = match find_first(text, start_marker()) {
        Some(i) => i,
        None => 0,
    };
    let e = match find_last(text, end_marker()) {
        Some(j) => j + end_marker().len(),
        None => text.len() as int,
    };
    if 0 <= s <= e <= text.len() {
        text.subrange(s, e)
    } else {
        text
    }
}

/// The part of the window before the first split marker; the whole window
/// when there is none.
pub open spec fn summary_part(w: Seq<char>) -> Seq<char> {
    match find_first(w, split_marker()) {
        Some(f) => if 0 <= f <= w.len() {
            w.subrange(0, f)
        } else {
            w
        },
        None => w,
    }
}

/// The split marker together with the text that follows it, up to (and not
/// including) a second split marker; empty when the window has no split
/// marker.
pub open spec fn detailed_raw_part(w: Seq<char>) -> Seq<char> {
    match find_first(w, split_marker()) {
        Some(f) => {
            let t = f + split_marker().len();
            if 0 <= f && t <= w.len() {
                match find_from(w, split_marker(), t) {
                    Some(g) => if t <= g <= w.len() {
                        split_marker() + w.subrange(t, g)
                    } else {
                        split_marker() + w.subrange(t, w.len() as int)
                    },
                    None => split_marker() + w.subrange(t, w.len() as int),
                }
            } else {
                Seq::empty()
            }
        },
        None => Seq::empty(),
    }
}

/// Folds one cleaned detailed-section line into the map from check name to
/// accumulated log text: a `name,log` line appends to the name's entry,
/// separated by a newline; other lines change nothing.
pub open spec fn details_of_line(
    m: Map<Seq<char>, Seq<char>>,
    line: Seq<char>,
) -> Map<Seq<char>, Seq<char>> {
    let lt = trim_of(line);
    if lt.len() == 0 || contains_sub(lt, split_marker()) {
        m
    } else {
        match find_first(lt, seq![',']) {
            Some(k) => if 0 <= k < lt.len() {
                let name = trim_of(lt.subrange(0, k));
                let log = trim_of(lt.subrange(k + 1, lt.len() as int));
                if m.dom().contains(name) {
                    m.insert(name, m[name] + seq!['\n'] + log)
                } else {
                    m.insert(name, log)
                }
            } else {
                m
            },
            None => m,
        }
    }
}

/// The map from check name to accumulated log text over a sequence of
/// cleaned detailed-section lines.
pub open spec fn details_map_of(lines: Seq<Seq<char>>) -> Map<Seq<char>, Seq<char>>
    decreases lines.len(),
{
    if lines.len() == 0 {
        Map::empty()
    } else {
        details_of_line(details_map_of(lines.drop_last()), lines.last())
    }
}

/// The summary items one raw summary line yields after cleaning: one item
/// for a tagged pass/fail line or a plugin-error line, none otherwise.
pub open spec fn items_of_line(line: Seq<char>, dm: Map<Seq<char>, Seq<char>>) -> Seq<CheckItemV> {
    let clean = clean_of(line);
    if contains_sub(clean, pass_tag()) || contains_sub(clean, fail_tag()) {
        let passed = contains_sub(clean, pass_tag());
        let tag = if passed {
            pass_tag()
        } else {
            fail_tag()
        };
        let content = remove_all(clean, tag);
        let nd = match find_first(content, seq![',']) {
            Some(k) => if 0 <= k < content.len() {
                (
                    trim_of(content.subrange(0, k)),
                    trim_of(content.subrange(k + 1, content.len() as int)),
                )
            } else {
                (trim_of(content), Seq::<char>::empty())
            },
            None => (trim_of(content), Seq::<char>::empty()),
        };
        seq![
            CheckItemV {
                status: if passed {
                    "PASS"@
                } else {
                    "FAIL"@
                },
                name: nd.0,
                description: nd.1,
                details: if dm.dom().contains(nd.0) {
                    dm[nd.0]
                } else {
                    Seq::empty()
                },
            },
        ]
    } else if is_match_at(clean, plugin_prefix(), 0) {
        let name = match find_first(clean, class_type_marker()) {
            Some(idx) => if 0 <= idx && idx + class_type_marker().len() <= clean.len() {
                let tok = first_token(clean.subrange(
                    idx + class_type_marker().len(),
                    clean.len() as int,
                ));
                if tok.len() > 0 {
                    tok
                } else {
                    "Plugin Error"@
                }
            } else {
                "Plugin Error"@
            },
            None => "Plugin Load Error"@,
        };
        seq![
            CheckItemV {
                status: "FAIL"@,
                name,
                description: clean,
                details: "Raw Error: "@ + clean,
            },
        ]
    } else {
        Seq::empty()
    }
}

/// The summary items of a sequence of raw summary lines, in order.
pub open spec fn summary_of(lines: Seq<Seq<char>>, dm: Map<Seq<char>, Seq<char>>) -> Seq<
    CheckItemV,
>
    decreases lines.len(),
{
    if lines.len() == 0 {
        Seq::empty()
    } else {
        summary_of(lines.drop_last(), dm) + items_of_line(lines.last(), dm)
    }
}

/// The full report parsed from `text`.
pub open spec fn report_of(text: Seq<char>) -> SystemCheckReportV {
    let w = window_of(text);
    let detailed = clean_of(detailed_raw_part(w));
    let dm = details_map_of(lines_of(detailed));
    SystemCheckReportV {
        summary: summary_of(lines_of(summary_part(w)), dm),
        detailed,
        raw: w,
    }
}

/// When both markers occur, in order, the window is exactly the text from
/// the first start marker through the last end marker, markers inclusive.
pub proof fn lemma_window_between_markers(text: Seq<char>, i: int, j: int)
    requires
        find_first(text, start_marker()) == Some(i),
        find_last(text, end_marker()) == Some(j),
        i <= j,
    ensures
        window_of(text) == text.subrange(i, j + end_marker().len()),
{
    reveal_strlit("=== Check Start ===");
    reveal_strlit("=======================");
    lemma_find_from(text, start_marker(), 0);
    lemma_rfind_from(text, end_marker(), text.len() - end_marker().len());
}

/// When neither marker occurs, the whole text is the window.
pub proof fn lemma_window_whole_text(text: Seq<char>)
    requires
        find_first(text, start_marker()) is None,
        find_last(text, end_marker()) is None,
    ensures
        window_of(text) == text,
{
    assert(text.subrange(0, text.len() as int) =~= text);
}

/// Extracts the marker-delimited window from the captured output.
fn extract_window(tv: &Vec<char>) -> (w: Vec<char>)
    ensures
        w@ == window_of(tv@),
{
    let n = tv.len();
    let sm = chars_of("=== Check Start ===");
    let em = chars_of("=======================");
    proof {
        reveal_strlit("=== Check Start ===");
        reveal_strlit("=======================");
    }
    let s: usize = match find_sub(tv, &sm) {
        Some(i) => i,
        None => 0,
    };
    let e: usize = match rfind_sub(tv, &em) {
        Some(j) => {
            proof {
                lemma_rfind_from(tv@, em@, tv@.len() - em@.len());
            }
            j + em.len()
        },
        None => n,
    };
    proof {
        if find_first(tv@, sm@) is Some {
            lemma_find_from(tv@, sm@, 0);
        }
    }
    if s <= e {
        subvec(tv, s, e)
    } else {
        let whole = subvec(tv, 0, tv.len());
        proof {
            assert(tv@.subrange(0, tv@.len() as int) =~= tv@);
        }
        whole
    }
}

/// Splits the window into the summary text and the raw detailed section.
fn split_sections(w: &Vec<char>) -> (r: (Vec<char>, Vec<char>))
    ensures
        r.0@ == summary_part(w@),
        r.1@ == detailed_raw_part(w@),
{
    let n = w.len();
    let sp = chars_of("=== Detailed Report ===");
    proof {
        reveal_strlit("=== Detailed Report ===");
    }
    match find_sub(w, &sp) {
        Some(f) => {
            proof {
                lemma_find_from(w@, sp@, 0);
            }
            let summary = subvec(w, 0, f);
            let t = f + sp.len();
            let g: usize = match find_sub_from(w, &sp, t) {
                Some(g) => {
                    proof {
                        lemma_find_from(w@, sp@, t as int);
                    }
                    g
                },
                None => w.len(),
            };
            let mut detailed = chars_of("=== Detailed Report ===");
            let seg = subvec(w, t, g);
            append_all(&mut detailed, &seg);
            (summary, detailed)
        },
        None => {
            let summary = subvec(w, 0, w.len());
            proof {
                assert(w@.subrange(0, w@.len() as int) =~= w@);
            }
            (summary, Vec::new())
        },
    }
}


/// The views of a sequence of character vectors.
pub open spec fn views_of(vs: Seq<Vec<char>>) -> Seq<Seq<char>> {
    Seq::new(vs.len(), |i: int| vs[i]@)
}

/// Finds the index of `key` among `names`, if it occurs.
fn assoc_find(names: &Vec<Vec<char>>, key: &Vec<char>) -> (r: Option<usize>)
    ensures
        match r {
            Some(j) => j < names@.len() && names@[j as int]@ == key@,
            None => forall|j: int| 0 <= j < names@.len() ==> names@[j]@ != key@,
        },
{
    let mut j: usize = 0;
    while j < names.len()
        invariant
            j <= names@.len(),
            forall|k: int| 0 <= k < j ==> names@[k]@ != key@,
        decreases names@.len() - j,
    {
        if eq_chars(&names[j], key) {
            return Some(j);
        }
        j = j + 1;
    }
    None
}

/// Builds the name-to-log association of the detailed section as two
/// parallel vectors with pairwise distinct names, matching the map the
/// specification folds up.
#[verifier::loop_isolation(false)]
fn build_details(dlines: &Vec<Vec<char>>) -> (r: (Vec<Vec<char>>, Vec<Vec<char>>))
    ensures
        r.0@.len() == r.1@.len(),
        forall|a: int, b: int| 0 <= a < b < r.0@.len() ==> r.0@[a]@ != r.0@[b]@,
        forall|j: int|
            0 <= j < r.0@.len() ==> details_map_of(views_of(dlines@)).dom().contains(
                #[trigger] r.0@[j]@,
            ) && details_map_of(views_of(dlines@))[r.0@[j]@] == r.1@[j]@,
        forall|key: Seq<char>|
            #[trigger] details_map_of(views_of(dlines@)).dom().contains(key) ==> exists|j: int|
                0 <= j < r.0@.len() && #[trigger] r.0@[j]@ == key,
{
    let ghost lv = views_of(dlines@);
    let sp = chars_of("=== Detailed Report ===");
    proof {
        reveal_strlit("=== Detailed Report ===");
    }
    let mut comma: Vec<char> = Vec::new();
    comma.push(',');
    proof {
        assert(comma@ =~= seq![',']);
    }
    let mut names: Vec<Vec<char>> = Vec::new();
    let mut logs: Vec<Vec<char>> = Vec::new();
    let mut i: usize = 0;
    proof {
        assert(lv.take(0) =~= Seq::<Seq<char>>::empty());
    }
    while i < dlines.len()
        invariant
            i <= dlines@.len(),
            names@.len() == logs@.len(),
            forall|a: int, b: int| 0 <= a < b < names@.len() ==> names@[a]@ != names@[b]@,
            forall|j: int|
                0 <= j < names@.len() ==> details_map_of(lv.take(i as int)).dom().contains(
                    #[trigger] names@[j]@,
                ) && details_map_of(lv.take(i as int))[names@[j]@] == logs@[j]@,
            forall|key: Seq<char>|
                #[trigger] details_map_of(lv.take(i as int)).dom().contains(key) ==> exists|j: int|
                    0 <= j < names@.len() && #[trigger] names@[j]@ == key,
        decreases dlines@.len() - i,
    {
        let ghost m0 = details_map_of(lv.take(i as int));
        proof {
            assert(lv.take(i + 1).drop_last() =~= lv.take(i as int));
            assert(lv.take(i + 1).last() == lv[i as int]);
            assert(details_map_of(lv.take(i + 1)) == details_of_line(m0, lv[i as int]));
        }
        let ghost m1 = details_map_of(lv.take(i + 1));
        let lt = trim_vec(&dlines[i]);
        let mut skip = lt.len() == 0;
        if !skip && contains_sub_exec(&lt, &sp) {
            skip = true;
        }
        if !skip {
            match find_sub(&lt, &comma) {
                Some(k) => {
                    proof {
                        lemma_find_from(lt@, comma@, 0);
                    }
                    let namev = trim_vec(&subvec(&lt, 0, k));
                    let logv = trim_vec(&subvec(&lt, k + 1, lt.len()));
                    let ghost name = namev@;
                    match assoc_find(&names, &namev) {
                        Some(j) => {
                            let cur: &Vec<char> = &logs[j];
                            let mut newlog = subvec(cur, 0, cur.len());
                            newlog.push('\n');
                            append_all(&mut newlog, &logv);
                            proof {
                                assert(cur@.subrange(0, cur@.len() as int) =~= cur@);
                                assert(newlog@ =~= m0[name] + seq!['\n'] + logv@);
                            }
                            logs.set(j, newlog);
                            proof {
                                assert(m1 == m0.insert(name, m0[name] + seq!['\n'] + logv@));
                                assert forall|j2: int|
                                    0 <= j2 < names@.len() implies m1.dom().contains(
                                    #[trigger] names@[j2]@,
                                ) && m1[names@[j2]@] == logs@[j2]@ by {
                                    if j2 != j {
                                        assert(names@[j2]@ != name);
                                    }
                                }
                                assert forall|key: Seq<char>|
                                    #[trigger] m1.dom().contains(key) implies exists|j2: int|
                                    0 <= j2 < names@.len() && #[trigger] names@[j2]@ == key by {
                                    if key == name {
                                        assert(names@[j as int]@ == key);
                                    } else {
                                        assert(m0.dom().contains(key));
                                    }
                                }
                            }
                        },
                        None => {
                            proof {
                                if m0.dom().contains(name) {
                                    let j = choose|j: int|
                                        0 <= j < names@.len() && #[trigger] names@[j]@ == name;
                                    assert(false);
                                }
                                assert(m1 == m0.insert(name, logv@));
                            }
                            let ghost names0 = names@;
                            names.push(namev);
                            logs.push(logv);
                            proof {
                                let nl = names@.len() as int;
                                assert forall|key: Seq<char>|
                                    #[trigger] m1.dom().contains(key) implies exists|j2: int|
                                    0 <= j2 < names@.len() && #[trigger] names@[j2]@ == key by {
                                    if key == name {
                                        assert(names@[nl - 1]@ == key);
                                    } else {
                                        assert(m0.dom().contains(key));
                                        let j2 = choose|j2: int|
                                            0 <= j2 < names0.len() && #[trigger] names0[j2]@
                                                == key;
                                        assert(names@[j2]@ == key);
                                    }
                                }
                            }
                        },
                    }
                },
                None => {
                },
            }
        }
        i = i + 1;
    }
    proof {
        assert(lv.take(i as int) =~= lv);
        let dm = details_map_of(views_of(dlines@));
        assert(dm == details_map_of(lv.take(i as int)));
        assert forall|key: Seq<char>| #[trigger] dm.dom().contains(key) implies exists|j: int|
            0 <= j < names@.len() && #[trigger] names@[j]@ == key by {
            assert(details_map_of(lv.take(i as int)).dom().contains(key));
        }
    }
    (names, logs)
}


/// Builds the summary items from the raw summary lines, looking up details
/// in the association the detailed section produced.
#[verifier::loop_isolation(false)]
fn summary_items(
    slines: &Vec<Vec<char>>,
    names: &Vec<Vec<char>>,
    logs: &Vec<Vec<char>>,
    Ghost(dm): Ghost<Map<Seq<char>, Seq<char>>>,
) -> (items: Vec<CheckItem>)
    requires
        names@.len() == logs@.len(),
        forall|j: int|
            0 <= j < names@.len() ==> dm.dom().contains(#[trigger] names@[j]@) && dm[names@[j]@]
                == logs@[j]@,
        forall|key: Seq<char>|
            #[trigger] dm.dom().contains(key) ==> exists|j: int|
                0 <= j < names@.len() && #[trigger] names@[j]@ == key,
    ensures
        Seq::new(items@.len(), |i: int| items@[i]@) == summary_of(views_of(slines@), dm),
{
    let ghost lv = views_of(slines@);
    let ptag = chars_of("[PASS]");
    let ftag = chars_of("[FAIL]");
    let pprefix = chars_of("Plugin error:");
    let ctm = chars_of("class type ");
    proof {
        reveal_strlit("[PASS]");
        reveal_strlit("[FAIL]");
        reveal_strlit("Plugin error:");
        reveal_strlit("class type ");
    }
    let mut comma: Vec<char> = Vec::new();
    comma.push(',');
    proof {
        assert(comma@ =~= seq![',']);
    }
    let mut items: Vec<CheckItem> = Vec::new();
    let mut i: usize = 0;
    proof {
        assert(Seq::new(items@.len(), |j: int| items@[j]@) =~= summary_of(lv.take(0), dm));
    }
    while i < slines.len()
        invariant
            i <= slines@.len(),
            Seq::new(items@.len(), |j: int| items@[j]@) == summary_of(lv.take(i as int), dm),
        decreases slines@.len() - i,
    {
        proof {
            assert(lv.take(i + 1).drop_last() =~= lv.take(i as int));
            assert(lv.take(i + 1).last() == lv[i as int]);
            assert(summary_of(lv.take(i + 1), dm) == summary_of(lv.take(i as int), dm)
                + items_of_line(lv[i as int], dm));
        }
        let clean = strip_ansi_and_symbols(&slines[i]);
        let has_p = contains_sub_exec(&clean, &ptag);
        let has_f = contains_sub_exec(&clean, &ftag);
        if has_p || has_f {
            let content = remove_all_exec(
                &clean,
                if has_p {
                    &ptag
                } else {
                    &ftag
                },
            );
            let cn = content.len();
            let nd: (Vec<char>, Vec<char>) = match find_sub(&content, &comma) {
                Some(k) => {
                    proof {
                        lemma_find_from(content@, comma@, 0);
                    }
                    (trim_vec(&subvec(&content, 0, k)), trim_vec(&subvec(&content, k + 1, cn)))
                },
                None => (trim_vec(&content), Vec::new()),
            };
            let namev = nd.0;
            let descv = nd.1;
            let det: Vec<char> = match assoc_find(names, &namev) {
                Some(j) => {
                    let lj: &Vec<char> = &logs[j];
                    subvec(lj, 0, lj.len())
                },
                None => {
                    proof {
                        if dm.dom().contains(namev@) {
                            let j = choose|j: int|
                                0 <= j < names@.len() && #[trigger] names@[j]@ == namev@;
                            assert(false);
                        }
                    }
                    Vec::new()
                },
            };
            let status: &str = if has_p {
                "PASS"
            } else {
                "FAIL"
            };
            let item = CheckItem {
                status: status.to_owned(),
                name: string_of(&namev),
                description: string_of(&descv),
                details: string_of(&det),
            };
            proof {
                assert(lv[i as int] == slines@[i as int]@);
                let want = items_of_line(lv[i as int], dm)[0];
                assert(item@.status == want.status);
                assert(item@.name == want.name);
                assert(item@.description == want.description);
                assert(item@.details == want.details);
                assert(item@ == want);
            }
            items.push(item);
        } else if starts_with_exec(&clean, &pprefix) {
            let cl = clean.len();
            let namev: Vec<char> = match find_sub(&clean, &ctm) {
                Some(idx) => {
                    proof {
                        lemma_find_from(clean@, ctm@, 0);
                    }
                    let tail = subvec(&clean, idx + ctm.len(), cl);
                    let tok = first_token_exec(&tail);
                    if tok.len() > 0 {
                        tok
                    } else {
                        chars_of("Plugin Error")
                    }
                },
                None => chars_of("Plugin Load Error"),
            };
            let mut detv = chars_of("Raw Error: ");
            append_all(&mut detv, &clean);
            let item = CheckItem {
                status: "FAIL".to_owned(),
                name: string_of(&namev),
                description: string_of(&clean),
                details: string_of(&detv),
            };
            proof {
                assert(item@ == items_of_line(lv[i as int], dm)[0]);
            }
            items.push(item);
        } else {
            proof {
                assert(items_of_line(lv[i as int], dm) =~= Seq::<CheckItemV>::empty());
            }
        }
        proof {
            assert(Seq::new(items@.len(), |j: int| items@[j]@) =~= summary_of(lv.take(i + 1), dm));
        }
        i = i + 1;
    }
    proof {
        assert(lv.take(i as int) =~= lv);
    }
    items
}

/// Parses the captured output of a diagnostic run into a structured report:
/// the marker-delimited window verbatim, the cleaned detailed section, and
/// one summary item per tagged or plugin-error line.
pub fn parse_check_output(text: &str) -> (r: SystemCheckReport)
    ensures
        r@ == report_of(text@),
{
    let tv = chars_of(text);
    let wv = extract_window(&tv);
    let sections = split_sections(&wv);
    let sv = sections.0;
    let dv = sections.1;
    let detailed_clean = strip_ansi_and_symbols(&dv);
    let dlines = split_lines(&detailed_clean);
    proof {
        assert(views_of(dlines@) =~= lines_of(detailed_clean@));
    }
    let built = build_details(&dlines);
    let names = built.0;
    let logs = built.1;
    let ghost dm = details_map_of(views_of(dlines@));
    let slines = split_lines(&sv);
    proof {
        assert(views_of(slines@) =~= lines_of(sv@));
    }
    let items = summary_items(&slines, &names, &logs, Ghost(dm));
    let r = SystemCheckReport {
        summary: items,
        detailed: string_of(&detailed_clean),
        raw: string_of(&wv),
    };
    proof {
        assert(r@.summary == report_of(text@).summary);
        assert(r@ == report_of(text@));
    }
    r
}

} // verus!
