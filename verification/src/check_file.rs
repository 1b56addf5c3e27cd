//! Checking a whole document: request building, response processing and
//! aggregation.
//!
//! The external grammar service is the caller's concern: the caller sends
//! one request per merged paragraph, in any order and concurrency it
//! likes, and hands every paragraph's outcome back as plain values. The
//! functions here build the requests, turn the outcomes into located
//! problems, abort on the first failed paragraph, and compute the run's
//! metadata.

use vstd::prelude::*;

use crate::lines::Lines;
use crate::paragraph::{ContribModel, NodeContribution};
use crate::problem::{spec_reconcile, Problem, ProblemModel};
use crate::LanguageToolConfig;

verus! {

/// How strict the external service should be.
#[derive(Debug, Clone, Copy, PartialEq, Eq, Structural)]
pub enum Level {
    Default,
    Picky,
}

/// One check request: the text to check and the pass-through options from
/// the run configuration.
#[derive(Debug, Clone)]
pub struct CheckRequest {
    pub text: Vec<u8>,
    pub language: String,
    pub level: Level,
    pub disabled_rules: Option<Vec<String>>,
    pub disabled_categories: Option<Vec<String>>,
}

/// One match reported by the external service against a paragraph's text:
/// a byte range into the submitted text and the diagnostic payload.
#[derive(Debug)]
pub struct Match {
    pub offset: usize,
    pub length: usize,
    pub message: Vec<u8>,
    pub short_message: Vec<u8>,
    pub replacements: Vec<Vec<u8>>,
    pub rule_id: Vec<u8>,
    pub rule_category: Vec<u8>,
    pub context_text: Vec<u8>,
}

/// Why a check run failed: the external service call for some paragraph
/// failed, with the message the caller's client produced for it.
#[derive(Debug)]
pub enum Error {
    LanguageTool(String),
}

/// One paragraph's worth of work, as handed back by the caller: the
/// outcome of the service call, together with the paragraph's materialized
/// text and contribution list.
#[derive(Debug)]
pub struct ParagraphOutcome {
    pub outcome: Result<Vec<Match>, Error>,
    pub text: Vec<u8>,
    pub contributions: Vec<NodeContribution>,
}

/// Copy a string.
fn clone_string(s: &String) -> (r: String)
    ensures
        r@ == s@,
{
    String::from_str(s.as_str())
}

/// Copy a list of strings.
fn clone_string_vec(v: &Vec<String>) -> (r: Vec<String>)
    ensures
        r@.map_values(|s: String| s@) == v@.map_values(|s: String| s@),
{
    let mut r: Vec<String> = Vec::new();
    let n = v.len();
    for i in 0..n
        invariant
            n == v@.len(),
            r@.len() == i,
            r@.map_values(|s: String| s@) == v@.map_values(|s: String| s@).take(i as int),
    {
        let ghost r0 = r@;
        r.push(clone_string(&v[i]));
        proof {
            assert forall|j: int| 0 <= j < i + 1 implies #[trigger] r@[j]@ == v@.map_values(
                |s: String| s@,
            ).take(i + 1)[j] by {
                if j < i {
                    assert(r@[j] == r0[j]);
                    assert(r0.map_values(|s: String| s@)[j] == r0[j]@);
                }
            }
            assert(r@.map_values(|s: String| s@) =~= v@.map_values(|s: String| s@).take(i + 1));
        }
    }
    proof {
        assert(v@.map_values(|s: String| s@).take(n as int) =~= v@.map_values(|s: String| s@));
    }
    r
}

/// The views of an optional list of strings.
pub open spec fn opt_strings_view(v: Option<Vec<String>>) -> Option<Seq<Seq<char>>> {
    match v {
        None => None,
        Some(l) => Some(l@.map_values(|s: String| s@)),
    }
}

/// Copy an optional list of strings.
fn clone_opt_string_vec(v: &Option<Vec<String>>) -> (r: Option<Vec<String>>)
    ensures
        opt_strings_view(r) == opt_strings_view(*v),
{
    match v {
        None => None,
        Some(l) => Some(clone_string_vec(l)),
    }
}

/// Build the check request for one paragraph: the materialized text, and
/// the language, strictness and disabled-list options passed through from
/// the run configuration.
pub fn build_check_request(text: Vec<u8>, config: &LanguageToolConfig) -> (r: CheckRequest)
    ensures
        r.text@ == text@,
        r.language@ == config.language@,
        r.level == (if config.picky == Some(true) {
            Level::Picky
        } else {
            Level::Default
        }),
        opt_strings_view(r.disabled_rules) == opt_strings_view(config.disabled_rules),
        opt_strings_view(r.disabled_categories) == opt_strings_view(config.disabled_categories),
{
    let level = match config.picky {
        Some(true) => Level::Picky,
        _ => Level::Default,
    };
    CheckRequest {
        text,
        language: clone_string(&config.language),
        level,
        disabled_rules: clone_opt_string_vec(&config.disabled_rules),
        disabled_categories: clone_opt_string_vec(&config.disabled_categories),
    }
}

/// Whether `w` is one of the configured ignore words (case-sensitive,
/// exact).
pub open spec fn contains_word(ignores: Seq<Seq<u8>>, w: Seq<u8>) -> bool {
    exists|i: int| 0 <= i < ignores.len() && #[trigger] ignores[i] == w
}

/// The problems that one paragraph's matches yield, in match order: each
/// match's substring is sliced from the paragraph text; matches whose
/// substring is an ignore word are dropped, the rest are reconciled and
/// kept when reconciliation succeeds.
pub open spec fn spec_problems_from(
    t: Seq<u8>,
    contribs: Seq<ContribModel>,
    ms: Seq<Match>,
    text: Seq<u8>,
    ignores: Seq<Seq<u8>>,
) -> Seq<ProblemModel>
    decreases ms.len(),
{
    if ms.len() == 0 {
        Seq::empty()
    } else {
        let prev = spec_problems_from(t, contribs, ms.drop_last(), text, ignores);
        let m = ms.last();
        let sub = text.subrange(m.offset as int, m.offset + m.length);
        if contains_word(ignores, sub) {
            prev
        } else {
            match spec_reconcile(t, contribs, m, sub) {
                Some(p) => prev.push(p),
                None => prev,
            }
        }
    }
}

/// A match whose substring is an ignore word never adds a problem.
pub proof fn lemma_ignored_match_never_reported(
    t: Seq<u8>,
    contribs: Seq<ContribModel>,
    ms: Seq<Match>,
    text: Seq<u8>,
    ignores: Seq<Seq<u8>>,
    m: Match,
)
    requires
        contains_word(ignores, text.subrange(m.offset as int, m.offset + m.length)),
    ensures
        spec_problems_from(t, contribs, ms.push(m), text, ignores) == spec_problems_from(
            t,
            contribs,
            ms,
            text,
            ignores,
        ),
{
    assert(ms.push(m).drop_last() =~= ms);
    assert(ms.push(m).last() == m);
}

/// Copy the byte range `[from, to)` out of `v`.
fn bytes_range(v: &Vec<u8>, from: usize, to: usize) -> (r: Vec<u8>)
    requires
        from <= to <= v@.len(),
    ensures
        r@ == v@.subrange(from as int, to as int),
{
    let mut r: Vec<u8> = Vec::new();
    let mut k = from;
    while k < to
        invariant
            from <= k <= to <= v@.len(),
            r@ == v@.subrange(from as int, k as int),
        decreases to - k,
    {
        r.push(v[k]);
        proof {
            assert(r@ =~= v@.subrange(from as int, k + 1));
        }
        k = k + 1;
    }
    r
}

/// Whether two byte strings are equal.
fn bytes_eq(a: &Vec<u8>, b: &Vec<u8>) -> (r: bool)
    ensures
        r <==> a@ == b@,
{
    if a.len() != b.len() {
        return false;
    }
    let n = a.len();
    for i in 0..n
        invariant
            n == a@.len() == b@.len(),
            forall|j: int| 0 <= j < i ==> a@[j] == b@[j],
    {
        if a[i] != b[i] {
            return false;
        }
    }
    proof {
        assert(a@ =~= b@);
    }
    true
}

/// Whether `w` is one of the configured ignore words.
fn is_ignore_word(ignore_words: &Vec<Vec<u8>>, w: &Vec<u8>) -> (r: bool)
    ensures
        r == contains_word(ignore_words@.map_values(|v: Vec<u8>| v@), w@),
{
    let ghost iv = ignore_words@.map_values(|v: Vec<u8>| v@);
    let n = ignore_words.len();
    for i in 0..n
        invariant
            n == ignore_words@.len(),
            iv == ignore_words@.map_values(|v: Vec<u8>| v@),
            forall|j: int| 0 <= j < i ==> #[trigger] iv[j] != w@,
    {
        proof {
            assert(iv[i as int] == ignore_words@[i as int]@);
        }
        if bytes_eq(&ignore_words[i], w) {
            return true;
        }
    }
    false
}

/// Turn one paragraph's reported matches into located problems: slice each
/// match's substring out of the paragraph text, drop matches whose
/// substring is an ignore word, reconcile the rest against the document,
/// and drop those that cannot be mapped.
pub fn problems_from_matches(
    lines: &Lines,
    matches: &mut Vec<Match>,
    text: &Vec<u8>,
    node_contributions: &Vec<NodeContribution>,
    ignore_words: &Vec<Vec<u8>>,
) -> (r: Vec<Problem>)
    requires
        lines.wf(),
        lines.text@.len() < usize::MAX,
        forall|i: int|
            0 <= i < old(matches)@.len() ==> (#[trigger] old(matches)@[i]).offset + old(
                matches,
            )@[i].length <= text@.len(),
    ensures
        r@.map_values(|p: Problem| p@) == spec_problems_from(
            lines.text@,
            node_contributions@.map_values(|c: NodeContribution| c@),
            old(matches)@,
            text@,
            ignore_words@.map_values(|v: Vec<u8>| v@),
        ),
{
    let ghost orig = matches@;
    let ghost cv = node_contributions@.map_values(|c: NodeContribution| c@);
    let ghost iv = ignore_words@.map_values(|v: Vec<u8>| v@);
    let mut problems: Vec<Problem> = Vec::new();

    let total = matches.len();
    proof {
        assert(orig.skip(0) =~= orig);
        assert(orig.take(0).len() == 0);
        assert(orig.len() == total);
    }
    let mut i: usize = 0;
    while matches.len() > 0
        invariant
            lines.wf(),
            lines.text@.len() < usize::MAX,
            cv == node_contributions@.map_values(|c: NodeContribution| c@),
            iv == ignore_words@.map_values(|v: Vec<u8>| v@),
            orig == old(matches)@,
            orig.len() == total,
            i as int + matches@.len() == orig.len(),
            matches@ == orig.skip(i as int),
            forall|k: int|
                0 <= k < orig.len() ==> (#[trigger] orig[k]).offset + orig[k].length <= text@.len(),
            problems@.map_values(|p: Problem| p@) == spec_problems_from(
                lines.text@,
                cv,
                orig.take(i as int),
                text@,
                iv,
            ),
        decreases matches@.len(),
    {
        proof {
            assert(orig.skip(i as int)[0] == orig[i as int]);
            assert(orig.skip(i as int).drop_first() =~= orig.skip(i + 1));
            assert(orig.take(i + 1).drop_last() =~= orig.take(i as int));
            assert(orig.take(i + 1).last() == orig[i as int]);
        }
        let lt_match = matches.remove(0);
        proof {
            assert(lt_match == orig[i as int]);
        }
        let text_len = text.len();
        proof {
            assert(lt_match.offset + lt_match.length <= text_len);
        }
        let match_text = bytes_range(text, lt_match.offset, lt_match.offset + lt_match.length);

        let ghost prev = problems@.map_values(|p: Problem| p@);
        if !is_ignore_word(ignore_words, &match_text) {
            let maybe_problem = Problem::try_from_match(
                lines,
                lt_match,
                match_text,
                node_contributions,
            );
            match maybe_problem {
                Some(problem) => {
                    problems.push(problem);
                    proof {
                        assert(problems@.map_values(|p: Problem| p@) =~= prev.push(
                            problems@.last()@,
                        ));
                    }
                },
                None => {
                    // The match could not be mapped back to the document:
                    // drop it and go on.
                },
            }
        }
        i = i + 1;
    }
    proof {
        assert(orig.take(i as int) =~= orig);
    }
    problems
}

/// Index of the first failed paragraph.
pub open spec fn first_err_index(outcomes: Seq<ParagraphOutcome>) -> int
    decreases outcomes.len(),
{
    if outcomes.len() == 0 {
        0
    } else if outcomes[0].outcome is Err {
        0
    } else {
        1 + first_err_index(outcomes.drop_first())
    }
}

/// The problems of a list of all-successful paragraph outcomes, in order.
pub open spec fn spec_collect_ok(
    t: Seq<u8>,
    outcomes: Seq<ParagraphOutcome>,
    ignores: Seq<Seq<u8>>,
) -> Seq<ProblemModel>
    decreases outcomes.len(),
{
    if outcomes.len() == 0 {
        Seq::empty()
    } else {
        let o = outcomes.last();
        spec_collect_ok(t, outcomes.drop_last(), ignores) + spec_problems_from(
            t,
            o.contributions@.map_values(|c: NodeContribution| c@),
            match o.outcome {
                Ok(ms) => ms@,
                Err(_) => Seq::empty(),
            },
            o.text@,
            ignores,
        )
    }
}

/// Turn every paragraph's outcome into located problems. If any
/// paragraph's service call failed, the whole check fails with the first
/// such error and produces no problems at all; reconciliation failures of
/// single matches are dropped silently and do not fail the check.
pub fn problems_from_outcomes(
    lines: &Lines,
    outcomes: &mut Vec<ParagraphOutcome>,
    ignore_words: &Vec<Vec<u8>>,
) -> (r: Result<Vec<Problem>, Error>)
    requires
        lines.wf(),
        lines.text@.len() < usize::MAX,
        forall|i: int|
            0 <= i < old(outcomes)@.len() ==> ((#[trigger] old(outcomes)@[i]).outcome matches Ok(ms)
                ==> forall|j: int|
                0 <= j < ms@.len() ==> (#[trigger] ms@[j]).offset + ms@[j].length
                    <= old(outcomes)@[i].text@.len()),
    ensures
        r is Ok <==> (forall|i: int|
            0 <= i < old(outcomes)@.len() ==> !((#[trigger] old(outcomes)@[i]).outcome is Err)),
        r matches Ok(ps) ==> ps@.map_values(|p: Problem| p@) == spec_collect_ok(
            lines.text@,
            old(outcomes)@,
            ignore_words@.map_values(|v: Vec<u8>| v@),
        ),
        r matches Err(e) ==> {
            let k = first_err_index(old(outcomes)@);
            &&& 0 <= k < old(outcomes)@.len()
            &&& old(outcomes)@[k].outcome matches Err(e0) && e == e0
        },
{
    let ghost orig = outcomes@;
    let ghost iv = ignore_words@.map_values(|v: Vec<u8>| v@);
    let mut problems: Vec<Problem> = Vec::new();

    let total = outcomes.len();
    proof {
        assert(orig.skip(0) =~= orig);
        assert(orig.len() == total);
    }
    let mut i: usize = 0;
    while outcomes.len() > 0
        invariant
            lines.wf(),
            lines.text@.len() < usize::MAX,
            iv == ignore_words@.map_values(|v: Vec<u8>| v@),
            orig == old(outcomes)@,
            orig.len() == total,
            i as int + outcomes@.len() == orig.len(),
            outcomes@ == orig.skip(i as int),
            forall|k: int|
                0 <= k < orig.len() ==> ((#[trigger] orig[k]).outcome matches Ok(ms) ==> forall|
                    j: int,
                |
                    0 <= j < ms@.len() ==> (#[trigger] ms@[j]).offset + ms@[j].length
                        <= orig[k].text@.len()),
            forall|k: int| 0 <= k < i ==> !((#[trigger] orig[k]).outcome is Err),
            problems@.map_values(|p: Problem| p@) == spec_collect_ok(
                lines.text@,
                orig.take(i as int),
                iv,
            ),
        decreases outcomes@.len(),
    {
        proof {
            assert(orig.skip(i as int)[0] == orig[i as int]);
            assert(orig.skip(i as int).drop_first() =~= orig.skip(i + 1));
            assert(orig.take(i + 1).drop_last() =~= orig.take(i as int));
            assert(orig.take(i + 1).last() == orig[i as int]);
        }
        let o = outcomes.remove(0);
        proof {
            assert(o == orig[i as int]);
        }
        let ghost prev = problems@.map_values(|p: Problem| p@);
        match o.outcome {
            Err(e) => {
                proof {
                    assert(orig[i as int].outcome is Err);
                    lemma_first_err_at(orig, i as int);
                }
                return Err(e);
            },
            Ok(ms) => {
                let mut ms = ms;
                proof {
                    assert(orig[i as int].outcome == Ok::<Vec<Match>, Error>(ms));
                }
                let mut new_problems = problems_from_matches(
                    lines,
                    &mut ms,
                    &o.text,
                    &o.contributions,
                    ignore_words,
                );
                let ghost nv = new_problems@.map_values(|p: Problem| p@);
                let ghost pg = problems@;
                let ghost cg = new_problems@;
                problems.append(&mut new_problems);
                proof {
                    assert(problems@ == pg + cg);
                    assert forall|j: int| 0 <= j < problems@.len() implies #[trigger] problems@[j]@
                        == (prev + nv)[j] by {
                        if j < pg.len() {
                            assert(problems@[j] == pg[j]);
                            assert(pg.map_values(|p: Problem| p@)[j] == pg[j]@);
                        } else {
                            assert(problems@[j] == cg[j - pg.len()]);
                            assert(cg.map_values(|p: Problem| p@)[j - pg.len()] == cg[j
                                - pg.len()]@);
                        }
                    }
                    assert(problems@.map_values(|p: Problem| p@) =~= prev + nv);
                }
            },
        }
        i = i + 1;
    }
    proof {
        assert(orig.take(i as int) =~= orig);
    }
    Ok(problems)
}

proof fn lemma_first_err_at(outcomes: Seq<ParagraphOutcome>, i: int)
    requires
        0 <= i < outcomes.len(),
        outcomes[i].outcome is Err,
        forall|k: int| 0 <= k < i ==> !((#[trigger] outcomes[k]).outcome is Err),
    ensures
        first_err_index(outcomes) == i,
    decreases outcomes.len(),
{
    if !(outcomes[0].outcome is Err) {
        assert forall|k: int| 0 <= k < i - 1 implies !(
        (#[trigger] outcomes.drop_first()[k]).outcome is Err) by {
            assert(outcomes.drop_first()[k] == outcomes[k + 1]);
        }
        assert(outcomes.drop_first()[i - 1] == outcomes[i]);
        lemma_first_err_at(outcomes.drop_first(), i - 1);
    }
}

} // verus!
