//! The match reconciler.
//!
//! A match reported by the external service locates an issue by a byte
//! offset into one paragraph's materialized text. Reconciliation finds the
//! fragment contribution containing the match's start, maps the offset
//! through the fragment's source location into a document byte offset, and
//! translates both ends into 1-based line/column positions. When no
//! contribution contains the offset, the fragment has no location, or a
//! translation fails, the match is dropped; the run goes on.

use vstd::prelude::*;

use crate::check_file::Match;
use crate::lines::{spec_byte_to_column, spec_byte_to_line, Lines};
use crate::paragraph::{ContribModel, NodeContribution};
use crate::range::{Position, Range};

verus! {

/// One located issue: the document range it concerns and the diagnostic
/// payload copied verbatim from the service's match (the context with
/// carriage returns stripped).
#[derive(Debug, Clone, PartialEq, Eq)]
pub struct Problem {
    pub range: Range,
    pub match_string: Vec<u8>,
    pub context: Vec<u8>,
    pub short_message: Vec<u8>,
    pub message: Vec<u8>,
    pub replacements: Vec<Vec<u8>>,
    pub rule_category: Vec<u8>,
    pub rule_id: Vec<u8>,
}

/// Mathematical image of a [`Problem`].
pub struct ProblemModel {
    pub range: Range,
    pub match_string: Seq<u8>,
    pub context: Seq<u8>,
    pub short_message: Seq<u8>,
    pub message: Seq<u8>,
    pub replacements: Seq<Seq<u8>>,
    pub rule_category: Seq<u8>,
    pub rule_id: Seq<u8>,
}

impl View for Problem {
    type V = ProblemModel;

    open spec fn view(&self) -> ProblemModel {
        ProblemModel {
            range: self.range,
            match_string: self.match_string@,
            context: self.context@,
            short_message: self.short_message@,
            message: self.message@,
            replacements: self.replacements@.map_values(|v: Vec<u8>| v@),
            rule_category: self.rule_category@,
            rule_id: self.rule_id@,
        }
    }
}

/// The index of the first contribution whose byte range contains offset
/// `off` (zero-length contributions never match).
pub open spec fn find_contribution(contribs: Seq<ContribModel>, off: int) -> Option<int>
    decreases contribs.len(),
{
    if contribs.len() == 0 {
        None
    } else if contribs[0].length != 0 && contribs[0].offset <= off < contribs[0].offset
        + contribs[0].length {
        Some(0)
    } else {
        match find_contribution(contribs.drop_first(), off) {
            Some(i) => Some(i + 1),
            None => None,
        }
    }
}

pub proof fn lemma_find_contribution_in_bounds(contribs: Seq<ContribModel>, off: int)
    requires
        find_contribution(contribs, off) is Some,
    ensures
        0 <= find_contribution(contribs, off)->0 < contribs.len(),
        ({
            let c = contribs[find_contribution(contribs, off)->0];
            c.length != 0 && c.offset <= off < c.offset + c.length
        }),
    decreases contribs.len(),
{
    if contribs.len() > 0 {
        if !(contribs[0].length != 0 && contribs[0].offset <= off < contribs[0].offset
            + contribs[0].length) {
            lemma_find_contribution_in_bounds(contribs.drop_first(), off);
        }
    }
}

/// `s` with every carriage return removed.
pub open spec fn strip_cr(s: Seq<u8>) -> Seq<u8>
    decreases s.len(),
{
    if s.len() == 0 {
        Seq::empty()
    } else if s.last() == 13 {
        strip_cr(s.drop_last())
    } else {
        strip_cr(s.drop_last()).push(s.last())
    }
}

/// What reconciling a match against a document and a contribution list
/// yields: the located problem, or nothing when the match cannot be
/// mapped.
pub open spec fn spec_reconcile(
    t: Seq<u8>,
    contribs: Seq<ContribModel>,
    m: Match,
    match_string: Seq<u8>,
) -> Option<ProblemModel> {
    match find_contribution(contribs, m.offset as int) {
        None => None,
        Some(ci) => {
            let c = contribs[ci];
            match c.span {
                None => None,
                Some(sp) => {
                    let d0 = sp.start + (m.offset - c.offset);
                    let d1 = d0 + m.length;
                    match (
                        spec_byte_to_column(t, d0),
                        spec_byte_to_line(t, d0),
                        spec_byte_to_column(t, d1),
                        spec_byte_to_line(t, d1),
                    ) {
                        (Some(c0), Some(l0), Some(c1), Some(l1)) => Some(
                            ProblemModel {
                                range: Range {
                                    start: Position {
                                        line: (l0 + 1) as usize,
                                        column: (c0 + 1) as usize,
                                    },
                                    end: Position {
                                        line: (l1 + 1) as usize,
                                        column: (c1 + 1) as usize,
                                    },
                                },
                                match_string: match_string,
                                context: strip_cr(m.context_text@),
                                short_message: m.short_message@,
                                message: m.message@,
                                replacements: m.replacements@.map_values(|v: Vec<u8>| v@),
                                rule_category: m.rule_category@,
                                rule_id: m.rule_id@,
                            },
                        ),
                        _ => None,
                    }
                },
            }
        },
    }
}

/// Round trip: when a match with local offset `o` is reconciled through a
/// contribution whose span resolves to document bytes `[d, d+n)`, the
/// resulting range is exactly the line/column translation of document
/// bytes `[d + (o - c.offset), d + (o - c.offset) + l)`.
pub proof fn lemma_round_trip(
    t: Seq<u8>,
    contribs: Seq<ContribModel>,
    m: Match,
    match_string: Seq<u8>,
)
    requires
        spec_reconcile(t, contribs, m, match_string) is Some,
    ensures
        ({
            let ci = find_contribution(contribs, m.offset as int)->0;
            let c = contribs[ci];
            let d0 = c.span->0.start + (m.offset - c.offset);
            let d1 = d0 + m.length;
            let p = spec_reconcile(t, contribs, m, match_string)->0;
            &&& 0 <= ci < contribs.len()
            &&& c.length != 0 && c.offset <= m.offset < c.offset + c.length
            &&& c.span is Some
            &&& p.range.start.line == ((spec_byte_to_line(t, d0)->0 + 1) as usize)
            &&& p.range.start.column == ((spec_byte_to_column(t, d0)->0 + 1) as usize)
            &&& p.range.end.line == ((spec_byte_to_line(t, d1)->0 + 1) as usize)
            &&& p.range.end.column == ((spec_byte_to_column(t, d1)->0 + 1) as usize)
            &&& p.match_string == match_string
        }),
{
    lemma_find_contribution_in_bounds(contribs, m.offset as int);
    let ci = find_contribution(contribs, m.offset as int)->0;
    assert(find_contribution(contribs, m.offset as int) == Some(ci));
    let c = contribs[ci];
    if c.span is None {
        assert(spec_reconcile(t, contribs, m, match_string) is None);
    } else {
        let d0 = c.span->0.start + (m.offset - c.offset);
        let d1 = d0 + m.length;
        if spec_byte_to_column(t, d0) is None || spec_byte_to_line(t, d0) is None
            || spec_byte_to_column(t, d1) is None || spec_byte_to_line(t, d1) is None {
            assert(spec_reconcile(t, contribs, m, match_string) is None);
        }
    }
}

/// Remove every carriage return from `s`.
fn strip_cr_exec(s: &Vec<u8>) -> (r: Vec<u8>)
    ensures
        r@ == strip_cr(s@),
{
    let mut r: Vec<u8> = Vec::new();
    let n = s.len();
    proof {
        assert(s@.take(0int) =~= Seq::<u8>::empty());
    }
    for i in 0..n
        invariant
            n == s@.len(),
            r@ == strip_cr(s@.take(i as int)),
    {
        proof {
            assert(s@.take(i + 1).drop_last() =~= s@.take(i as int));
            assert(s@.take(i + 1).last() == s@[i as int]);
        }
        let b = s[i];
        if b != 13 {
            r.push(b);
        }
    }
    proof {
        assert(s@.take(n as int) =~= s@);
    }
    r
}

impl Problem {
    /// Reconcile one reported match: locate the contribution containing
    /// its start, map the paragraph-local offset through that fragment's
    /// source span into document space, and translate both ends into
    /// 1-based line/column positions. Returns `None` when the match cannot
    /// be mapped; the diagnostic payload is carried over verbatim, with
    /// carriage returns stripped from the context.
    #[verifier::rlimit(60)]
    pub fn try_from_match(
        lines: &Lines,
        lt_match: Match,
        match_string: Vec<u8>,
        node_contributions: &Vec<NodeContribution>,
    ) -> (r: Option<Problem>)
        requires
            lines.wf(),
            lines.text@.len() < usize::MAX,
        ensures
            match r {
                Some(p) => spec_reconcile(
                    lines.text@,
                    node_contributions@.map_values(|c: NodeContribution| c@),
                    lt_match,
                    match_string@,
                ) == Some(p@),
                None => spec_reconcile(
                    lines.text@,
                    node_contributions@.map_values(|c: NodeContribution| c@),
                    lt_match,
                    match_string@,
                ) is None,
            },
    {
        let ghost cv = node_contributions@.map_values(|c: NodeContribution| c@);
        let match_start = lt_match.offset;

        // Find the contribution that contains the start of the match.
        let n = node_contributions.len();
        let mut idx: usize = 0;
        let mut found = false;
        proof {
            assert(cv.skip(0) =~= cv);
        }
        while idx < n && !found
            invariant
                n == node_contributions@.len(),
                cv == node_contributions@.map_values(|c: NodeContribution| c@),
                0 <= idx <= n,
                !found ==> (find_contribution(cv, match_start as int) is Some
                    <==> find_contribution(cv.skip(idx as int), match_start as int) is Some),
                !found && find_contribution(cv, match_start as int) is Some
                    ==> find_contribution(cv, match_start as int)->0 == find_contribution(
                    cv.skip(idx as int),
                    match_start as int,
                )->0 + idx,
                found ==> idx < n && find_contribution(cv, match_start as int) == Some(idx as int),
            decreases n - idx, (if found { 0int } else { 1int }),
        {
            let c = &node_contributions[idx];
            proof {
                assert(cv.skip(idx as int)[0] == cv[idx as int]);
                assert(cv.skip(idx as int).drop_first() =~= cv.skip(idx + 1));
            }
            if c.length != 0 && match_start >= c.offset && match_start - c.offset < c.length {
                found = true;
            } else {
                idx = idx + 1;
            }
        }
        if !found {
            proof {
                assert(cv.skip(n as int) =~= Seq::<ContribModel>::empty());
            }
            return None;
        }
        let start_contribution = &node_contributions[idx];
        proof {
            lemma_find_contribution_in_bounds(cv, match_start as int);
            assert(start_contribution@ == cv[idx as int]);
        }

        // Number of bytes into the fragment at which the match starts.
        let match_start_offset = match_start - start_contribution.offset;

        // The fragment's own start in document space.
        let node_start = match start_contribution.span {
            Some(sp) => sp.start,
            None => {
                return None;
            },
        };

        // The match's range in document space. A sum past the end of the
        // address space cannot lie inside the document, so translation
        // fails for it just as the position lookups below would.
        let doc_match_start = match node_start.checked_add(match_start_offset) {
            Some(v) => v,
            None => {
                proof {
                    assert(spec_byte_to_column(
                        lines.text@,
                        node_start + match_start_offset,
                    ) is None);
                }
                return None;
            },
        };
        let doc_match_end = match doc_match_start.checked_add(lt_match.length) {
            Some(v) => v,
            None => {
                proof {
                    assert(spec_byte_to_column(
                        lines.text@,
                        doc_match_start + lt_match.length,
                    ) is None);
                }
                return None;
            },
        };

        let start_column = match lines.byte_to_column(doc_match_start) {
            Some(v) => v,
            None => {
                return None;
            },
        };
        let start_line = match lines.byte_to_line(doc_match_start) {
            Some(v) => v,
            None => {
                return None;
            },
        };
        let end_column = match lines.byte_to_column(doc_match_end) {
            Some(v) => v,
            None => {
                return None;
            },
        };
        let end_line = match lines.byte_to_line(doc_match_end) {
            Some(v) => v,
            None => {
                return None;
            },
        };

        proof {
            let t = lines.text@;
            let starts = crate::lines::spec_line_starts(t);
            crate::lines::lemma_line_of_from_bounds(starts, 0, doc_match_start as int);
            crate::lines::lemma_line_of_from_bounds(starts, 0, doc_match_end as int);
            crate::lines::lemma_starts_from_bounds(t, 0);
            assert(starts.len() == lines.line_starts@.len());
            assert(start_line < lines.line_starts@.len());
            assert(end_line < lines.line_starts@.len());
            crate::lines::lemma_char_count_range_bound(
                t,
                starts[start_line as int],
                doc_match_start as int,
            );
            crate::lines::lemma_char_count_range_bound(
                t,
                starts[end_line as int],
                doc_match_end as int,
            );
        }

        let line_count = lines.line_starts.len();
        proof {
            assert(start_line < line_count);
            assert(end_line < line_count);
        }
        let range_start = Position { column: start_column + 1, line: start_line + 1 };
        let range_end = Position { column: end_column + 1, line: end_line + 1 };
        let range = Range { start: range_start, end: range_end };

        let corrected_context = strip_cr_exec(&lt_match.context_text);

        Some(
            Problem {
                range,
                match_string,
                context: corrected_context,
                short_message: lt_match.short_message,
                message: lt_match.message,
                replacements: lt_match.replacements,
                rule_category: lt_match.rule_category,
                rule_id: lt_match.rule_id,
            },
        )
    }
}

} // verus!
