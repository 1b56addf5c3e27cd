//! Deterministic ordering of the final problem list.
//!
//! Per-paragraph results arrive in completion order; before they are
//! handed to the presentation layer the problems are sorted by document
//! range, then by the remaining fields, so that a run's output is the
//! same whatever order the service's answers came back in.

use vstd::prelude::*;

use crate::problem::{Problem, ProblemModel};

verus! {

/// Outcome of comparing two values.
#[derive(Debug, Clone, Copy, PartialEq, Eq, Structural)]
pub enum Rel {
    Before,
    Same,
    After,
}

/// The opposite outcome.
pub open spec fn rel_flip(r: Rel) -> Rel {
    match r {
        Rel::Before => Rel::After,
        Rel::Same => Rel::Same,
        Rel::After => Rel::Before,
    }
}

/// Compare two integers.
pub open spec fn cmp_int(a: int, b: int) -> Rel {
    if a < b {
        Rel::Before
    } else if a > b {
        Rel::After
    } else {
        Rel::Same
    }
}

/// Compare two byte strings lexicographically.
pub open spec fn cmp_bytes(a: Seq<u8>, b: Seq<u8>) -> Rel
    decreases a.len(),
{
    if a.len() == 0 && b.len() == 0 {
        Rel::Same
    } else if a.len() == 0 {
        Rel::Before
    } else if b.len() == 0 {
        Rel::After
    } else if a[0] < b[0] {
        Rel::Before
    } else if a[0] > b[0] {
        Rel::After
    } else {
        cmp_bytes(a.drop_first(), b.drop_first())
    }
}

/// Compare two lists of byte strings lexicographically.
pub open spec fn cmp_byte_lists(a: Seq<Seq<u8>>, b: Seq<Seq<u8>>) -> Rel
    decreases a.len(),
{
    if a.len() == 0 && b.len() == 0 {
        Rel::Same
    } else if a.len() == 0 {
        Rel::Before
    } else if b.len() == 0 {
        Rel::After
    } else {
        match cmp_bytes(a[0], b[0]) {
            Rel::Same => cmp_byte_lists(a.drop_first(), b.drop_first()),
            r => r,
        }
    }
}

/// The second comparison breaks the first one's tie.
pub open spec fn chain(a: Rel, b: Rel) -> Rel {
    if a == Rel::Same {
        b
    } else {
        a
    }
}

/// Compare two problems: by range, then by every remaining field in
/// order.
pub open spec fn cmp_problems(a: ProblemModel, b: ProblemModel) -> Rel {
    chain(
        cmp_int(a.range.start.line as int, b.range.start.line as int),
        chain(
            cmp_int(a.range.start.column as int, b.range.start.column as int),
            chain(
                cmp_int(a.range.end.line as int, b.range.end.line as int),
                chain(
                    cmp_int(a.range.end.column as int, b.range.end.column as int),
                    chain(
                        cmp_bytes(a.match_string, b.match_string),
                        chain(
                            cmp_bytes(a.context, b.context),
                            chain(
                                cmp_bytes(a.short_message, b.short_message),
                                chain(
                                    cmp_bytes(a.message, b.message),
                                    chain(
                                        cmp_byte_lists(a.replacements, b.replacements),
                                        chain(
                                            cmp_bytes(a.rule_category, b.rule_category),
                                            cmp_bytes(a.rule_id, b.rule_id),
                                        ),
                                    ),
                                ),
                            ),
                        ),
                    ),
                ),
            ),
        ),
    )
}

/// Whether `a` sorts at or before `b`.
pub open spec fn problem_le(a: ProblemModel, b: ProblemModel) -> bool {
    cmp_problems(a, b) != Rel::After
}

proof fn lemma_cmp_bytes_flip(a: Seq<u8>, b: Seq<u8>)
    ensures
        cmp_bytes(b, a) == rel_flip(cmp_bytes(a, b)),
    decreases a.len(),
{
    if a.len() > 0 && b.len() > 0 && a[0] == b[0] {
        lemma_cmp_bytes_flip(a.drop_first(), b.drop_first());
    }
}

proof fn lemma_cmp_byte_lists_flip(a: Seq<Seq<u8>>, b: Seq<Seq<u8>>)
    ensures
        cmp_byte_lists(b, a) == rel_flip(cmp_byte_lists(a, b)),
    decreases a.len(),
{
    if a.len() > 0 && b.len() > 0 {
        lemma_cmp_bytes_flip(a[0], b[0]);
        if cmp_bytes(a[0], b[0]) == Rel::Same {
            lemma_cmp_byte_lists_flip(a.drop_first(), b.drop_first());
        }
    }
}

/// Comparing the other way around gives the opposite outcome; so of any
/// two problems at least one sorts at or before the other.
pub proof fn lemma_cmp_problems_flip(a: ProblemModel, b: ProblemModel)
    ensures
        cmp_problems(b, a) == rel_flip(cmp_problems(a, b)),
        problem_le(a, b) || problem_le(b, a),
{
    lemma_cmp_bytes_flip(a.match_string, b.match_string);
    lemma_cmp_bytes_flip(a.context, b.context);
    lemma_cmp_bytes_flip(a.short_message, b.short_message);
    lemma_cmp_bytes_flip(a.message, b.message);
    lemma_cmp_byte_lists_flip(a.replacements, b.replacements);
    lemma_cmp_bytes_flip(a.rule_category, b.rule_category);
    lemma_cmp_bytes_flip(a.rule_id, b.rule_id);
}

/// Compare two machine integers.
fn cmp_usize(a: usize, b: usize) -> (r: Rel)
    ensures
        r == cmp_int(a as int, b as int),
{
    if a < b {
        Rel::Before
    } else if a > b {
        Rel::After
    } else {
        Rel::Same
    }
}

/// Compare two byte strings.
fn cmp_bytes_exec(a: &Vec<u8>, b: &Vec<u8>) -> (r: Rel)
    ensures
        r == cmp_bytes(a@, b@),
{
    let mut i: usize = 0;
    let na = a.len();
    let nb = b.len();
    proof {
        assert(a@.skip(0) =~= a@);
        assert(b@.skip(0) =~= b@);
    }
    while i < na && i < nb
        invariant
            na == a@.len(),
            nb == b@.len(),
            i <= na,
            i <= nb,
            cmp_bytes(a@, b@) == cmp_bytes(a@.skip(i as int), b@.skip(i as int)),
        decreases na - i,
    {
        proof {
            assert(a@.skip(i as int)[0] == a@[i as int]);
            assert(b@.skip(i as int)[0] == b@[i as int]);
            assert(a@.skip(i as int).drop_first() =~= a@.skip(i + 1));
            assert(b@.skip(i as int).drop_first() =~= b@.skip(i + 1));
        }
        if a[i] < b[i] {
            return Rel::Before;
        }
        if a[i] > b[i] {
            return Rel::After;
        }
        i = i + 1;
    }
    proof {
        assert(a@.skip(i as int).len() == na - i);
        assert(b@.skip(i as int).len() == nb - i);
    }
    if na == i && nb == i {
        Rel::Same
    } else if na == i {
        Rel::Before
    } else {
        Rel::After
    }
}

/// Compare two lists of byte strings.
fn cmp_byte_lists_exec(a: &Vec<Vec<u8>>, b: &Vec<Vec<u8>>) -> (r: Rel)
    ensures
        r == cmp_byte_lists(a@.map_values(|v: Vec<u8>| v@), b@.map_values(|v: Vec<u8>| v@)),
{
    let ghost av = a@.map_values(|v: Vec<u8>| v@);
    let ghost bv = b@.map_values(|v: Vec<u8>| v@);
    let mut i: usize = 0;
    let na = a.len();
    let nb = b.len();
    proof {
        assert(av.skip(0) =~= av);
        assert(bv.skip(0) =~= bv);
    }
    while i < na && i < nb
        invariant
            av == a@.map_values(|v: Vec<u8>| v@),
            bv == b@.map_values(|v: Vec<u8>| v@),
            na == a@.len(),
            nb == b@.len(),
            i <= na,
            i <= nb,
            cmp_byte_lists(av, bv) == cmp_byte_lists(av.skip(i as int), bv.skip(i as int)),
        decreases na - i,
    {
        proof {
            assert(av.skip(i as int)[0] == av[i as int] && av[i as int] == a@[i as int]@);
            assert(bv.skip(i as int)[0] == bv[i as int] && bv[i as int] == b@[i as int]@);
            assert(av.skip(i as int).drop_first() =~= av.skip(i + 1));
            assert(bv.skip(i as int).drop_first() =~= bv.skip(i + 1));
        }
        let c = cmp_bytes_exec(&a[i], &b[i]);
        if c != Rel::Same {
            return c;
        }
        i = i + 1;
    }
    proof {
        assert(av.skip(i as int).len() == na - i);
        assert(bv.skip(i as int).len() == nb - i);
    }
    if na == i && nb == i {
        Rel::Same
    } else if na == i {
        Rel::Before
    } else {
        Rel::After
    }
}

/// Whether `a` sorts at or before `b`.
pub fn problem_le_exec(a: &Problem, b: &Problem) -> (r: bool)
    ensures
        r == problem_le(a@, b@),
{
    let mut c = cmp_usize(a.range.start.line, b.range.start.line);
    if c == Rel::Same {
        c = cmp_usize(a.range.start.column, b.range.start.column);
    }
    if c == Rel::Same {
        c = cmp_usize(a.range.end.line, b.range.end.line);
    }
    if c == Rel::Same {
        c = cmp_usize(a.range.end.column, b.range.end.column);
    }
    if c == Rel::Same {
        c = cmp_bytes_exec(&a.match_string, &b.match_string);
    }
    if c == Rel::Same {
        c = cmp_bytes_exec(&a.context, &b.context);
    }
    if c == Rel::Same {
        c = cmp_bytes_exec(&a.short_message, &b.short_message);
    }
    if c == Rel::Same {
        c = cmp_bytes_exec(&a.message, &b.message);
    }
    if c == Rel::Same {
        c = cmp_byte_lists_exec(&a.replacements, &b.replacements);
    }
    if c == Rel::Same {
        c = cmp_bytes_exec(&a.rule_category, &b.rule_category);
    }
    if c == Rel::Same {
        c = cmp_bytes_exec(&a.rule_id, &b.rule_id);
    }
    c != Rel::After
}

/// Whether each problem sorts at or before its successor.
pub open spec fn problems_sorted(ps: Seq<ProblemModel>) -> bool {
    forall|k: int| 0 <= k < ps.len() - 1 ==> problem_le(#[trigger] ps[k], ps[k + 1])
}

proof fn lemma_insert_to_multiset(s: Seq<Problem>, k: int, x: Problem)
    requires
        0 <= k <= s.len(),
    ensures
        s.insert(k, x).to_multiset() == s.to_multiset().insert(x),
    decreases s.len() - k,
{
    broadcast use vstd::seq_lib::group_to_multiset_ensures;

    if k == s.len() {
        assert(s.insert(k, x) =~= s.push(x));
    } else {
        assert(s.insert(k, x).drop_last() =~= s.drop_last().insert(k, x));
        assert(s.insert(k, x).last() == s.last());
        assert(s.insert(k, x) =~= s.drop_last().insert(k, x).push(s.last()));
        lemma_insert_to_multiset(s.drop_last(), k, x);
        assert(s.drop_last().push(s.last()) =~= s);
        assert(s.drop_last().insert(k, x).push(s.last()).to_multiset() =~= s.drop_last().insert(
            k,
            x,
        ).to_multiset().insert(s.last()));
        assert(s.to_multiset() =~= s.drop_last().to_multiset().insert(s.last()));
        assert(s.drop_last().insert(k, x).to_multiset() == s.drop_last().to_multiset().insert(x));
        assert(s.drop_last().to_multiset().insert(x).insert(s.last()) =~= s.drop_last()
            .to_multiset().insert(s.last()).insert(x));
    }
}

/// Sort the problems by document range, then by the remaining fields:
/// afterward each problem sorts at or before its successor, and the
/// collection of problems is unchanged.
pub fn sort_problems(problems: &mut Vec<Problem>)
    ensures
        final(problems)@.len() == old(problems)@.len(),
        problems_sorted(final(problems)@.map_values(|p: Problem| p@)),
        final(problems)@.to_multiset() == old(problems)@.to_multiset(),
{
    broadcast use vstd::seq_lib::group_to_multiset_ensures;

    let n = problems.len();
    let mut i: usize = if n == 0 {
        0
    } else {
        1
    };
    while i < n
        invariant
            n == problems@.len(),
            problems@.len() == old(problems)@.len(),
            n == 0 ==> i == 0,
            n > 0 ==> 1 <= i <= n,
            problems@.to_multiset() == old(problems)@.to_multiset(),
            problems_sorted(problems@.map_values(|p: Problem| p@).take(i as int)),
        decreases n - i,
    {
        let ghost before = problems@;
        let x = problems.remove(i);
        proof {
            broadcast use vstd::seq_lib::group_to_multiset_ensures;
            broadcast use vstd::multiset::group_multiset_axioms;

            assert(before.remove(i as int).to_multiset() =~= before.to_multiset().remove(
                before[i as int],
            ));
        }

        let mut k: usize = 0;
        while k < i && problem_le_exec(&problems[k], &x)
            invariant
                n == before.len(),
                problems@ == before.remove(i as int),
                0 < i < n,
                k <= i,
                x == before[i as int],
                forall|j: int| 0 <= j < k ==> problem_le(#[trigger] problems@[j]@, x@),
            decreases i - k,
        {
            k = k + 1;
        }

        let ghost mid = problems@;
        problems.insert(k, x);
        proof {
            broadcast use vstd::seq_lib::group_to_multiset_ensures;
            broadcast use vstd::multiset::group_multiset_axioms;

            lemma_insert_to_multiset(mid, k as int, x);
            assert(mid.to_multiset().insert(x) =~= before.to_multiset().remove(before[i as int])
                .insert(before[i as int]));
            assert(before.to_multiset().remove(before[i as int]).insert(before[i as int])
                =~= before.to_multiset()) by {
                assert(before.to_multiset().contains(before[i as int]));
            }

            let pv = problems@.map_values(|p: Problem| p@);
            let mv = mid.map_values(|p: Problem| p@);
            assert forall|j: int| 0 <= j < i + 1 - 1 implies problem_le(
                #[trigger] pv.take(i + 1)[j],
                pv.take(i + 1)[j + 1],
            ) by {
                assert(pv[j] == problems@[j]@);
                assert(pv[j + 1] == problems@[j + 1]@);
                if j + 1 < k {
                    assert(problems@[j] == mid[j] && problems@[j + 1] == mid[j + 1]);
                    assert(mid[j] == before[j] && mid[j + 1] == before[j + 1]);
                    assert(before.map_values(|p: Problem| p@).take(i as int)[j] == before[j]@);
                } else if j + 1 == k {
                    assert(problems@[j] == mid[j]);
                    assert(problems@[j + 1] == x);
                    assert(mv[j] == mid[j]@);
                } else if j == k {
                    assert(problems@[j] == x);
                    assert(problems@[j + 1] == mid[j]);
                    assert(mv[j] == mid[j]@);
                    if k < i {
                        assert(!problem_le(mid[k as int]@, x@));
                        lemma_cmp_problems_flip(mid[k as int]@, x@);
                    }
                } else {
                    assert(problems@[j] == mid[j - 1] && problems@[j + 1] == mid[j]);
                    assert(mid[j - 1] == before[j - 1] && mid[j] == before[j]);
                    assert(before.map_values(|p: Problem| p@).take(i as int)[j - 1] == before[j
                        - 1]@);
                }
            }
            assert(problems_sorted(problems@.map_values(|p: Problem| p@).take(i + 1)));
        }
        i = i + 1;
    }
    proof {
        assert(problems@.map_values(|p: Problem| p@).take(i as int) =~= problems@.map_values(
            |p: Problem| p@,
        ));
    }
}

} // verus!
