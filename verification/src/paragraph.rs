//! Paragraphs and their materialized text.
//!
//! A paragraph is an ordered list of text-bearing fragments collected by the
//! segmenter. Materializing a paragraph concatenates the fragments' bytes
//! and records, for each fragment, which byte range of the materialized
//! text it produced.

use vstd::prelude::*;

use crate::syntax::Span;

verus! {

/// One text-bearing fragment of a paragraph: its literal bytes and the
/// source location it came from (`None` for synthesized fragments that have
/// no location of their own).
#[derive(Debug, Clone)]
pub struct Fragment {
    pub text: Vec<u8>,
    pub span: Option<Span>,
}

/// Mathematical image of a [`Fragment`].
pub struct FragModel {
    pub text: Seq<u8>,
    pub span: Option<Span>,
}

impl View for Fragment {
    type V = FragModel;

    open spec fn view(&self) -> FragModel {
        FragModel { text: self.text@, span: self.span }
    }
}

/// One contiguous unit of checkable prose: the fragments it is assembled
/// from, in document order.
#[derive(Debug, Clone)]
pub struct Paragraph {
    pub nodes: Vec<Fragment>,
}

impl View for Paragraph {
    type V = Seq<FragModel>;

    open spec fn view(&self) -> Seq<FragModel> {
        self.nodes@.map_values(|f: Fragment| f@)
    }
}

/// Records that one fragment, identified by its source location, produced
/// `length` bytes of the paragraph's materialized text starting at
/// `offset`.
#[derive(Debug, Clone, Copy, PartialEq, Eq, Structural)]
pub struct NodeContribution {
    pub span: Option<Span>,
    pub offset: usize,
    pub length: usize,
}

/// Mathematical image of a [`NodeContribution`], with unbounded offsets.
pub struct ContribModel {
    pub span: Option<Span>,
    pub offset: int,
    pub length: int,
}

impl View for NodeContribution {
    type V = ContribModel;

    open spec fn view(&self) -> ContribModel {
        ContribModel { span: self.span, offset: self.offset as int, length: self.length as int }
    }
}

/// The materialized text of a list of fragments: their bytes concatenated
/// in order.
pub open spec fn para_text(frags: Seq<FragModel>) -> Seq<u8>
    decreases frags.len(),
{
    if frags.len() == 0 {
        Seq::empty()
    } else {
        para_text(frags.drop_last()) + frags.last().text
    }
}

/// The contribution list that materializing `frags` yields: entry `i`
/// covers the bytes that fragment `i` contributed.
pub open spec fn contributions_of(frags: Seq<FragModel>) -> Seq<ContribModel> {
    Seq::new(
        frags.len(),
        |i: int|
            ContribModel {
                span: frags[i].span,
                offset: para_text(frags.take(i)).len() as int,
                length: frags[i].text.len() as int,
            },
    )
}

/// Appending a fragment extends the materialized text by that fragment's
/// bytes.
pub proof fn lemma_para_text_push(frags: Seq<FragModel>, f: FragModel)
    ensures
        para_text(frags.push(f)) == para_text(frags) + f.text,
{
    assert(frags.push(f).drop_last() =~= frags);
    assert(frags.push(f).last() == f);
}

/// Materialized text distributes over concatenation of fragment lists.
pub proof fn lemma_para_text_concat(a: Seq<FragModel>, b: Seq<FragModel>)
    ensures
        para_text(a + b) == para_text(a) + para_text(b),
    decreases b.len(),
{
    if b.len() == 0 {
        assert(a + b =~= a);
        assert(para_text(a) + para_text(b) =~= para_text(a));
    } else {
        assert((a + b).drop_last() =~= a + b.drop_last());
        assert((a + b).last() == b.last());
        lemma_para_text_concat(a, b.drop_last());
        assert((para_text(a) + para_text(b.drop_last())) + b.last().text =~= para_text(a) + (
        para_text(b.drop_last()) + b.last().text));
    }
}

/// The materialized text is as long as the fragments' texts together.
pub proof fn lemma_para_text_len(frags: Seq<FragModel>)
    ensures
        para_text(frags).len() == sum_text_len(frags),
    decreases frags.len(),
{
    if frags.len() > 0 {
        lemma_para_text_len(frags.drop_last());
    }
}

/// Total byte length of the fragments' texts.
pub open spec fn sum_text_len(frags: Seq<FragModel>) -> nat
    decreases frags.len(),
{
    if frags.len() == 0 {
        0
    } else {
        sum_text_len(frags.drop_last()) + frags.last().text.len()
    }
}

impl Paragraph {
    /// Materialize the paragraph: concatenate the fragments' bytes in order
    /// and record each fragment's contribution to the result.
    pub fn get_text(&self) -> (r: (Vec<u8>, Vec<NodeContribution>))
        ensures
            r.0@ == para_text(self@),
            r.1@.map_values(|c: NodeContribution| c@) == contributions_of(self@),
    {
        let mut output: Vec<u8> = Vec::new();
        let mut node_contributions: Vec<NodeContribution> = Vec::new();

        let n = self.nodes.len();
        for i in 0..n
            invariant
                n == self.nodes.len(),
                output@ == para_text(self@.take(i as int)),
                node_contributions@.len() == i,
                node_contributions@.map_values(|c: NodeContribution| c@) == contributions_of(
                    self@,
                ).take(i as int),
        {
            let node = &self.nodes[i];
            let offset = output.len();
            let length = node.text.len();

            proof {
                assert(self@.take(i as int).push(self.nodes[i as int]@) =~= self@.take(i + 1));
                lemma_para_text_push(self@.take(i as int), self.nodes[i as int]@);
            }

            output.extend_from_slice(node.text.as_slice());

            let node_contribution = NodeContribution { span: node.span, offset, length };
            node_contributions.push(node_contribution);

            proof {
                assert(self@[i as int] == self.nodes[i as int]@);
                assert(output@ =~= para_text(self@.take(i + 1)));
                let cv = node_contributions@.map_values(|c: NodeContribution| c@);
                assert(node_contribution@ == contributions_of(self@)[i as int]);
                assert forall|j: int| 0 <= j < i + 1 implies cv[j] == contributions_of(
                    self@,
                ).take(i + 1)[j] by {
                    assert(cv[j] == node_contributions@[j]@);
                }
                assert(cv =~= contributions_of(self@).take(i + 1));
            }
        }
        proof {
            assert(self@.take(n as int) =~= self@);
            assert(contributions_of(self@).take(n as int) =~= contributions_of(self@));
        }

        (output, node_contributions)
    }
}

/// The contribution list of a materialization is a partition of the text:
/// contributions are contiguous, start at offset zero, and their lengths
/// sum to the text's length.
pub proof fn lemma_contributions_partition_text(frags: Seq<FragModel>)
    ensures
        para_text(frags).len() == sum_contribution_len(contributions_of(frags)),
        frags.len() > 0 ==> contributions_of(frags)[0].offset == 0,
        forall|i: int|
            0 <= i < frags.len() - 1 ==> #[trigger] contributions_of(frags)[i + 1].offset
                == contributions_of(frags)[i].offset + contributions_of(frags)[i].length,
    decreases frags.len(),
{
    let contribs = contributions_of(frags);
    assert(frags.take(0).len() == 0);
    lemma_para_text_len(frags);
    lemma_sum_contribution_matches(frags);
    assert forall|i: int| 0 <= i < frags.len() - 1 implies #[trigger] contribs[i + 1].offset
        == contribs[i].offset + contribs[i].length by {
        assert(frags.take(i).push(frags[i]) =~= frags.take(i + 1));
        lemma_para_text_push(frags.take(i), frags[i]);
        lemma_para_text_len(frags.take(i + 1));
        lemma_para_text_len(frags.take(i));
    }
}

/// Total length recorded by a contribution list.
pub open spec fn sum_contribution_len(contribs: Seq<ContribModel>) -> int
    decreases contribs.len(),
{
    if contribs.len() == 0 {
        0
    } else {
        sum_contribution_len(contribs.drop_last()) + contribs.last().length
    }
}

proof fn lemma_sum_contribution_matches(frags: Seq<FragModel>)
    ensures
        sum_contribution_len(contributions_of(frags)) == sum_text_len(frags),
    decreases frags.len(),
{
    if frags.len() > 0 {
        lemma_sum_contribution_matches(frags.drop_last());
        assert(contributions_of(frags).drop_last() =~= contributions_of(frags.drop_last())) by {
            assert forall|i: int| 0 <= i < frags.len() - 1 implies contributions_of(
                frags,
            ).drop_last()[i] == contributions_of(frags.drop_last())[i] by {
                assert(frags.take(i) =~= frags.drop_last().take(i));
            }
        }
        assert(contributions_of(frags).last().length == frags.last().text.len());
    }
}

} // verus!
