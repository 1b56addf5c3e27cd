//! Run metadata: counts and timing accumulated over one whole check.

use vstd::prelude::*;

use crate::paragraph::Paragraph;
use crate::preprocessor::paras_view;
use crate::word_count::{count_words_naive, spec_count_words};

verus! {

/// What one check run amounted to: words checked, paragraphs sent, and the
/// wall-clock time the external-call phase took.
#[derive(Debug)]
pub struct Metadata {
    pub word_count: usize,
    pub paragraph_count: usize,
    pub languagetool_request_time: core::time::Duration,
}

/// The document's paragraphs joined with single spaces: the text whose
/// words the run counts.
pub open spec fn spec_joined_text(paras: Seq<Seq<crate::paragraph::FragModel>>) -> Seq<u8>
    decreases paras.len(),
{
    if paras.len() == 0 {
        Seq::empty()
    } else if paras.len() == 1 {
        crate::paragraph::para_text(paras[0])
    } else {
        spec_joined_text(paras.drop_last()) + seq![32u8] + crate::paragraph::para_text(
            paras.last(),
        )
    }
}

/// Materialize all paragraphs and join them with single spaces.
pub fn joined_document_text(paragraphs: &Vec<Paragraph>) -> (r: Vec<u8>)
    ensures
        r@ == spec_joined_text(paras_view(paragraphs@)),
{
    let ghost pv = paras_view(paragraphs@);
    let mut out: Vec<u8> = Vec::new();
    let n = paragraphs.len();
    proof {
        assert(pv.len() == paragraphs@.len());
        assert(out@ =~= spec_joined_text(pv.take(0)));
    }
    for i in 0..n
        invariant
            n == paragraphs@.len(),
            pv == paras_view(paragraphs@),
            out@ == spec_joined_text(pv.take(i as int)),
    {
        proof {
            assert(pv.take(i + 1).drop_last() =~= pv.take(i as int));
            assert(pv.take(i + 1).last() == pv[i as int]);
            assert(pv[i as int] == paragraphs@[i as int]@);
        }
        if i > 0 {
            out.push(32);
        }
        let (text, _contributions) = paragraphs[i].get_text();
        let ghost out_pre = out@;
        out.extend_from_slice(text.as_slice());
        proof {
            assert(out@ =~= out_pre + text@);
            if i == 0 {
                assert(out@ =~= spec_joined_text(pv.take(1)));
            } else {
                assert(out@ =~= spec_joined_text(pv.take(i as int)) + seq![32u8]
                    + crate::paragraph::para_text(pv[i as int]));
                assert(out@ =~= spec_joined_text(pv.take(i + 1)));
            }
        }
    }
    proof {
        assert(pv.take(n as int) =~= pv);
    }
    out
}

/// Compute the run's metadata: the word count of the whole checked text
/// (paragraphs joined with single spaces), the number of paragraphs sent,
/// and the external-call phase's duration as the caller measured it.
pub fn compute_metadata(paragraphs: &Vec<Paragraph>, request_time: core::time::Duration) -> (r:
    Metadata)
    ensures
        r.word_count as int == spec_count_words(
            spec_joined_text(paras_view(paragraphs@)),
            false,
        ),
        r.paragraph_count == paragraphs@.len(),
        r.languagetool_request_time == request_time,
{
    let text = joined_document_text(paragraphs);
    let word_count = count_words_naive(&text);
    Metadata {
        word_count,
        paragraph_count: paragraphs.len(),
        languagetool_request_time: request_time,
    }
}

} // verus!
