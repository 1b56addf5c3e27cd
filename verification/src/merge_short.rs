//! The short-paragraph merger.
//!
//! A single left-to-right pass: while the most recent output paragraph is
//! still shorter than the threshold, the next paragraph is folded into it,
//! separated by a synthetic break fragment, instead of starting a new
//! output entry. Only forward accumulation is performed: a trailing short
//! paragraph is never merged backward.

use vstd::prelude::*;

use crate::paragraph::{para_text, FragModel, Fragment, Paragraph};
use crate::preprocessor::paras_view;

verus! {

/// The synthetic separator placed between two merged paragraphs: a blank
/// line ("\r\n\r\n"), with no source location of its own.
pub open spec fn break_fragment_model() -> FragModel {
    FragModel { text: seq![13u8, 10u8, 13u8, 10u8], span: None }
}

/// One step of the merging pass: fold `p` into the last output paragraph
/// when that one is still short, else emit `p` as a new output entry. The
/// returned flag says whether the last output paragraph is now short.
pub open spec fn merge_step(
    out: Seq<Seq<FragModel>>,
    latest_is_short: bool,
    p: Seq<FragModel>,
    min: int,
) -> (Seq<Seq<FragModel>>, bool) {
    if latest_is_short {
        let merged = out.last().push(break_fragment_model()) + p;
        (out.update(out.len() - 1, merged), para_text(merged).len() < min)
    } else {
        (out.push(p), para_text(p).len() < min)
    }
}

/// The merging pass over `paras`, starting from the given output and flag.
pub open spec fn merge_from(
    paras: Seq<Seq<FragModel>>,
    out: Seq<Seq<FragModel>>,
    latest_is_short: bool,
    min: int,
) -> (Seq<Seq<FragModel>>, bool)
    decreases paras.len(),
{
    if paras.len() == 0 {
        (out, latest_is_short)
    } else {
        let st = merge_step(out, latest_is_short, paras[0], min);
        merge_from(paras.drop_first(), st.0, st.1, min)
    }
}

/// The merged form of a paragraph sequence.
pub open spec fn merge_spec(paras: Seq<Seq<FragModel>>, min: int) -> Seq<Seq<FragModel>> {
    merge_from(paras, Seq::empty(), false, min).0
}

/// Fold every paragraph that is shorter than `min_length` bytes of
/// materialized text into its predecessor, separated by a synthetic break
/// fragment.
pub fn merge_short(paragraphs: Vec<Paragraph>, min_length: usize) -> (output: Vec<Paragraph>)
    ensures
        paras_view(output@) == merge_spec(paras_view(paragraphs@), min_length as int),
{
    let ghost orig = paras_view(paragraphs@);
    let ghost min = min_length as int;
    let mut paragraphs = paragraphs;
    let mut output: Vec<Paragraph> = Vec::new();
    let mut latest_is_short = false;

    proof {
        assert(paras_view(output@) =~= Seq::<Seq<FragModel>>::empty());
    }

    while paragraphs.len() > 0
        invariant
            merge_from(paras_view(paragraphs@), paras_view(output@), latest_is_short, min)
                == merge_from(orig, Seq::empty(), false, min),
            latest_is_short ==> output@.len() > 0,
            min == min_length as int,
        decreases paragraphs@.len(),
    {
        let ghost pre_paras = paras_view(paragraphs@);
        let ghost pre_out = paras_view(output@);
        let ghost pre_short = latest_is_short;

        let mut paragraph = paragraphs.remove(0);
        let ghost pview = paragraph@;
        proof {
            assert(pview == pre_paras[0]);
            assert(paras_view(paragraphs@) =~= pre_paras.drop_first());
        }
        let ghost st = merge_step(pre_out, pre_short, pview, min);

        if latest_is_short {
            let mut latest = match output.pop() {
                Some(l) => l,
                None => Paragraph { nodes: Vec::new() },
            };
            let ghost latest0 = latest@;
            proof {
                assert(latest0 == pre_out.last());
            }

            let break_node = Fragment { text: vec![13u8, 10u8, 13u8, 10u8], span: None };
            proof {
                assert(break_node@.text =~= break_fragment_model().text);
                assert(break_node@ == break_fragment_model());
            }
            let ghost nodes0 = latest.nodes@;
            latest.nodes.push(break_node);
            latest.nodes.append(&mut paragraph.nodes);

            let ghost merged = latest0.push(break_fragment_model()) + pview;
            proof {
                assert forall|j: int| 0 <= j < latest@.len() implies latest@[j] == merged[j] by {
                    assert(latest@[j] == latest.nodes@[j]@);
                    if j < nodes0.len() {
                        assert(latest.nodes@[j] == nodes0[j]);
                        assert(latest0[j] == nodes0[j]@);
                    } else if j == nodes0.len() {
                        assert(latest.nodes@[j] == break_node);
                    } else {
                        assert(pview[j - nodes0.len() - 1] == latest.nodes@[j]@);
                    }
                }
                assert(latest@ =~= merged);
            }

            let length_now = latest.get_text().0.len();
            if length_now >= min_length {
                latest_is_short = false;
            }
            output.push(latest);
            proof {
                assert(paras_view(output@) =~= pre_out.update(pre_out.len() - 1, merged)) by {
                    assert forall|j: int| 0 <= j < paras_view(output@).len() implies paras_view(
                        output@,
                    )[j] == pre_out.update(pre_out.len() - 1, merged)[j] by {
                        assert(paras_view(output@)[j] == output@[j]@);
                    }
                }
                assert(latest_is_short == st.1);
            }
        } else {
            let length_now = paragraph.get_text().0.len();
            if length_now < min_length {
                latest_is_short = true;
            }
            let ghost po = output@;
            output.push(paragraph);
            proof {
                assert(paras_view(output@) =~= paras_view(po).push(pview));
                assert(latest_is_short == st.1);
            }
        }

        proof {
            assert(merge_from(pre_paras, pre_out, pre_short, min) == merge_from(
                pre_paras.drop_first(),
                st.0,
                st.1,
                min,
            ));
            assert(paras_view(output@) == st.0);
        }
    }

    proof {
        assert(paras_view(paragraphs@).len() == 0);
    }
    output
}

/// A merging pass leaves a sequence of already-long paragraphs unchanged.
pub proof fn lemma_merge_idempotent_on_long(paras: Seq<Seq<FragModel>>, min: int)
    requires
        forall|i: int| 0 <= i < paras.len() ==> para_text(#[trigger] paras[i]).len() >= min,
    ensures
        merge_spec(paras, min) == paras,
{
    lemma_merge_all_long(paras, Seq::empty(), min);
    assert(Seq::<Seq<FragModel>>::empty() + paras =~= paras);
}

proof fn lemma_merge_all_long(paras: Seq<Seq<FragModel>>, out: Seq<Seq<FragModel>>, min: int)
    requires
        forall|i: int| 0 <= i < paras.len() ==> para_text(#[trigger] paras[i]).len() >= min,
    ensures
        merge_from(paras, out, false, min).0 == out + paras,
    decreases paras.len(),
{
    if paras.len() == 0 {
        assert(out + paras =~= out);
    } else {
        assert(para_text(paras[0]).len() >= min);
        lemma_merge_all_long(paras.drop_first(), out.push(paras[0]), min);
        assert(out.push(paras[0]) + paras.drop_first() =~= out + paras);
    }
}

/// The state invariant of the merging pass: every output paragraph but the
/// last is long, and the flag mirrors whether the last one is short.
pub open spec fn merge_state_inv(out: Seq<Seq<FragModel>>, latest_is_short: bool, min: int) -> bool {
    &&& latest_is_short ==> out.len() > 0 && para_text(out.last()).len() < min
    &&& !latest_is_short ==> (out.len() == 0 || para_text(out.last()).len() >= min)
    &&& forall|i: int| 0 <= i < out.len() - 1 ==> para_text(#[trigger] out[i]).len() >= min
}

proof fn lemma_merge_from_preserves_inv(
    paras: Seq<Seq<FragModel>>,
    out: Seq<Seq<FragModel>>,
    latest_is_short: bool,
    min: int,
)
    requires
        merge_state_inv(out, latest_is_short, min),
    ensures
        merge_state_inv(
            merge_from(paras, out, latest_is_short, min).0,
            merge_from(paras, out, latest_is_short, min).1,
            min,
        ),
    decreases paras.len(),
{
    if paras.len() > 0 {
        let st = merge_step(out, latest_is_short, paras[0], min);
        assert(merge_state_inv(st.0, st.1, min)) by {
            if latest_is_short {
                let merged = out.last().push(break_fragment_model()) + paras[0];
                assert(st.0.last() == merged);
                assert forall|i: int| 0 <= i < st.0.len() - 1 implies para_text(
                    #[trigger] st.0[i],
                ).len() >= min by {
                    assert(st.0[i] == out[i]);
                }
            } else {
                assert forall|i: int| 0 <= i < st.0.len() - 1 implies para_text(
                    #[trigger] st.0[i],
                ).len() >= min by {
                    assert(st.0[i] == out[i]);
                    if i == out.len() - 1 {
                        assert(para_text(out.last()).len() >= min);
                    }
                }
            }
        }
        lemma_merge_from_preserves_inv(paras.drop_first(), st.0, st.1, min);
    }
}

/// After merging, at most the final paragraph is short: every output
/// paragraph before the last has at least `min` bytes of materialized
/// text.
pub proof fn lemma_merged_short_only_at_end(paras: Seq<Seq<FragModel>>, min: int)
    ensures
        forall|i: int|
            0 <= i < merge_spec(paras, min).len() - 1 ==> para_text(
                #[trigger] merge_spec(paras, min)[i],
            ).len() >= min,
{
    lemma_merge_from_preserves_inv(paras, Seq::empty(), false, min);
}


/// All paragraphs folded into one fragment list, with the synthetic break
/// fragment between each adjacent pair.
pub open spec fn collapse_all(paras: Seq<Seq<FragModel>>) -> Seq<FragModel>
    decreases paras.len(),
{
    if paras.len() == 0 {
        Seq::empty()
    } else if paras.len() == 1 {
        paras[0]
    } else {
        collapse_all(paras.drop_last()) + seq![break_fragment_model()] + paras.last()
    }
}

/// The paragraphs' materialized texts joined with the separator's bytes.
pub open spec fn texts_joined_with_breaks(paras: Seq<Seq<FragModel>>) -> Seq<u8>
    decreases paras.len(),
{
    if paras.len() == 0 {
        Seq::empty()
    } else if paras.len() == 1 {
        para_text(paras[0])
    } else {
        texts_joined_with_breaks(paras.drop_last()) + seq![13u8, 10u8, 13u8, 10u8] + para_text(
            paras.last(),
        )
    }
}

/// The collapsed paragraph materializes to the joined texts.
pub proof fn lemma_collapse_text(paras: Seq<Seq<FragModel>>)
    ensures
        para_text(collapse_all(paras)) == texts_joined_with_breaks(paras),
    decreases paras.len(),
{
    if paras.len() > 1 {
        lemma_collapse_text(paras.drop_last());
        let c = collapse_all(paras.drop_last());
        let b = seq![break_fragment_model()];
        crate::paragraph::lemma_para_text_concat(c + b, paras.last());
        crate::paragraph::lemma_para_text_concat(c, b);
        assert(para_text(b) =~= seq![13u8, 10u8, 13u8, 10u8]) by {
            assert(b.last() == break_fragment_model());
            assert(b.drop_last().len() == 0);
            assert(para_text(b) == para_text(b.drop_last()) + break_fragment_model().text);
            assert(Seq::<u8>::empty() + break_fragment_model().text
                =~= break_fragment_model().text);
        }
        assert((c + b) + paras.last() =~= collapse_all(paras));
        assert((para_text(c) + para_text(b)) + para_text(paras.last()) =~= texts_joined_with_breaks(
            paras,
        ));
    }
}

proof fn lemma_collapse_prefix_le(paras: Seq<Seq<FragModel>>, j: int)
    requires
        1 <= j <= paras.len(),
    ensures
        para_text(collapse_all(paras.take(j))).len() <= para_text(collapse_all(paras)).len(),
    decreases paras.len() - j,
{
    if j == paras.len() {
        assert(paras.take(j) =~= paras);
    } else {
        assert(paras.take(j + 1).drop_last() =~= paras.take(j));
        assert(paras.take(j + 1).last() == paras[j]);
        let c = collapse_all(paras.take(j));
        let b = seq![break_fragment_model()];
        assert(collapse_all(paras.take(j + 1)) == (c + b) + paras[j]);
        crate::paragraph::lemma_para_text_concat(c + b, paras[j]);
        crate::paragraph::lemma_para_text_concat(c, b);
        lemma_collapse_prefix_le(paras, j + 1);
    }
}

proof fn lemma_merge_fold_state(paras: Seq<Seq<FragModel>>, j: int, min: int)
    requires
        1 <= j <= paras.len(),
        para_text(collapse_all(paras)).len() < min,
    ensures
        merge_from(paras, Seq::empty(), false, min) == merge_from(
            paras.skip(j),
            seq![collapse_all(paras.take(j))],
            true,
            min,
        ),
    decreases j,
{
    if j == 1 {
        let st = merge_step(Seq::empty(), false, paras[0], min);
        assert(paras.take(1)[0] == paras[0]);
        assert(collapse_all(paras.take(1)) == paras[0]);
        assert(st.0 =~= seq![collapse_all(paras.take(1))]);
        lemma_collapse_prefix_le(paras, 1);
        assert(st.1 == true);
        assert(paras.drop_first() =~= paras.skip(1));
    } else {
        lemma_merge_fold_state(paras, j - 1, min);
        let rest = paras.skip(j - 1);
        assert(rest.len() > 0);
        assert(rest[0] == paras[j - 1]);
        let prev = collapse_all(paras.take(j - 1));
        let st = merge_step(seq![prev], true, rest[0], min);
        let merged = prev.push(break_fragment_model()) + rest[0];
        assert(seq![prev].last() == prev);
        assert(st.0 =~= seq![merged]);
        assert(paras.take(j).drop_last() =~= paras.take(j - 1));
        assert(paras.take(j).last() == paras[j - 1]);
        assert(merged =~= collapse_all(paras.take(j))) by {
            assert(collapse_all(paras.take(j)) == (prev + seq![break_fragment_model()]) + paras[j
                - 1]);
        }
        lemma_collapse_prefix_le(paras, j);
        assert(st.1 == true);
        assert(rest.drop_first() =~= paras.skip(j));
        assert(merge_from(rest, seq![prev], true, min) == merge_from(
            paras.skip(j),
            seq![collapse_all(paras.take(j))],
            true,
            min,
        ));
    }
}

/// Applied to a sequence of paragraphs so short that even with the 4-byte
/// separators their joined text stays below the threshold, the merging
/// pass collapses them all into one paragraph, whose text is the input
/// texts joined with the separator.
pub proof fn lemma_all_short_collapse_into_one(paras: Seq<Seq<FragModel>>, min: int)
    requires
        paras.len() >= 1,
        texts_joined_with_breaks(paras).len() < min,
    ensures
        merge_spec(paras, min) == seq![collapse_all(paras)],
        para_text(collapse_all(paras)) == texts_joined_with_breaks(paras),
{
    lemma_collapse_text(paras);
    lemma_merge_fold_state(paras, paras.len() as int, min);
    assert(paras.skip(paras.len() as int) =~= Seq::<Seq<FragModel>>::empty());
    assert(paras.take(paras.len() as int) =~= paras);
}

} // verus!
