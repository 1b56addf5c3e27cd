//! The tree segmenter.
//!
//! Walks the document tree depth first, carrying the paragraph being built
//! and a code-mode flag, and produces the ordered sequence of paragraphs of
//! checkable prose. Paragraphs are separated by paragraph-break nodes; raw
//! blocks, equations and field accesses are replaced by placeholder tokens;
//! import/comment/marker nodes are ignored; inside calls, rules and
//! bindings only nested markup regions contribute.

use vstd::prelude::*;

use crate::paragraph::{FragModel, Fragment, Paragraph};
use crate::syntax::{
    classify, placeholder_text, spec_classify, spec_placeholder_text, Action, SyntaxNode,
};

verus! {

/// The fragment a text-bearing node contributes: its literal bytes and its
/// location.
pub open spec fn frag_model_of(node: SyntaxNode) -> FragModel {
    FragModel { text: node.text@, span: node.span }
}

/// The fragment substituted for a placeholder node: the synthetic token,
/// located at the replaced node.
pub open spec fn placeholder_model_of(node: SyntaxNode) -> FragModel {
    FragModel { text: spec_placeholder_text(node.kind), span: node.span }
}

/// The views of a list of paragraphs.
pub open spec fn paras_view(ps: Seq<Paragraph>) -> Seq<Seq<FragModel>> {
    ps.map_values(|p: Paragraph| p@)
}

/// Segmenting one node: from the paragraph built so far and the code-mode
/// flag, the paragraphs sealed inside this subtree and the paragraph still
/// open after it.
pub open spec fn seg_node(node: SyntaxNode, cur: Seq<FragModel>, code_mode: bool) -> (Seq<
    Seq<FragModel>,
>, Seq<FragModel>)
    decreases node, 1int,
{
    match spec_classify(node.kind, code_mode) {
        Action::Ignore => (Seq::empty(), cur),
        Action::Placeholder => (
            Seq::empty(),
            if cur.len() > 0 {
                cur.push(placeholder_model_of(node))
            } else {
                cur
            },
        ),
        Action::BreakParagraph => {
            let rec = seg_children(
                node.children@,
                if cur.len() > 0 {
                    Seq::empty()
                } else {
                    cur
                },
                code_mode,
            );
            (
                if cur.len() > 0 {
                    seq![cur] + rec.0
                } else {
                    rec.0
                },
                rec.1,
            )
        },
        Action::EnterCode => seg_children(node.children@, cur, true),
        Action::ExitCode => seg_children(node.children@, cur, false),
        Action::StayCode => seg_children(node.children@, cur, true),
        Action::Whitespace => {
            if node.text@.len() == 0 {
                seg_children(node.children@, cur, code_mode)
            } else if cur.len() == 0 {
                (Seq::empty(), cur)
            } else {
                seg_children(node.children@, cur.push(frag_model_of(node)), code_mode)
            }
        },
        Action::TextBearing => {
            if node.text@.len() == 0 {
                seg_children(node.children@, cur, code_mode)
            } else {
                seg_children(node.children@, cur.push(frag_model_of(node)), code_mode)
            }
        },
    }
}

/// Segmenting a list of children in order, threading the open paragraph
/// through and concatenating the sealed paragraphs.
pub open spec fn seg_children(
    children: Seq<SyntaxNode>,
    cur: Seq<FragModel>,
    code_mode: bool,
) -> (Seq<Seq<FragModel>>, Seq<FragModel>)
    decreases children, 0int,
{
    if children.len() == 0 {
        (Seq::empty(), cur)
    } else {
        let first = seg_node(children[0], cur, code_mode);
        let rest = seg_children(children.drop_first(), first.1, code_mode);
        (first.0 + rest.0, rest.1)
    }
}

/// The full segmentation of a tree: all sealed paragraphs, plus the still
/// open one if it is non-empty.
pub open spec fn spec_preprocess(root: SyntaxNode) -> Seq<Seq<FragModel>> {
    let r = seg_node(root, Seq::empty(), false);
    if r.1.len() > 0 {
        r.0.push(r.1)
    } else {
        r.0
    }
}

/// Copy a byte vector.
fn clone_bytes(v: &Vec<u8>) -> (r: Vec<u8>)
    ensures
        r@ == v@,
{
    let mut r: Vec<u8> = Vec::new();
    r.extend_from_slice(v.as_slice());
    proof {
        assert(r@ =~= v@);
    }
    r
}

/// Walk the children of a node in order, accumulating sealed paragraphs
/// into `paragraphs` and threading the open paragraph through.
fn walk_children(
    children: &Vec<SyntaxNode>,
    paragraphs: &mut Vec<Paragraph>,
    current_paragraph: Paragraph,
    code_mode: bool,
) -> (r: Paragraph)
    ensures
        paras_view(final(paragraphs)@) == paras_view(old(paragraphs)@) + seg_children(
            children@,
            current_paragraph@,
            code_mode,
        ).0,
        r@ == seg_children(children@, current_paragraph@, code_mode).1,
    decreases children@, 0int,
{
    let ghost cur0 = current_paragraph@;
    let ghost p0 = paragraphs@;
    let ghost full = seg_children(children@, cur0, code_mode);

    let mut current_paragraph = current_paragraph;
    proof {
        assert(children@.skip(0) =~= children@);
    }
    let n = children.len();
    for i in 0..n
        invariant
            n == children@.len(),
            full == seg_children(children@, cur0, code_mode),
            paras_view(paragraphs@) + seg_children(
                children@.skip(i as int),
                current_paragraph@,
                code_mode,
            ).0 == paras_view(p0) + full.0,
            seg_children(children@.skip(i as int), current_paragraph@, code_mode).1 == full.1,
        decreases n - i,
    {
        let ghost cur_i = current_paragraph@;
        proof {
            assert(children@.skip(i as int)[0] == children@[i as int]);
            assert(children@.skip(i as int).drop_first() =~= children@.skip(i + 1));
        }

        let (mut child_groups, new_current) = recursively_build_paragraphs(
            &children[i],
            current_paragraph,
            code_mode,
        );
        let ghost first = seg_node(children@[i as int], cur_i, code_mode);
        let ghost pg = paragraphs@;
        let ghost cg = child_groups@;
        paragraphs.append(&mut child_groups);
        current_paragraph = new_current;

        proof {
            assert(paragraphs@ == pg + cg);
            assert(paras_view(paragraphs@) =~= paras_view(pg) + paras_view(cg)) by {
                assert(paras_view(paragraphs@).len() == pg.len() + cg.len());
                assert forall|j: int| 0 <= j < paragraphs@.len() implies paras_view(paragraphs@)[j]
                    == (paras_view(pg) + paras_view(cg))[j] by {
                    assert(paras_view(paragraphs@)[j] == paragraphs@[j]@);
                    if j < pg.len() {
                        assert(paragraphs@[j] == pg[j]);
                        assert(paras_view(pg)[j] == pg[j]@);
                    } else {
                        assert(paragraphs@[j] == cg[j - pg.len()]);
                        assert(paras_view(cg)[j - pg.len()] == cg[j - pg.len()]@);
                    }
                }
            }
            assert(paras_view(pg) + (first.0 + seg_children(
                children@.skip(i + 1),
                current_paragraph@,
                code_mode,
            ).0) =~= (paras_view(pg) + first.0) + seg_children(
                children@.skip(i + 1),
                current_paragraph@,
                code_mode,
            ).0);
        }
    }
    proof {
        assert(children@.skip(n as int) =~= Seq::<SyntaxNode>::empty());
        assert(paras_view(paragraphs@) + Seq::<Seq<FragModel>>::empty() =~= paras_view(
            paragraphs@,
        ));
        assert(paras_view(p0) + full.0 =~= paras_view(p0) + seg_children(
            children@,
            cur0,
            code_mode,
        ).0);
    }
    current_paragraph
}

/// Segment the subtree rooted at `node`: apply the classifier's action,
/// then walk the children where the action does not consume the whole
/// subtree. Returns the paragraphs sealed inside the subtree and the
/// paragraph still open after it.
pub fn recursively_build_paragraphs(
    node: &SyntaxNode,
    current_paragraph: Paragraph,
    code_mode: bool,
) -> (r: (Vec<Paragraph>, Paragraph))
    ensures
        paras_view(r.0@) == seg_node(*node, current_paragraph@, code_mode).0,
        r.1@ == seg_node(*node, current_paragraph@, code_mode).1,
    decreases *node, 1int,
{
    let ghost cur0 = current_paragraph@;
    let mut paragraphs: Vec<Paragraph> = Vec::new();
    let mut current_paragraph = current_paragraph;
    let mut child_mode = code_mode;

    proof {
        assert(paras_view(paragraphs@) =~= Seq::<Seq<FragModel>>::empty());
    }

    match classify(node.kind, code_mode) {
        Action::Ignore => {
            return (paragraphs, current_paragraph);
        },
        Action::Placeholder => {
            if current_paragraph.nodes.len() > 0 {
                let fake = Fragment { text: placeholder_text(node.kind), span: node.span };
                proof {
                    assert(fake@ == placeholder_model_of(*node));
                    assert(current_paragraph@.len() == cur0.len());
                }
                current_paragraph.nodes.push(fake);
                proof {
                    assert(current_paragraph@ =~= cur0.push(placeholder_model_of(*node)));
                }
            }
            return (paragraphs, current_paragraph);
        },
        Action::BreakParagraph => {
            if current_paragraph.nodes.len() > 0 {
                paragraphs.push(current_paragraph);
                current_paragraph = Paragraph { nodes: Vec::new() };
                proof {
                    assert(paras_view(paragraphs@) =~= seq![cur0]);
                    assert(current_paragraph@ =~= Seq::<FragModel>::empty());
                }
            }
        },
        Action::EnterCode | Action::StayCode => {
            child_mode = true;
        },
        Action::ExitCode => {
            child_mode = false;
        },
        Action::Whitespace => {
            if node.text.len() > 0 {
                if current_paragraph.nodes.len() == 0 {
                    return (paragraphs, current_paragraph);
                } else {
                    let frag = Fragment { text: clone_bytes(&node.text), span: node.span };
                    proof {
                        assert(frag@ == frag_model_of(*node));
                    }
                    current_paragraph.nodes.push(frag);
                    proof {
                        assert(current_paragraph@ =~= cur0.push(frag_model_of(*node)));
                    }
                }
            }
        },
        Action::TextBearing => {
            if node.text.len() > 0 {
                let frag = Fragment { text: clone_bytes(&node.text), span: node.span };
                proof {
                    assert(frag@ == frag_model_of(*node));
                }
                current_paragraph.nodes.push(frag);
                proof {
                    assert(current_paragraph@ =~= cur0.push(frag_model_of(*node)));
                }
            }
        },
    }

    let final_paragraph = walk_children(
        &node.children,
        &mut paragraphs,
        current_paragraph,
        child_mode,
    );

    proof {
        let s = seg_node(*node, cur0, code_mode);
        if spec_classify(node.kind, code_mode) == Action::BreakParagraph && cur0.len() > 0 {
            assert(paras_view(paragraphs@) =~= seq![cur0] + seg_children(
                node.children@,
                Seq::<FragModel>::empty(),
                child_mode,
            ).0);
        }
        assert(paras_view(paragraphs@) == s.0 && final_paragraph@ == s.1);
    }

    (paragraphs, final_paragraph)
}

/// Segment a whole document tree into its checkable paragraphs, in document
/// order; every returned paragraph is non-empty.
pub fn preprocess(root: &SyntaxNode) -> (paragraphs: Vec<Paragraph>)
    ensures
        paras_view(paragraphs@) == spec_preprocess(*root),
{
    let empty = Paragraph { nodes: Vec::new() };
    proof {
        assert(empty@ =~= Seq::<FragModel>::empty());
    }
    let (mut paragraphs, partial_paragraph) = recursively_build_paragraphs(root, empty, false);

    if partial_paragraph.nodes.len() > 0 {
        let ghost pg = paragraphs@;
        let ghost pv = partial_paragraph@;
        paragraphs.push(partial_paragraph);
        proof {
            assert(paras_view(paragraphs@) =~= paras_view(pg).push(pv));
        }
    }

    paragraphs
}

/// Whether every group in the list is non-empty.
pub open spec fn groups_nonempty(gs: Seq<Seq<FragModel>>) -> bool {
    forall|i: int| 0 <= i < gs.len() ==> (#[trigger] gs[i]).len() > 0
}

proof fn lemma_seg_node_groups_nonempty(node: SyntaxNode, cur: Seq<FragModel>, code_mode: bool)
    ensures
        groups_nonempty(seg_node(node, cur, code_mode).0),
    decreases node, 1int,
{
    match spec_classify(node.kind, code_mode) {
        Action::Ignore => {
        },
        Action::Placeholder => {
        },
        Action::BreakParagraph => {
            let cur2 = if cur.len() > 0 {
                Seq::<FragModel>::empty()
            } else {
                cur
            };
            lemma_seg_children_groups_nonempty(node.children@, cur2, code_mode);
            if cur.len() > 0 {
                let rec = seg_children(node.children@, cur2, code_mode);
                assert forall|i: int| 0 <= i < (seq![cur] + rec.0).len() implies (#[trigger] (seq![
                    cur,
                ] + rec.0)[i]).len() > 0 by {
                    if i > 0 {
                        assert((seq![cur] + rec.0)[i] == rec.0[i - 1]);
                    }
                }
                assert(groups_nonempty(seq![cur] + rec.0));
            }
        },
        Action::EnterCode => {
            lemma_seg_children_groups_nonempty(node.children@, cur, true);
        },
        Action::ExitCode => {
            lemma_seg_children_groups_nonempty(node.children@, cur, false);
        },
        Action::StayCode => {
            lemma_seg_children_groups_nonempty(node.children@, cur, true);
        },
        Action::Whitespace => {
            if node.text@.len() == 0 {
                lemma_seg_children_groups_nonempty(node.children@, cur, code_mode);
            } else if cur.len() > 0 {
                lemma_seg_children_groups_nonempty(
                    node.children@,
                    cur.push(frag_model_of(node)),
                    code_mode,
                );
            }
        },
        Action::TextBearing => {
            if node.text@.len() == 0 {
                lemma_seg_children_groups_nonempty(node.children@, cur, code_mode);
            } else {
                lemma_seg_children_groups_nonempty(
                    node.children@,
                    cur.push(frag_model_of(node)),
                    code_mode,
                );
            }
        },
    }
}

proof fn lemma_seg_children_groups_nonempty(
    children: Seq<SyntaxNode>,
    cur: Seq<FragModel>,
    code_mode: bool,
)
    ensures
        groups_nonempty(seg_children(children, cur, code_mode).0),
    decreases children, 0int,
{
    if children.len() > 0 {
        let first = seg_node(children[0], cur, code_mode);
        let rest = seg_children(children.drop_first(), first.1, code_mode);
        lemma_seg_node_groups_nonempty(children[0], cur, code_mode);
        lemma_seg_children_groups_nonempty(children.drop_first(), first.1, code_mode);
        assert forall|i: int| 0 <= i < (first.0 + rest.0).len() implies (#[trigger] (first.0
            + rest.0)[i]).len() > 0 by {
            if i < first.0.len() {
                assert((first.0 + rest.0)[i] == first.0[i]);
            } else {
                assert((first.0 + rest.0)[i] == rest.0[i - first.0.len()]);
            }
        }
        assert(groups_nonempty(first.0 + rest.0));
    }
}

/// Every paragraph the segmenter yields is non-empty.
pub proof fn lemma_preprocess_paragraphs_nonempty(root: SyntaxNode)
    ensures
        groups_nonempty(spec_preprocess(root)),
{
    lemma_seg_node_groups_nonempty(root, Seq::empty(), false);
    let r = seg_node(root, Seq::empty(), false);
    if r.1.len() > 0 {
        assert forall|i: int| 0 <= i < r.0.push(r.1).len() implies (#[trigger] r.0.push(r.1)[i])
            .len() > 0 by {
            if i < r.0.len() {
                assert(r.0.push(r.1)[i] == r.0[i]);
            }
        }
        assert(groups_nonempty(r.0.push(r.1)));
    }
}

/// Whether no node in the subtree carries any literal text.
pub open spec fn no_text(node: SyntaxNode) -> bool
    decreases node, 1int,
{
    node.text@.len() == 0 && no_text_children(node.children@)
}

/// Whether no node in any of the subtrees carries any literal text.
pub open spec fn no_text_children(children: Seq<SyntaxNode>) -> bool
    decreases children, 0int,
{
    children.len() == 0 || (no_text(children[0]) && no_text_children(children.drop_first()))
}

proof fn lemma_seg_node_no_text(node: SyntaxNode, cur: Seq<FragModel>, code_mode: bool)
    requires
        no_text(node),
        cur.len() == 0,
    ensures
        seg_node(node, cur, code_mode).0 == Seq::<Seq<FragModel>>::empty(),
        seg_node(node, cur, code_mode).1 == cur,
    decreases node, 1int,
{
    match spec_classify(node.kind, code_mode) {
        Action::Ignore => {
        },
        Action::Placeholder => {
        },
        Action::BreakParagraph => {
            lemma_seg_children_no_text(node.children@, cur, code_mode);
        },
        Action::EnterCode => {
            lemma_seg_children_no_text(node.children@, cur, true);
        },
        Action::ExitCode => {
            lemma_seg_children_no_text(node.children@, cur, false);
        },
        Action::StayCode => {
            lemma_seg_children_no_text(node.children@, cur, true);
        },
        Action::Whitespace => {
            lemma_seg_children_no_text(node.children@, cur, code_mode);
        },
        Action::TextBearing => {
            lemma_seg_children_no_text(node.children@, cur, code_mode);
        },
    }
}

proof fn lemma_seg_children_no_text(children: Seq<SyntaxNode>, cur: Seq<FragModel>, code_mode: bool)
    requires
        no_text_children(children),
        cur.len() == 0,
    ensures
        seg_children(children, cur, code_mode).0 == Seq::<Seq<FragModel>>::empty(),
        seg_children(children, cur, code_mode).1 == cur,
    decreases children, 0int,
{
    if children.len() > 0 {
        lemma_seg_node_no_text(children[0], cur, code_mode);
        lemma_seg_children_no_text(children.drop_first(), cur, code_mode);
        assert(Seq::<Seq<FragModel>>::empty() + Seq::<Seq<FragModel>>::empty() =~= Seq::<
            Seq<FragModel>,
        >::empty());
    }
}

/// Segmenting a tree with no prose content yields no paragraphs at all.
pub proof fn lemma_no_prose_yields_no_paragraphs(root: SyntaxNode)
    requires
        no_text(root),
    ensures
        spec_preprocess(root) == Seq::<Seq<FragModel>>::empty(),
{
    lemma_seg_node_no_text(root, Seq::empty(), false);
}

/// A paragraph-break leaf seals the paragraph built so far, when it is
/// non-empty, and contributes nothing itself: it never yields a paragraph
/// of its own, and the paragraph open after it is empty.
pub proof fn lemma_parbreak_seals(node: SyntaxNode, cur: Seq<FragModel>)
    requires
        node.kind == crate::syntax::Kind::Parbreak,
        node.children@.len() == 0,
    ensures
        cur.len() > 0 ==> seg_node(node, cur, false) == (
            seq![cur],
            Seq::<FragModel>::empty(),
        ),
        cur.len() == 0 ==> seg_node(node, cur, false) == (
            Seq::<Seq<FragModel>>::empty(),
            cur,
        ),
{
    if cur.len() > 0 {
        assert(seq![cur] + Seq::<Seq<FragModel>>::empty() =~= seq![cur]);
        assert(seg_node(node, cur, false).0 =~= seq![cur]);
    }
}

} // verus!
