use typst_spellcheck::merge_short::merge_short;
use typst_spellcheck::paragraph::{Fragment, Paragraph};
use typst_spellcheck::preprocessor::{preprocess, recursively_build_paragraphs};
use typst_spellcheck::syntax::{classify, placeholder_text, Action, Kind, Span, SyntaxNode};
use typst_spellcheck::word_count::count_words_naive;

fn leaf(kind: Kind, text: &str, span: Option<Span>) -> SyntaxNode {
    SyntaxNode { kind, text: text.as_bytes().to_vec(), span, children: vec![] }
}

fn inner(kind: Kind, children: Vec<SyntaxNode>) -> SyntaxNode {
    SyntaxNode { kind, text: vec![], span: None, children }
}

fn sp(start: usize, end: usize) -> Option<Span> {
    Some(Span { start, end })
}

fn para_texts(paragraphs: &[Paragraph]) -> Vec<String> {
    paragraphs
        .iter()
        .map(|p| String::from_utf8(p.get_text().0).unwrap())
        .collect()
}

fn fragment(text: &str) -> Fragment {
    Fragment { text: text.as_bytes().to_vec(), span: None }
}

#[test]
fn get_text_concatenates_and_records_contributions() {
    let p = Paragraph {
        nodes: vec![
            Fragment { text: b"Hello".to_vec(), span: sp(0, 5) },
            Fragment { text: b" ".to_vec(), span: sp(5, 6) },
            Fragment { text: b"world".to_vec(), span: sp(6, 11) },
        ],
    };
    let (text, contributions) = p.get_text();
    assert_eq!(text, b"Hello world".to_vec());
    assert_eq!(contributions.len(), 3);
    // Contributions are contiguous, start at zero, and cover the text.
    assert_eq!(contributions[0].offset, 0);
    assert_eq!(contributions[0].length, 5);
    assert_eq!(contributions[1].offset, 5);
    assert_eq!(contributions[1].length, 1);
    assert_eq!(contributions[2].offset, 6);
    assert_eq!(contributions[2].length, 5);
    let total: usize = contributions.iter().map(|c| c.length).sum();
    assert_eq!(total, text.len());
    assert_eq!(contributions[0].span, sp(0, 5));
    assert_eq!(contributions[2].span, sp(6, 11));
}

#[test]
fn get_text_is_idempotent() {
    let p = Paragraph {
        nodes: vec![
            Fragment { text: b"one".to_vec(), span: sp(0, 3) },
            Fragment { text: b"two".to_vec(), span: sp(3, 6) },
        ],
    };
    let first = p.get_text();
    let second = p.get_text();
    assert_eq!(first.0, second.0);
    assert_eq!(first.1.len(), second.1.len());
    for (a, b) in first.1.iter().zip(second.1.iter()) {
        assert_eq!(a.offset, b.offset);
        assert_eq!(a.length, b.length);
        assert_eq!(a.span, b.span);
    }
}

#[test]
fn no_prose_yields_no_paragraphs() {
    let tree = inner(
        Kind::Markup,
        vec![
            leaf(Kind::Space, "", None),
            inner(Kind::FuncCall, vec![leaf(Kind::Ident, "", None)]),
            leaf(Kind::Parbreak, "", None),
        ],
    );
    let paragraphs = preprocess(&tree);
    assert_eq!(paragraphs.len(), 0);
}

#[test]
fn parbreak_seals_and_never_stands_alone() {
    let tree = inner(
        Kind::Markup,
        vec![
            leaf(Kind::Text, "Hello", sp(0, 5)),
            leaf(Kind::Parbreak, "\n\n", sp(5, 7)),
            leaf(Kind::Text, "World", sp(7, 12)),
        ],
    );
    let paragraphs = preprocess(&tree);
    assert_eq!(para_texts(&paragraphs), vec!["Hello".to_string(), "World".to_string()]);
    // No paragraph holds the break node's text.
    for p in &paragraphs {
        assert!(!p.get_text().0.windows(2).any(|w| w == b"\n\n"));
    }
}

#[test]
fn parbreak_on_empty_paragraph_adds_nothing() {
    let tree = inner(
        Kind::Markup,
        vec![leaf(Kind::Parbreak, "\n\n", sp(0, 2)), leaf(Kind::Text, "Rest", sp(2, 6))],
    );
    let paragraphs = preprocess(&tree);
    assert_eq!(para_texts(&paragraphs), vec!["Rest".to_string()]);
}

#[test]
fn placeholder_substitutes_kind_name_in_context() {
    let tree = inner(
        Kind::Markup,
        vec![
            leaf(Kind::Text, "See", sp(0, 3)),
            leaf(Kind::Space, " ", sp(3, 4)),
            leaf(Kind::Raw, "`code`", sp(4, 10)),
        ],
    );
    let paragraphs = preprocess(&tree);
    assert_eq!(para_texts(&paragraphs), vec!["See `raw block`".to_string()]);
    // The placeholder carries the replaced node's location.
    let (_, contributions) = paragraphs[0].get_text();
    assert_eq!(contributions[2].span, sp(4, 10));
}

#[test]
fn placeholder_on_empty_paragraph_is_skipped() {
    let tree = inner(
        Kind::Markup,
        vec![leaf(Kind::Equation, "$x$", sp(0, 3)), leaf(Kind::Text, "After", sp(3, 8))],
    );
    let paragraphs = preprocess(&tree);
    assert_eq!(para_texts(&paragraphs), vec!["After".to_string()]);
}

#[test]
fn leading_space_is_dropped_with_its_subtree() {
    let tree = inner(
        Kind::Markup,
        vec![leaf(Kind::Space, "  ", sp(0, 2)), leaf(Kind::Text, "Word", sp(2, 6))],
    );
    let paragraphs = preprocess(&tree);
    assert_eq!(para_texts(&paragraphs), vec!["Word".to_string()]);
}

#[test]
fn code_mode_skips_all_but_markup_regions() {
    let tree = inner(
        Kind::Markup,
        vec![
            leaf(Kind::Text, "Intro", sp(0, 5)),
            inner(
                Kind::FuncCall,
                vec![
                    leaf(Kind::Text, "hidden", sp(5, 11)),
                    inner(Kind::Markup, vec![leaf(Kind::Text, " visible", sp(11, 19))]),
                ],
            ),
        ],
    );
    let paragraphs = preprocess(&tree);
    assert_eq!(para_texts(&paragraphs), vec!["Intro visible".to_string()]);
}

#[test]
fn ignored_kinds_drop_their_subtrees() {
    let tree = inner(
        Kind::Markup,
        vec![
            leaf(Kind::Text, "Kept", sp(0, 4)),
            inner(Kind::ModuleImport, vec![leaf(Kind::Text, "dropped", sp(4, 11))]),
            leaf(Kind::LineComment, "// no", sp(11, 16)),
        ],
    );
    let paragraphs = preprocess(&tree);
    assert_eq!(para_texts(&paragraphs), vec!["Kept".to_string()]);
}

#[test]
fn classifier_maps_kinds_to_actions() {
    assert_eq!(classify(Kind::Parbreak, false), Action::BreakParagraph);
    assert_eq!(classify(Kind::Raw, false), Action::Placeholder);
    assert_eq!(classify(Kind::Equation, false), Action::Placeholder);
    assert_eq!(classify(Kind::FieldAccess, false), Action::Placeholder);
    assert_eq!(classify(Kind::Hash, false), Action::Ignore);
    assert_eq!(classify(Kind::Star, false), Action::Ignore);
    assert_eq!(classify(Kind::FuncCall, false), Action::EnterCode);
    assert_eq!(classify(Kind::LetBinding, false), Action::EnterCode);
    assert_eq!(classify(Kind::Space, false), Action::Whitespace);
    assert_eq!(classify(Kind::Text, false), Action::TextBearing);
    assert_eq!(classify(Kind::Markup, false), Action::TextBearing);
    assert_eq!(classify(Kind::Markup, true), Action::ExitCode);
    assert_eq!(classify(Kind::Text, true), Action::StayCode);
    assert_eq!(classify(Kind::Parbreak, true), Action::StayCode);
}

#[test]
fn placeholder_texts_name_the_kinds() {
    assert_eq!(placeholder_text(Kind::Raw), b"`raw block`".to_vec());
    assert_eq!(placeholder_text(Kind::Equation), b"`equation`".to_vec());
    assert_eq!(placeholder_text(Kind::FieldAccess), b"`field access`".to_vec());
}

#[test]
fn segmenting_a_subtree_returns_the_open_paragraph() {
    let node = leaf(Kind::Text, "tail", sp(0, 4));
    let start = Paragraph { nodes: vec![fragment("head ")] };
    let (sealed, open) = recursively_build_paragraphs(&node, start, false);
    assert_eq!(sealed.len(), 0);
    assert_eq!(open.get_text().0, b"head tail".to_vec());
}

#[test]
fn merging_is_idempotent_on_long_paragraphs() {
    let paragraphs = vec![
        Paragraph { nodes: vec![fragment("this paragraph is long enough")] },
        Paragraph { nodes: vec![fragment("and so is this second one here")] },
    ];
    let merged = merge_short(paragraphs, 10);
    assert_eq!(
        para_texts(&merged),
        vec![
            "this paragraph is long enough".to_string(),
            "and so is this second one here".to_string()
        ]
    );
}

#[test]
fn merging_short_paragraphs_collapses_forward() {
    // Byte lengths [3, 4, 20] with threshold 10: the second paragraph is
    // folded into the first (3 + 4-byte separator + 4 = 11, now long), the
    // third stands alone.
    let paragraphs = vec![
        Paragraph { nodes: vec![fragment("abc")] },
        Paragraph { nodes: vec![fragment("defg")] },
        Paragraph { nodes: vec![fragment("hijklmnopqrstuvwxyz!")] },
    ];
    let merged = merge_short(paragraphs, 10);
    assert_eq!(
        para_texts(&merged),
        vec!["abc\r\n\r\ndefg".to_string(), "hijklmnopqrstuvwxyz!".to_string()]
    );
}

#[test]
fn merging_all_short_leaves_at_most_one_trailing_short() {
    // Lengths [6, 6, 6] with threshold 10: the first two merge to 16
    // bytes; the third stays, short, at the end.
    let paragraphs = vec![
        Paragraph { nodes: vec![fragment("aaaaaa")] },
        Paragraph { nodes: vec![fragment("bbbbbb")] },
        Paragraph { nodes: vec![fragment("cccccc")] },
    ];
    let merged = merge_short(paragraphs, 10);
    let texts = para_texts(&merged);
    assert_eq!(texts, vec!["aaaaaa\r\n\r\nbbbbbb".to_string(), "cccccc".to_string()]);
    for t in &texts[..texts.len() - 1] {
        assert!(t.len() >= 10);
    }
}

#[test]
fn merge_separator_has_no_location() {
    let paragraphs = vec![
        Paragraph { nodes: vec![Fragment { text: b"ab".to_vec(), span: sp(0, 2) }] },
        Paragraph { nodes: vec![Fragment { text: b"cd".to_vec(), span: sp(4, 6) }] },
    ];
    let merged = merge_short(paragraphs, 100);
    assert_eq!(merged.len(), 1);
    let (text, contributions) = merged[0].get_text();
    assert_eq!(text, b"ab\r\n\r\ncd".to_vec());
    assert_eq!(contributions[1].span, None);
}

#[test]
fn word_count_collapses_whitespace_runs() {
    assert_eq!(count_words_naive(&b"one  two\tthree\n".to_vec()), 3);
}

#[test]
fn word_count_edge_cases() {
    assert_eq!(count_words_naive(&b"".to_vec()), 0);
    assert_eq!(count_words_naive(&b"   \t\n".to_vec()), 0);
    assert_eq!(count_words_naive(&b"word".to_vec()), 1);
    assert_eq!(count_words_naive(&b"  leading and trailing  ".to_vec()), 3);
}

#[test]
fn word_count_recognizes_unicode_whitespace() {
    // No-break space, em space, ideographic space, next line, ogham space
    // mark, narrow no-break space: all separate words.
    assert_eq!(count_words_naive(&"a\u{00A0}b".as_bytes().to_vec()), 2);
    assert_eq!(count_words_naive(&"one\u{2003}two\u{3000}three".as_bytes().to_vec()), 3);
    assert_eq!(count_words_naive(&"x\u{0085}y".as_bytes().to_vec()), 2);
    assert_eq!(count_words_naive(&"x\u{1680}y\u{202F}z\u{205F}w".as_bytes().to_vec()), 4);
    assert_eq!(count_words_naive(&"p\u{2028}q\u{2029}r".as_bytes().to_vec()), 3);
    // Leading and trailing Unicode whitespace adds nothing.
    assert_eq!(count_words_naive(&"\u{00A0}\u{2000}word\u{200A}".as_bytes().to_vec()), 1);
    // Non-whitespace multi-byte characters stay inside words.
    assert_eq!(count_words_naive(&"caf\u{00E9} au lait".as_bytes().to_vec()), 3);
}

#[test]
fn merge_threshold_is_a_strict_lower_bound() {
    // Exactly at the threshold counts as long.
    let paragraphs = vec![
        Paragraph { nodes: vec![fragment("0123456789")] },
        Paragraph { nodes: vec![fragment("abcdefghij")] },
    ];
    let merged = merge_short(paragraphs, 10);
    assert_eq!(merged.len(), 2);
}

#[test]
fn field_access_is_replaced_by_its_placeholder() {
    let tree = inner(
        Kind::Markup,
        vec![
            leaf(Kind::Text, "Use", sp(0, 3)),
            leaf(Kind::Space, " ", sp(3, 4)),
            leaf(Kind::FieldAccess, "a.b", sp(4, 7)),
        ],
    );
    let paragraphs = preprocess(&tree);
    assert_eq!(para_texts(&paragraphs), vec!["Use `field access`".to_string()]);
}

#[test]
fn merging_collapses_everything_below_the_threshold() {
    // Three paragraphs whose joined text, separators included, stays
    // below the threshold: all collapse into one merged paragraph.
    let paragraphs = vec![
        Paragraph { nodes: vec![fragment("ab")] },
        Paragraph { nodes: vec![fragment("cd")] },
        Paragraph { nodes: vec![fragment("ef")] },
    ];
    let merged = merge_short(paragraphs, 100);
    assert_eq!(para_texts(&merged), vec!["ab\r\n\r\ncd\r\n\r\nef".to_string()]);
}
