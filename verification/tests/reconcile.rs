use typst_spellcheck::check_file::{
    build_check_request, problems_from_matches, problems_from_outcomes, Error, Level, Match,
    ParagraphOutcome,
};
use typst_spellcheck::lines::Lines;
use typst_spellcheck::merge_short::merge_short;
use typst_spellcheck::preprocessor::preprocess;
use typst_spellcheck::paragraph::NodeContribution;
use typst_spellcheck::problem::Problem;
use typst_spellcheck::range::{Position, Range};
use typst_spellcheck::sort::sort_problems;
use typst_spellcheck::syntax::{Kind, Span, SyntaxNode};
use typst_spellcheck::LanguageToolConfig;

fn simple_match(offset: usize, length: usize) -> Match {
    Match {
        offset,
        length,
        message: b"Possible spelling mistake found.".to_vec(),
        short_message: b"Spelling mistake".to_vec(),
        replacements: vec![b"The".to_vec()],
        rule_id: b"MORFOLOGIK_RULE_EN_US".to_vec(),
        rule_category: b"TYPOS".to_vec(),
        context_text: b"Teh cat sat.".to_vec(),
    }
}

fn contribution(span: Option<Span>, offset: usize, length: usize) -> NodeContribution {
    NodeContribution { span, offset, length }
}

#[test]
fn lines_index_single_line() {
    let lines = Lines::new(b"hello world".to_vec());
    assert_eq!(lines.byte_to_line(0), Some(0));
    assert_eq!(lines.byte_to_line(10), Some(0));
    assert_eq!(lines.byte_to_line(11), Some(0));
    assert_eq!(lines.byte_to_line(12), None);
    assert_eq!(lines.byte_to_column(6), Some(6));
}

#[test]
fn lines_index_crlf_counts_as_one_break() {
    let lines = Lines::new(b"ab\r\ncd\nef".to_vec());
    assert_eq!(lines.byte_to_line(0), Some(0));
    assert_eq!(lines.byte_to_line(3), Some(0));
    assert_eq!(lines.byte_to_line(4), Some(1));
    assert_eq!(lines.byte_to_line(7), Some(2));
    assert_eq!(lines.byte_to_column(4), Some(0));
    assert_eq!(lines.byte_to_column(6), Some(2));
    assert_eq!(lines.byte_to_column(8), Some(1));
}

#[test]
fn lines_column_counts_characters_not_bytes() {
    // One two-byte character before the probed offset.
    let text = "é x".as_bytes().to_vec();
    let lines = Lines::new(text);
    // Byte 3 sits after "é " (3 bytes), but only 2 characters in.
    assert_eq!(lines.byte_to_column(3), Some(2));
    // Byte 1 is inside the two-byte character: no column.
    assert_eq!(lines.byte_to_column(1), None);
}

#[test]
fn reconciled_match_maps_into_document_bytes() {
    // A document of 100 filler bytes, then the paragraph's source text.
    let mut doc = vec![b'.'; 100];
    doc.extend_from_slice(b"Teh cat sat.!");
    let lines = Lines::new(doc);
    let contributions = vec![contribution(Some(Span { start: 100, end: 113 }), 0, 13)];

    let problem = Problem::try_from_match(
        &lines,
        simple_match(0, 3),
        b"Teh".to_vec(),
        &contributions,
    )
    .expect("the match lies inside the contribution");

    // Document bytes [100, 103) on the single line, 1-based.
    assert_eq!(
        problem.range,
        Range {
            start: Position { line: 1, column: 101 },
            end: Position { line: 1, column: 104 },
        }
    );
    assert_eq!(problem.match_string, b"Teh".to_vec());
    assert_eq!(problem.short_message, b"Spelling mistake".to_vec());
    assert_eq!(problem.message, b"Possible spelling mistake found.".to_vec());
    assert_eq!(problem.replacements, vec![b"The".to_vec()]);
    assert_eq!(problem.rule_category, b"TYPOS".to_vec());
    assert_eq!(problem.rule_id, b"MORFOLOGIK_RULE_EN_US".to_vec());
}

#[test]
fn reconciliation_offsets_within_a_contribution() {
    // The match starts 4 bytes into a fragment whose span begins at 50.
    let mut doc = vec![b'x'; 30];
    doc.extend_from_slice(b"\n");
    doc.extend_from_slice(&vec![b'y'; 100]);
    let lines = Lines::new(doc);
    let contributions = vec![
        contribution(Some(Span { start: 10, end: 20 }), 0, 10),
        contribution(Some(Span { start: 50, end: 70 }), 10, 20),
    ];

    let problem = Problem::try_from_match(
        &lines,
        simple_match(14, 2),
        b"at".to_vec(),
        &contributions,
    )
    .expect("the match lies inside the second contribution");

    // Document byte 54 lies on line 2 (after the break at byte 30),
    // 23 characters in, 1-based.
    assert_eq!(problem.range.start, Position { line: 2, column: 24 });
    assert_eq!(problem.range.end, Position { line: 2, column: 26 });
}

#[test]
fn reconciliation_fails_outside_all_contributions() {
    let lines = Lines::new(vec![b'a'; 40]);
    let contributions = vec![contribution(Some(Span { start: 0, end: 10 }), 0, 10)];
    // The match starts past the only contribution.
    let r = Problem::try_from_match(&lines, simple_match(15, 2), b"xx".to_vec(), &contributions);
    assert!(r.is_none());
}

#[test]
fn reconciliation_fails_for_locationless_fragments() {
    let lines = Lines::new(vec![b'a'; 40]);
    let contributions = vec![contribution(None, 0, 10)];
    let r = Problem::try_from_match(&lines, simple_match(2, 2), b"xx".to_vec(), &contributions);
    assert!(r.is_none());
}

#[test]
fn reconciliation_fails_past_the_document_end() {
    let lines = Lines::new(vec![b'a'; 20]);
    let contributions = vec![contribution(Some(Span { start: 15, end: 25 }), 0, 10)];
    // Document byte 15 + 8 = 23 > 20: translation fails.
    let r = Problem::try_from_match(&lines, simple_match(8, 4), b"xxxx".to_vec(), &contributions);
    assert!(r.is_none());
}

#[test]
fn zero_length_contributions_are_never_matched() {
    let lines = Lines::new(vec![b'a'; 40]);
    let contributions = vec![
        contribution(Some(Span { start: 0, end: 0 }), 0, 0),
        contribution(Some(Span { start: 5, end: 15 }), 0, 10),
    ];
    let problem = Problem::try_from_match(
        &lines,
        simple_match(0, 2),
        b"aa".to_vec(),
        &contributions,
    )
    .expect("the second contribution contains offset 0");
    // Resolved through the second contribution's span start, byte 5.
    assert_eq!(problem.range.start, Position { line: 1, column: 6 });
}

#[test]
fn context_carriage_returns_are_stripped() {
    let mut doc = vec![b'a'; 20];
    doc.extend_from_slice(b"\n");
    let lines = Lines::new(doc);
    let contributions = vec![contribution(Some(Span { start: 0, end: 10 }), 0, 10)];
    let mut m = simple_match(0, 2);
    m.context_text = b"one\r\ntwo\r".to_vec();
    let problem = Problem::try_from_match(&lines, m, b"aa".to_vec(), &contributions)
        .expect("the match lies inside the contribution");
    assert_eq!(problem.context, b"one\ntwo".to_vec());
}

#[test]
fn ignore_words_suppress_matches() {
    let lines = Lines::new(vec![b'a'; 40]);
    let text = b"Teh cat sat.".to_vec();
    let contributions = vec![contribution(Some(Span { start: 0, end: 12 }), 0, 12)];
    let ignore_words = vec![b"Teh".to_vec()];

    let mut matches = vec![simple_match(0, 3)];
    let problems = problems_from_matches(&lines, &mut matches, &text, &contributions, &ignore_words);
    assert_eq!(problems.len(), 0);

    // The same match without the ignore word yields a problem.
    let mut matches = vec![simple_match(0, 3)];
    let none: Vec<Vec<u8>> = vec![];
    let problems = problems_from_matches(&lines, &mut matches, &text, &contributions, &none);
    assert_eq!(problems.len(), 1);
}

#[test]
fn ignore_words_are_case_sensitive() {
    let lines = Lines::new(vec![b'a'; 40]);
    let text = b"Teh cat sat.".to_vec();
    let contributions = vec![contribution(Some(Span { start: 0, end: 12 }), 0, 12)];
    let ignore_words = vec![b"teh".to_vec()];
    let mut matches = vec![simple_match(0, 3)];
    let problems = problems_from_matches(&lines, &mut matches, &text, &contributions, &ignore_words);
    assert_eq!(problems.len(), 1);
}

fn ok_outcome(lines_len: usize) -> ParagraphOutcome {
    let _ = lines_len;
    ParagraphOutcome {
        outcome: Ok(vec![simple_match(0, 3)]),
        text: b"Teh cat sat.".to_vec(),
        contributions: vec![contribution(Some(Span { start: 0, end: 12 }), 0, 12)],
    }
}

#[test]
fn one_failed_paragraph_fails_the_whole_check() {
    let lines = Lines::new(vec![b'a'; 40]);
    let ignore_words: Vec<Vec<u8>> = vec![];
    let mut outcomes = vec![
        ok_outcome(40),
        ParagraphOutcome {
            outcome: Err(Error::LanguageTool("connection refused".to_string())),
            text: vec![],
            contributions: vec![],
        },
    ];
    let r = problems_from_outcomes(&lines, &mut outcomes, &ignore_words);
    match r {
        Err(Error::LanguageTool(msg)) => assert_eq!(msg, "connection refused"),
        Ok(_) => panic!("a failed paragraph must fail the check"),
    }
}

#[test]
fn all_successful_paragraphs_yield_their_problems() {
    let lines = Lines::new(vec![b'a'; 40]);
    let ignore_words: Vec<Vec<u8>> = vec![];
    let mut outcomes = vec![ok_outcome(40), ok_outcome(40)];
    let r = problems_from_outcomes(&lines, &mut outcomes, &ignore_words);
    let problems = r.expect("all paragraphs succeeded");
    assert_eq!(problems.len(), 2);
}

#[test]
fn request_building_passes_the_configuration_through() {
    let config = LanguageToolConfig {
        host: "http://localhost".to_string(),
        port: 8081,
        language: "en-US".to_string(),
        disabled_rules: Some(vec!["WHITESPACE_RULE".to_string()]),
        disabled_categories: None,
        picky: Some(true),
    };
    let request = build_check_request(b"Some text".to_vec(), &config);
    assert_eq!(request.text, b"Some text".to_vec());
    assert_eq!(request.language, "en-US".to_string());
    assert_eq!(request.level, Level::Picky);
    assert_eq!(request.disabled_rules, Some(vec!["WHITESPACE_RULE".to_string()]));
    assert_eq!(request.disabled_categories, None);

    let config = LanguageToolConfig { picky: None, ..config };
    let request = build_check_request(b"x".to_vec(), &config);
    assert_eq!(request.level, Level::Default);
}

fn problem_at(line: usize, column: usize, rule: &[u8]) -> Problem {
    Problem {
        range: Range {
            start: Position { line, column },
            end: Position { line, column: column + 1 },
        },
        match_string: b"m".to_vec(),
        context: b"c".to_vec(),
        short_message: b"s".to_vec(),
        message: b"m".to_vec(),
        replacements: vec![],
        rule_category: b"cat".to_vec(),
        rule_id: rule.to_vec(),
    }
}

#[test]
fn problems_sort_by_range_then_fields() {
    let mut problems = vec![
        problem_at(3, 1, b"B"),
        problem_at(1, 5, b"A"),
        problem_at(3, 1, b"A"),
        problem_at(1, 2, b"A"),
    ];
    sort_problems(&mut problems);
    let keys: Vec<(usize, usize, Vec<u8>)> = problems
        .iter()
        .map(|p| (p.range.start.line, p.range.start.column, p.rule_id.clone()))
        .collect();
    assert_eq!(
        keys,
        vec![
            (1, 2, b"A".to_vec()),
            (1, 5, b"A".to_vec()),
            (3, 1, b"A".to_vec()),
            (3, 1, b"B".to_vec()),
        ]
    );
}

#[test]
fn lines_index_handles_unusual_breaks() {
    // Vertical tab, form feed, and next line (U+0085) all end a line.
    let mut doc = b"a\x0bb\x0cc".to_vec();
    doc.extend_from_slice("\u{0085}d".as_bytes());
    let lines = Lines::new(doc);
    assert_eq!(lines.byte_to_line(0), Some(0));
    assert_eq!(lines.byte_to_line(2), Some(1));
    assert_eq!(lines.byte_to_line(4), Some(2));
    // The next-line character is two bytes; "d" sits on the fourth line.
    assert_eq!(lines.byte_to_line(7), Some(3));
    assert_eq!(lines.byte_to_column(7), Some(0));
}

#[test]
fn whole_pipeline_locates_a_problem_in_the_document() {
    // A document whose prose starts after a heading marker: "= T\nTeh cat".
    let doc = b"= T\nTeh cat".to_vec();
    let tree = SyntaxNode {
        kind: Kind::Markup,
        text: vec![],
        span: None,
        children: vec![
            SyntaxNode {
                kind: Kind::Text,
                text: b"Teh cat".to_vec(),
                span: Some(Span { start: 4, end: 11 }),
                children: vec![],
            },
        ],
    };
    let paragraphs = merge_short(preprocess(&tree), 1);
    assert_eq!(paragraphs.len(), 1);
    let (text, contributions) = paragraphs[0].get_text();
    assert_eq!(text, b"Teh cat".to_vec());

    let lines = Lines::new(doc);
    let mut outcomes = vec![ParagraphOutcome {
        outcome: Ok(vec![simple_match(0, 3)]),
        text,
        contributions,
    }];
    let ignore_words: Vec<Vec<u8>> = vec![];
    let problems = problems_from_outcomes(&lines, &mut outcomes, &ignore_words).unwrap();
    assert_eq!(problems.len(), 1);
    // "Teh" begins at document byte 4: line 2, column 1.
    assert_eq!(problems[0].range.start, Position { line: 2, column: 1 });
    assert_eq!(problems[0].range.end, Position { line: 2, column: 4 });
}
