use cargo_languagetool::doc::{DocPos, DocSpan, Docs, RawDocs, RawLit, Token};

fn span(start_line: usize, start_col: usize, end_line: usize, end_col: usize) -> DocSpan {
    DocSpan::new(DocPos::new(start_line, start_col), DocPos::new(end_line, end_col))
}

fn lit(repr: &str, line: usize) -> Token {
    Token::Literal { repr: repr.to_owned(), span: span(line, 0, line, repr.len()) }
}

fn chars(s: &str) -> Vec<char> {
    s.chars().collect()
}

#[test]
fn collects_doc_literals_in_order() {
    let tokens = vec![
        Token::Punct,
        Token::Ident("doc".to_owned()),
        lit("\" one\"", 1),
        Token::Group(vec![Token::Ident("doc".to_owned()), lit("\" two\"", 2)]),
        lit("\" three\"", 3),
        Token::Ident("other".to_owned()),
        lit("\" not doc\"", 4),
    ];
    let raw = RawDocs::from_tokens(&tokens);
    assert!(!raw.is_empty());
    assert_eq!(raw.0.len(), 3);
    assert_eq!(raw.0[0].repr, "\" one\"");
    assert_eq!(raw.0[1].repr, "\" two\"");
    // The marker state survives a nested group: the literal after the group
    // is still a doc comment.
    assert_eq!(raw.0[2].repr, "\" three\"");
}

#[test]
fn literal_without_marker_is_ignored() {
    let tokens = vec![lit("\" free\"", 1), Token::Ident("doc".to_owned())];
    let raw = RawDocs::from_tokens(&tokens);
    assert!(raw.is_empty());
    assert_eq!(raw.0.len(), 0);
}

#[test]
fn partitions_literals_into_blocks_by_adjacency() {
    // Lines 1 and 2 are adjacent; line 4 leaves a gap: two blocks, and the
    // blocks' line counts add up to the literal count.
    let raw = RawDocs(vec![
        RawLit { repr: "\" first\"".to_owned(), span: span(1, 0, 1, 8) },
        RawLit { repr: "\" second\"".to_owned(), span: span(2, 0, 2, 9) },
        RawLit { repr: "\" third\"".to_owned(), span: span(4, 0, 4, 8) },
    ]);
    let docs = Docs::try_from_raw(raw).unwrap();
    assert_eq!(docs.fixed.len(), 2);
    assert_eq!(docs.fixed[0].text.len(), 2);
    assert_eq!(docs.fixed[1].text.len(), 1);
    assert_eq!(docs.fixed[0].text.len() + docs.fixed[1].text.len(), 3);
    // Within the block the lines are vertically adjacent; across the block
    // boundary they are not.
    let b0 = &docs.fixed[0];
    assert_eq!(b0.text[1].span.start.line - b0.text[0].span.end.line, 1);
    let last_of_first = b0.text[1].span.end.line;
    let first_of_second = docs.fixed[1].text[0].span.start.line;
    assert_ne!(first_of_second - last_of_first, 1);
    assert!(docs.fixed.iter().all(|d| d.check_response.is_none()));
}

#[test]
fn strips_one_leading_space_and_advances_column() {
    let raw = RawDocs(vec![RawLit { repr: "\" padded\"".to_owned(), span: span(1, 0, 1, 9) }]);
    let docs = Docs::try_from_raw(raw).unwrap();
    assert_eq!(docs.fixed[0].text[0].text, chars("padded"));
    assert_eq!(docs.fixed[0].text[0].span.start.column, 1);

    let raw = RawDocs(vec![RawLit { repr: "\"bare\"".to_owned(), span: span(1, 0, 1, 6) }]);
    let docs = Docs::try_from_raw(raw).unwrap();
    assert_eq!(docs.fixed[0].text[0].text, chars("bare"));
    assert_eq!(docs.fixed[0].text[0].span.start.column, 0);
}

#[test]
fn zero_doc_comments_yield_zero_blocks() {
    let docs = Docs::try_from_raw(RawDocs(vec![])).unwrap();
    assert_eq!(docs.fixed.len(), 0);
}

#[test]
fn malformed_literal_fails_loudly() {
    let raw = RawDocs(vec![
        RawLit { repr: "\" fine\"".to_owned(), span: span(1, 0, 1, 7) },
        RawLit { repr: "no quotes".to_owned(), span: span(2, 0, 2, 9) },
    ]);
    assert!(Docs::try_from_raw(raw).is_err());
}

#[test]
fn joined_text_reconstructs_block() {
    let raw = RawDocs(vec![
        RawLit { repr: "\" Reads the file.\"".to_owned(), span: span(1, 0, 1, 18) },
        RawLit { repr: "\" Recursively.\"".to_owned(), span: span(2, 0, 2, 15) },
    ]);
    let docs = Docs::try_from_raw(raw).unwrap();
    assert_eq!(docs.fixed.len(), 1);
    assert_eq!(docs.fixed[0].joined_text(), chars("Reads the file.\nRecursively."));
}
