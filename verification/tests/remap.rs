use cargo_languagetool::doc::{Doc, DocLine, DocPos, DocSpan, Docs, RawDocs};
use cargo_languagetool::languagetool::{CheckMatch, CheckResponse, MatchContext};
use cargo_languagetool::remap::{remap_match, RemapError};

fn chars(s: &str) -> Vec<char> {
    s.chars().collect()
}

fn line(text: &str, file_line: usize, column: usize) -> DocLine {
    DocLine {
        text: chars(text),
        span: DocSpan::new(
            DocPos::new(file_line, column),
            DocPos::new(file_line, column + text.len() + 3),
        ),
    }
}

fn plain_match(offset: usize, length: usize) -> CheckMatch {
    CheckMatch {
        offset,
        length,
        message: chars("possible issue"),
        rule_id: chars("RULE"),
        rule_description: chars("a rule"),
        category_id: chars("CAT"),
        replacements: vec![chars("better")],
        context: MatchContext { text: chars(""), offset: 0, length },
    }
}

#[test]
fn single_line_round_trip() {
    // File: "/// Hello world\n". The line's literal starts at column 0; the
    // decoded line lost its leading space, so its column is 1 and the
    // marker consumes three more.
    let doc = Doc { text: vec![line("Hello world", 1, 1)], check_response: None };
    let source = chars("/// Hello world\n");
    let m = plain_match(0, 5);
    let rm = remap_match(&doc, &source, &m).unwrap();
    // "Hello" begins at byte 4 of the file.
    assert_eq!(rm.offset, 4);
    assert_eq!(rm.length, 5);
    assert_eq!(rm.context.offset, 4);
    assert_eq!(rm.context.length, 5);
    assert_eq!(rm.context.text, chars("/// Hello world\n"));
    // Identity fields carry over unchanged.
    assert_eq!(rm.message, m.message);
    assert_eq!(rm.rule_id, m.rule_id);
    assert_eq!(rm.rule_description, m.rule_description);
    assert_eq!(rm.category_id, m.category_id);
    assert_eq!(rm.replacements, m.replacements);
}

#[test]
fn multi_line_match_extends_by_marker_width_per_crossed_line() {
    // Block text: "Reads the file.\nRecursively." — a match of length 10
    // from offset 10 spans "file.\nRecu", crossing one line boundary.
    let doc = Doc {
        text: vec![line("Reads the file.", 1, 1), line("Recursively.", 2, 1)],
        check_response: None,
    };
    let source = chars("/// Reads the file.\n/// Recursively.\n");
    let m = plain_match(10, 10);
    let rm = remap_match(&doc, &source, &m).unwrap();
    // "file." begins at byte 14 of the file.
    assert_eq!(rm.offset, 14);
    // One crossed line adds the line's column base (1 + 3) once.
    assert_eq!(rm.length, 14);
    assert_eq!(rm.context.offset, 14);
    assert_eq!(rm.context.length, 14);
    assert_eq!(rm.context.text, chars("/// Reads the file.\n/// Recursively.\n"));
}

#[test]
fn boundary_match_at_end_of_last_line() {
    // A match ending exactly at the last character of the block's last
    // line remaps without going out of bounds, even though the file's last
    // line has no trailing newline.
    let doc = Doc {
        text: vec![line("Reads the file.", 1, 1), line("Recursively.", 2, 1)],
        check_response: None,
    };
    let source = chars("/// Reads the file.\n/// Recursively.");
    let m = plain_match(16, 12);
    let rm = remap_match(&doc, &source, &m).unwrap();
    // "Recursively." begins at byte 24 of the file.
    assert_eq!(rm.offset, 24);
    assert_eq!(rm.length, 12);
    assert_eq!(rm.context.offset, 4);
    // The context stops at the end of the file.
    assert_eq!(rm.context.text, chars("/// Recursively."));
}

#[test]
fn remapping_is_pure() {
    let doc = Doc { text: vec![line("Hello world", 1, 1)], check_response: None };
    let source = chars("/// Hello world\n");
    let m = plain_match(6, 5);
    let first = remap_match(&doc, &source, &m).unwrap();
    let second = remap_match(&doc, &source, &m).unwrap();
    assert_eq!(first.offset, second.offset);
    assert_eq!(first.length, second.length);
    assert_eq!(first.context.offset, second.context.offset);
    assert_eq!(first.context.length, second.context.length);
    assert_eq!(first.context.text, second.context.text);
    assert_eq!(first.message, second.message);
    assert_eq!(first.replacements, second.replacements);
}

#[test]
fn malformed_matches_are_rejected_not_clamped() {
    let doc = Doc { text: vec![line("Hello world", 1, 1)], check_response: None };
    let source = chars("/// Hello world\n");
    // Offset beyond the block text.
    let m = plain_match(12, 1);
    assert_eq!(remap_match(&doc, &source, &m).unwrap_err(), RemapError::OffsetOutOfBlock);
    // The block names a file line the file does not have.
    let doc2 = Doc { text: vec![line("Hello world", 9, 1)], check_response: None };
    let m = plain_match(0, 5);
    assert_eq!(remap_match(&doc2, &source, &m).unwrap_err(), RemapError::LineOutOfFile);
    // A line number of zero is not a 1-based file line.
    let doc3 = Doc { text: vec![line("Hello world", 0, 1)], check_response: None };
    assert_eq!(remap_match(&doc3, &source, &m).unwrap_err(), RemapError::LineOutOfFile);
    // An embedded newline makes the newline count point past the block.
    let doc4 = Doc { text: vec![line("a\nb", 1, 1)], check_response: None };
    let m = plain_match(3, 0);
    assert_eq!(remap_match(&doc4, &source, &m).unwrap_err(), RemapError::RowOutOfRange);
}

#[test]
fn transform_matches_remaps_every_checked_block() {
    let checked_doc = Doc {
        text: vec![line("Hello world", 1, 1)],
        check_response: Some(CheckResponse { matches: vec![plain_match(0, 5)] }),
    };
    let unchecked_doc = Doc { text: vec![line("Later", 3, 1)], check_response: None };
    let docs = Docs { original: RawDocs(vec![]), fixed: vec![checked_doc, unchecked_doc] };
    let source = "/// Hello world\n\n/// Later\n";
    let out = docs.transform_matches(source).unwrap();
    assert_eq!(out.fixed.len(), 2);
    let remapped = out.fixed[0].check_response.as_ref().unwrap();
    assert_eq!(remapped.matches.len(), 1);
    assert_eq!(remapped.matches[0].offset, 4);
    assert_eq!(remapped.matches[0].length, 5);
    assert!(out.fixed[1].check_response.is_none());
    // The input is left as it was: remapping is a pure transformation.
    assert_eq!(docs.fixed[0].check_response.as_ref().unwrap().matches[0].offset, 0);
}

#[test]
fn transform_matches_reports_first_failure() {
    let bad = Doc {
        text: vec![line("Hello world", 1, 1)],
        check_response: Some(CheckResponse { matches: vec![plain_match(99, 1)] }),
    };
    let docs = Docs { original: RawDocs(vec![]), fixed: vec![bad] };
    let err = docs.transform_matches("/// Hello world\n").unwrap_err();
    assert_eq!(err, RemapError::OffsetOutOfBlock);
}
