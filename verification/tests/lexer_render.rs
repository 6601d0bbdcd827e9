use texspell::lexer::{tokenize, Token};
use texspell::render::{chars_range, excerpt_for, str_chars};

#[test]
fn tokenize_environment_markup() {
    let s: Vec<char> = "\\begin{x}\\end".chars().collect();
    let toks = tokenize(&s);
    assert_eq!(
        toks,
        vec![
            Token::Begin,
            Token::LeftCurlyBrace,
            Token::Error,
            Token::RightCurlyBrace,
            Token::End,
        ]
    );
}

#[test]
fn tokenize_longest_pattern_wins() {
    // "\\n" is one end-line token, not a backslash then a letter; a bare
    // backslash before anything else stays a backslash.
    let s: Vec<char> = "\\n\\z%".chars().collect();
    let toks = tokenize(&s);
    assert_eq!(toks, vec![Token::EndLine, Token::Backslash, Token::Error, Token::Percent]);
}

#[test]
fn tokenize_empty_is_empty() {
    let s: Vec<char> = Vec::new();
    assert_eq!(tokenize(&s).len(), 0);
}

#[test]
fn excerpt_derives_line_from_offset() {
    // The line number comes from the resolved offset, not from any fixed
    // line: position 6 sits on line 2.
    let doc: Vec<char> = "hello\nworld\nrest".chars().collect();
    let e = excerpt_for(&doc, 6, 5).unwrap();
    assert_eq!(e.line_number, 2);
    assert_eq!(e.line_start, 6);
    assert_eq!(e.line_end, 11);
    assert_eq!(e.mark_start, 0);
    assert_eq!(e.mark_end, 5);
    let line: String = chars_range(&doc, e.line_start, e.line_end).into_iter().collect();
    assert_eq!(line, "world");
}

#[test]
fn excerpt_third_line() {
    let doc: Vec<char> = "a\nbb\nccc".chars().collect();
    let e = excerpt_for(&doc, 5, 3).unwrap();
    assert_eq!(e.line_number, 3);
    assert_eq!(e.line_start, 5);
    assert_eq!(e.line_end, 8);
}

#[test]
fn excerpt_clamps_mark_to_its_line() {
    let doc: Vec<char> = "ab\ncd".chars().collect();
    let e = excerpt_for(&doc, 1, 10).unwrap();
    assert_eq!(e.line_number, 1);
    assert_eq!(e.line_start, 0);
    assert_eq!(e.line_end, 2);
    assert_eq!(e.mark_start, 1);
    assert_eq!(e.mark_end, 2);
}

#[test]
fn excerpt_out_of_document_is_none() {
    let doc: Vec<char> = "ab".chars().collect();
    assert!(excerpt_for(&doc, 3, 1).is_none());
    assert!(excerpt_for(&doc, 2, 1).is_some());
}

#[test]
fn str_chars_counts_characters() {
    let v = str_chars("thé");
    assert_eq!(v, vec!['t', 'h', 'é']);
}
