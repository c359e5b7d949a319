use lox::input_file::InputFile;
use lox::kw::{keywords, Keyword};
use lox::op::Op;
use lox::span::{FileSpan, Offset, Span};
use lox::word::Word;

fn span(start: u32, end: u32) -> Span {
    Span::from(Offset::new(start), Offset::new(end))
}

fn file(text: &str) -> InputFile {
    InputFile::new(Word::intern("file.lox"), text.to_string())
}

#[test]
fn offsets() {
    assert_eq!(Offset::new(5).value(), 5);
    assert_eq!(Offset::from_usize(7), Offset(7));
    assert_eq!(Offset(9).to_usize(), 9);
    assert_eq!(Offset(9).plus(3), Offset(12));
    assert!(Offset(1) < Offset(2));
}

#[test]
fn span_from_keeps_both_ends() {
    let s = span(2, 6);
    assert_eq!(s.start, Offset(2));
    assert_eq!(s.end, Offset(6));
}

#[test]
fn span_len_and_is_empty() {
    assert_eq!(span(2, 6).len(), 4);
    assert_eq!(span(3, 3).len(), 0);
    assert!(span(3, 3).is_empty());
    assert!(!span(2, 6).is_empty());
}

#[test]
fn span_at_start_is_empty_at_the_start() {
    assert_eq!(span(2, 6).span_at_start(), span(2, 2));
}

#[test]
fn span_to_reaches_the_end_of_the_other() {
    assert_eq!(span(2, 6).to(span(4, 9)), span(2, 9));
    assert_eq!(span(2, 6).to(span(2, 6)), span(2, 6));
}

#[test]
fn anchoring_keeps_the_ends() {
    let anchored = span(1, 4).anchor_to(file("hello"));
    assert_eq!(anchored.start, Offset(1));
    assert_eq!(anchored.end, Offset(4));
    assert_eq!(anchored.input_file, file("hello"));
    assert_eq!(anchored.clone(), anchored);
}

#[test]
fn snippet_cuts_bytes() {
    assert_eq!(span(1, 4).anchor_to(file("hello")).snippet(), Some("ell"));
    assert_eq!(span(0, 5).anchor_to(file("hello")).snippet(), Some("hello"));
    assert_eq!(span(2, 2).anchor_to(file("hello")).snippet(), Some(""));
    assert_eq!(span(0, 3).anchor_to(file("h\u{e9}llo")).snippet(), Some("h\u{e9}"));
}

#[test]
fn snippet_needs_character_boundaries_within_the_text() {
    assert_eq!(span(1, 6).anchor_to(file("hello")).snippet(), None);
    assert_eq!(span(0, 2).anchor_to(file("h\u{e9}llo")).snippet(), None);
    assert_eq!(span(2, 3).anchor_to(file("h\u{e9}llo")).snippet(), None);
    let backwards = FileSpan { input_file: file("hello"), start: Offset(3), end: Offset(1) };
    assert_eq!(backwards.snippet(), None);
}

#[test]
fn contains_excludes_the_end() {
    let anchored = span(2, 5).anchor_to(file("0123456"));
    assert!(!anchored.contains(Offset(1)));
    assert!(anchored.contains(Offset(2)));
    assert!(anchored.contains(Offset(4)));
    assert!(!anchored.contains(Offset(5)));
}

#[test]
fn input_file_accessors() {
    let f = file("text");
    assert_eq!(f.name(), &Word::intern("file.lox"));
    assert_eq!(f.source_text(), "text");
    assert_eq!(f.clone(), f);
}

#[test]
fn words() {
    let w = Word::intern("abc");
    assert_eq!(w.as_str(), "abc");
    assert_eq!(w.clone(), w);
}

#[test]
fn keyword_texts() {
    let texts: Vec<&str> = Keyword::all().into_iter().map(|k| k.str()).collect();
    assert_eq!(
        texts,
        vec![
            "true", "false", "nil", "print", "var", "and", "or", "if", "else", "while", "for",
            "fun", "return",
        ]
    );
    assert_eq!(Keyword::While.word(), Word::intern("while"));
}

#[test]
fn keyword_table() {
    let table = keywords();
    assert_eq!(table.get(&Word::intern("print")), Some(Keyword::Print));
    assert_eq!(table.get(&Word::intern("return")), Some(Keyword::Return));
    assert_eq!(table.get(&Word::intern("printer")), None);
    assert_eq!(table.get(&Word::intern("")), None);
}

#[test]
fn operator_texts() {
    let texts: Vec<&str> = Op::all().into_iter().map(|op| op.str()).collect();
    assert_eq!(texts, vec!["==", "!=", ">=", "<=", "+", "-", "/", "*", "<", ">", "!", "="]);
    assert_eq!(Op::LessEqual.first(), '<');
    assert_eq!(Op::LessEqual.second(), Some('='));
    assert_eq!(Op::Star.first(), '*');
    assert_eq!(Op::Star.second(), None);
}

#[test]
fn operators_are_listed_longest_first() {
    let all = Op::all();
    for i in 1..all.len() {
        assert!(all[i - 1].str().len() >= all[i].str().len());
    }
}
