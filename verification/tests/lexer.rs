use lox::input_file::InputFile;
use lox::kw::Keyword;
use lox::lex::{closing_delimiter, lex_file};
use lox::span::{Offset, Span};
use lox::token::{Token, TokenTree};
use lox::word::Word;

fn lex(source: &str) -> TokenTree {
    let file = InputFile::new(Word::intern("test"), source.to_string());
    lex_file(&file).unwrap()
}

fn word(text: &str) -> Word {
    Word::intern(text)
}

#[test]
fn smoke() {
    let input_file = InputFile::new(Word::intern("test"), "1 + 2".to_string());
    let token_tree = lex_file(&input_file).unwrap();
    println!("{:?}", token_tree.tokens);
    assert_eq!(
        token_tree.tokens,
        vec![
            Token::Number(word("1")),
            Token::Whitespace(' '),
            Token::Op('+'),
            Token::Whitespace(' '),
            Token::Number(word("2")),
        ]
    );
}

#[test]
fn token_test_for_keyword() {
    let test_keyword = |keyword: Keyword, token_str: &str| {
        let token = Token::Alphabetic(Word::intern(token_str));
        assert_eq!(keyword.test(&token), Some(keyword));
    };

    test_keyword(Keyword::True, "true");
    test_keyword(Keyword::False, "false");
    test_keyword(Keyword::Nil, "nil");

    let token = Token::Alphabetic(Word::intern("foo"));
    assert_eq!(Keyword::True.test(&token), None);
}

#[test]
fn span_of_the_whole_text() {
    let tree = lex("1 + 2");
    assert_eq!(tree.span, Span { start: Offset(0), end: Offset(5) });
}

#[test]
fn delimiters_make_trees() {
    let tree = lex("(a)");
    assert_eq!(
        tree.tokens,
        vec![
            Token::Delimiter('('),
            Token::Tree(TokenTree {
                span: Span { start: Offset(1), end: Offset(2) },
                tokens: vec![Token::Alphabetic(word("a"))],
            }),
            Token::Delimiter(')'),
        ]
    );
}

#[test]
fn unclosed_delimiter_reads_to_the_end() {
    let tree = lex("{ x");
    assert_eq!(
        tree.tokens,
        vec![
            Token::Delimiter('{'),
            Token::Tree(TokenTree {
                span: Span { start: Offset(1), end: Offset(3) },
                tokens: vec![Token::Whitespace(' '), Token::Alphabetic(word("x"))],
            }),
        ]
    );
}

#[test]
fn nested_groups_close_at_their_own_delimiter() {
    let tree = lex("[(])");
    assert_eq!(
        tree.tokens,
        vec![
            Token::Delimiter('['),
            Token::Tree(TokenTree {
                span: Span { start: Offset(1), end: Offset(4) },
                tokens: vec![
                    Token::Delimiter('('),
                    Token::Tree(TokenTree {
                        span: Span { start: Offset(2), end: Offset(3) },
                        tokens: vec![Token::Unknown(']')],
                    }),
                    Token::Delimiter(')'),
                ],
            }),
        ]
    );
}

#[test]
fn identifiers_numbers_and_strings() {
    let tree = lex("foo_1 42 \"a b\"");
    assert_eq!(
        tree.tokens,
        vec![
            Token::Alphabetic(word("foo_1")),
            Token::Whitespace(' '),
            Token::Number(word("42")),
            Token::Whitespace(' '),
            Token::String(word("a b")),
        ]
    );
}

#[test]
fn number_stops_at_a_letter() {
    let tree = lex("12ab");
    assert_eq!(tree.tokens, vec![Token::Number(word("12")), Token::Alphabetic(word("ab"))]);
}

#[test]
fn unterminated_string_reads_to_the_end() {
    let tree = lex("\"abc");
    assert_eq!(tree.tokens, vec![Token::String(word("abc"))]);
}

#[test]
fn operators_are_single_characters() {
    let tree = lex("<=!=");
    assert_eq!(
        tree.tokens,
        vec![Token::Op('<'), Token::Op('='), Token::Op('!'), Token::Op('=')]
    );
}

#[test]
fn punctuation_whitespace_and_unknown() {
    let tree = lex(";,\n\t#\u{a0}");
    assert_eq!(
        tree.tokens,
        vec![
            Token::Semicolon,
            Token::Comma,
            Token::Whitespace('\n'),
            Token::Whitespace('\t'),
            Token::Unknown('#'),
            Token::Whitespace('\u{a0}'),
        ]
    );
}

#[test]
fn offsets_count_bytes() {
    let tree = lex("\u{e9}(x)");
    assert_eq!(tree.span, Span { start: Offset(0), end: Offset(5) });
    assert_eq!(
        tree.tokens[2],
        Token::Tree(TokenTree {
            span: Span { start: Offset(3), end: Offset(4) },
            tokens: vec![Token::Alphabetic(word("x"))],
        })
    );
}

#[test]
fn empty_text_has_no_tokens() {
    let tree = lex("");
    assert_eq!(tree.tokens, vec![]);
    assert_eq!(tree.span, Span { start: Offset(0), end: Offset(0) });
}

#[test]
fn closing_delimiters() {
    assert_eq!(closing_delimiter('('), ')');
    assert_eq!(closing_delimiter('['), ']');
    assert_eq!(closing_delimiter('{'), '}');
}

#[test]
fn token_lengths() {
    assert_eq!(Token::Alphabetic(word("abc")).span_len(), 3);
    assert_eq!(Token::Number(word("12")).span_len(), 2);
    assert_eq!(Token::Op('+').span_len(), 1);
    assert_eq!(Token::Whitespace('\u{2003}').span_len(), 3);
    assert_eq!(Token::Unknown('\u{1f600}').span_len(), 4);
    assert_eq!(Token::Comment(7).span_len(), 7);
    assert_eq!(Token::String(word("h\u{e9}")).span_len(), 5);
    assert_eq!(Token::Semicolon.span_len(), 1);
    assert_eq!(Token::Comma.span_len(), 1);
    let tree = TokenTree { span: Span { start: Offset(4), end: Offset(10) }, tokens: vec![] };
    assert_eq!(Token::Tree(tree).span_len(), 6);
    let backwards = TokenTree { span: Span { start: Offset(4), end: Offset(1) }, tokens: vec![] };
    assert_eq!(Token::Tree(backwards).span_len(), 0);
    assert_eq!(Token::Comment(u32::MAX).span_len(), u32::MAX);
}

#[test]
fn token_accessors() {
    let alphabetic = Token::Alphabetic(word("abc"));
    assert_eq!(alphabetic.alphabetic(), Some(&word("abc")));
    assert_eq!(alphabetic.alphabetic_str(), Some("abc"));
    assert_eq!(alphabetic.tree(), None);
    let tree = TokenTree { span: Span { start: Offset(0), end: Offset(0) }, tokens: vec![] };
    let token = Token::Tree(TokenTree { span: tree.span, tokens: vec![] });
    assert_eq!(token.tree(), Some(&tree));
    assert_eq!(token.alphabetic(), None);
    assert_eq!(Token::Number(word("1")).alphabetic_str(), None);
}
