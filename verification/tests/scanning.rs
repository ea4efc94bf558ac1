use decl_parse::cursor::Cursor;
use decl_parse::error::{Construct, ErrorKind};
use decl_parse::find_first::{ParseFirst, PeekFirst};
use decl_parse::parse_utils::{
    comes_next, comes_next_any_surrounder, ends_next, find_end_of_widget_body, first_equal,
    parse_peekables_until,
    parse_peeks_until, parse_tokens_until, parse_until, ts_ends_next, unwrap_input, AnyParsable,
    SurrounderDir,
};
use decl_parse::stringify::{parsable_as_string, peekable_as_string, StringableParsable};
use decl_parse::text::{stream_to_string, token_to_string};
use decl_parse::token::{Delimiter, Spacing, Token, TokenKind};

fn ident(name: &str) -> Token {
    Token::Ident(name.to_string())
}

fn punct(ch: char) -> Token {
    Token::Punct(ch, Spacing::Alone)
}

fn group(delimiter: Delimiter, inner: Vec<Token>) -> Token {
    Token::Group(delimiter, inner)
}

#[test]
fn find_first_identifier() {
    let stream = vec![punct(','), punct(';'), ident("x"), punct('+'), punct('-')];
    let mut cursor = Cursor::new(&stream);
    let found = ParseFirst::parse(&mut cursor, TokenKind::Ident).unwrap();
    assert_eq!(found.0, ident("x"));
    assert!(cursor.is_empty());
    assert_eq!(cursor.offset(), 5);
    assert_eq!(found.to_tokens(), vec![ident("x")]);
    assert_eq!(found.display(), "x");
}

#[test]
fn find_first_no_match() {
    let stream = vec![punct(','), punct(';')];
    let mut cursor = Cursor::new(&stream);
    let error = ParseFirst::parse(&mut cursor, TokenKind::Ident).unwrap_err();
    assert_eq!(error.kind, ErrorKind::NoMatchFound { expected: TokenKind::Ident });
    assert_eq!(error.context, vec![Construct::FindFirst]);
    assert_eq!(error.remaining, Vec::<Token>::new());
    assert!(cursor.is_empty());
}

#[test]
fn peek_first_leaves_cursor() {
    let stream = vec![punct(','), ident("x"), punct('+')];
    let mut cursor = Cursor::new(&stream);
    cursor.next();
    let found = PeekFirst::parse(&cursor, TokenKind::Punct('+')).unwrap();
    assert_eq!(found.0, punct('+'));
    assert_eq!(found.display(), "`+`");
    assert_eq!(cursor.offset(), 1);
    let error = PeekFirst::parse(&cursor, TokenKind::Literal).unwrap_err();
    assert_eq!(error.kind, ErrorKind::NoMatchFound { expected: TokenKind::Literal });
    assert_eq!(error.remaining, vec![ident("x"), punct('+')]);
    assert_eq!(cursor.offset(), 1);
}

#[test]
fn balanced_region_scan() {
    let stream = vec![
        punct('{'),
        ident("a"),
        punct('{'),
        ident("b"),
        punct('}'),
        punct('#'),
        ident("c"),
        punct('}'),
    ];
    let mut cursor = Cursor::new(&stream);
    let region = find_end_of_widget_body(&mut cursor, 1).unwrap();
    assert_eq!(region, stream[..5].to_vec());
    assert_eq!(cursor.offset(), 5);
    assert_eq!(cursor.peek(0), Some(&punct('#')));
}

#[test]
fn balanced_region_stops_after_outer_close() {
    let stream = vec![ident("a"), punct('}'), punct('#'), ident("b")];
    let mut cursor = Cursor::new(&stream);
    let region = find_end_of_widget_body(&mut cursor, 1).unwrap();
    assert_eq!(region, vec![ident("a"), punct('}')]);
    assert_eq!(cursor.offset(), 2);
}

#[test]
fn balanced_region_stops_after_braced_group() {
    let stream = vec![
        ident("a"),
        punct('#'),
        group(Delimiter::Brace, vec![ident("b")]),
        punct('#'),
        ident("c"),
    ];
    let mut cursor = Cursor::new(&stream);
    let region = find_end_of_widget_body(&mut cursor, 0).unwrap();
    assert_eq!(region.len(), 3);
    assert_eq!(cursor.offset(), 3);
}

#[test]
fn balanced_region_runs_to_the_end() {
    let stream = vec![punct('{'), ident("a"), punct('}'), ident("b")];
    let mut cursor = Cursor::new(&stream);
    let region = find_end_of_widget_body(&mut cursor, 0).unwrap();
    assert_eq!(region.len(), 4);
    assert!(cursor.is_empty());
}

#[test]
fn balanced_region_unbalanced() {
    let stream = vec![punct('{'), ident("a")];
    let mut cursor = Cursor::new(&stream);
    let error = find_end_of_widget_body(&mut cursor, 0).unwrap_err();
    assert_eq!(error.kind, ErrorKind::UnbalancedGroup);
    assert_eq!(error.context, vec![Construct::Scan]);
    assert_eq!(cursor.offset(), 0);
    let stream = vec![ident("a")];
    let mut cursor = Cursor::new(&stream);
    assert!(find_end_of_widget_body(&mut cursor, 1).is_err());
    let mut cursor = Cursor::new(&stream);
    assert!(find_end_of_widget_body(&mut cursor, 0).is_ok());
}

#[test]
fn parse_until_stops_before_delimiter() {
    let stream = vec![ident("a"), ident("b"), punct(','), ident("c")];
    let mut cursor = Cursor::new(&stream);
    let taken = parse_until(&mut cursor, TokenKind::Punct(','));
    assert_eq!(taken, vec![ident("a"), ident("b")]);
    assert_eq!(cursor.offset(), 2);
    let taken = parse_until(&mut cursor, TokenKind::Punct(','));
    assert_eq!(taken, Vec::<Token>::new());
    assert_eq!(cursor.offset(), 2);
    cursor.next();
    let taken = parse_until(&mut cursor, TokenKind::Punct(','));
    assert_eq!(taken, vec![ident("c")]);
    assert!(cursor.is_empty());
}

#[test]
fn parse_peekables_until_group() {
    let stream = vec![ident("a"), punct('+'), group(Delimiter::Brace, vec![]), ident("c")];
    let mut cursor = Cursor::new(&stream);
    let taken = parse_peekables_until(&mut cursor, TokenKind::Group(Delimiter::Brace));
    assert_eq!(taken, vec![ident("a"), punct('+')]);
    assert!(comes_next(&cursor, TokenKind::Group(Delimiter::Brace)));
    assert!(comes_next_any_surrounder(&cursor, SurrounderDir::Any));
    assert!(!comes_next_any_surrounder(&cursor, SurrounderDir::Forward));
}

#[test]
fn parse_peeks_until_same_text() {
    let stream = vec![ident("a"), Token::Punct(';', Spacing::Joint), ident("b")];
    let mut cursor = Cursor::new(&stream);
    let taken = parse_peeks_until(&mut cursor, &punct(';'));
    assert_eq!(taken, vec![ident("a")]);
    assert!(ends_next(&cursor));
    assert!(!ts_ends_next(&stream));
    assert!(ts_ends_next(&cursor.snapshot()));
}

#[test]
fn parse_tokens_until_trims() {
    let stream = vec![ident("a"), ident("end"), ident("b")];
    assert_eq!(parse_tokens_until(&stream, "  end "), vec![ident("a")]);
    assert_eq!(parse_tokens_until(&stream, "none"), stream);
    assert_eq!(parse_tokens_until(&stream, "a"), Vec::<Token>::new());
}

#[test]
fn surrounders() {
    let stream = vec![punct('('), punct(']')];
    let mut cursor = Cursor::new(&stream);
    assert!(comes_next_any_surrounder(&cursor, SurrounderDir::Forward));
    assert!(!comes_next_any_surrounder(&cursor, SurrounderDir::Backward));
    assert!(!comes_next_any_surrounder(&cursor, SurrounderDir::Any));
    cursor.next();
    assert!(comes_next_any_surrounder(&cursor, SurrounderDir::Backward));
    cursor.next();
    assert!(!comes_next_any_surrounder(&cursor, SurrounderDir::Backward));
    assert!(!comes_next_any_surrounder(&cursor, SurrounderDir::Any));
}

#[test]
fn any_parsable() {
    let stream = vec![group(Delimiter::Bracket, vec![ident("a")])];
    let mut cursor = Cursor::new(&stream);
    let any = AnyParsable::parse(&mut cursor).unwrap();
    assert_eq!(any.to_tokens(), stream);
    let error = AnyParsable::parse(&mut cursor).unwrap_err();
    assert_eq!(error.kind, ErrorKind::NoMatchFound { expected: TokenKind::Any });
}

#[test]
fn cursor_fork_and_commit() {
    let stream = vec![ident("a"), ident("b"), ident("c")];
    let mut cursor = Cursor::new(&stream);
    let mut fork = cursor.fork();
    fork.next();
    fork.next();
    assert_eq!(cursor.offset(), 0);
    assert_eq!(cursor.peek(2), Some(&ident("c")));
    assert_eq!(cursor.peek(3), None);
    cursor.commit(fork);
    assert_eq!(cursor.offset(), 2);
    assert_eq!(cursor.len(), 1);
    assert_eq!(cursor.take(1), vec![ident("c")]);
    assert_eq!(cursor.next(), None);
}

#[test]
fn unwrap_input_takes_interior() {
    let inner = vec![ident("a"), punct(','), ident("b")];
    let stream = vec![group(Delimiter::Parenthesis, inner.clone()), ident("dropped")];
    assert_eq!(unwrap_input(&stream, Delimiter::Parenthesis), &inner);
    assert_eq!(unwrap_input(&stream, Delimiter::Brace), &stream);
    assert_eq!(unwrap_input(&inner, Delimiter::Parenthesis), &inner);
}

#[test]
fn text_of_tokens() {
    let stream = vec![
        ident("a"),
        Token::Punct(':', Spacing::Joint),
        Token::Punct(':', Spacing::Alone),
        ident("b"),
        group(Delimiter::Bracket, vec![Token::Literal("1".to_string()), punct(';'), ident("n")]),
        group(Delimiter::Brace, vec![]),
    ];
    assert_eq!(stream_to_string(&stream), "a :: b [1 ; n] {}");
    assert_eq!(parsable_as_string(&stream), "a :: b [1 ; n] {}");
    assert_eq!(token_to_string(&stream[4]), "[1 ; n]");
    assert_eq!(stream_to_string(&Vec::new()), "");
    let wrapped = StringableParsable::from(stream.clone());
    assert_eq!(wrapped.display(), "a :: b [1 ; n] {}");
    assert_eq!(wrapped.to_tokens(), stream);
}

#[test]
fn names_of_kinds() {
    assert_eq!(peekable_as_string(TokenKind::Ident), "identifier");
    assert_eq!(peekable_as_string(TokenKind::Literal), "literal");
    assert_eq!(peekable_as_string(TokenKind::Punct(',')), "`,`");
    assert_eq!(peekable_as_string(TokenKind::Group(Delimiter::Parenthesis)), "parentheses");
    assert_eq!(peekable_as_string(TokenKind::Group(Delimiter::Brace)), "curly braces");
    assert_eq!(peekable_as_string(TokenKind::Group(Delimiter::Bracket)), "square brackets");
    assert_eq!(peekable_as_string(TokenKind::Any), "token");
}

#[test]
fn first_equal_text() {
    let texts = vec!["a".to_string(), "b".to_string(), "a".to_string()];
    assert_eq!(first_equal(&texts, &"a".to_string()), 0);
    assert_eq!(first_equal(&texts, &"b".to_string()), 1);
    assert_eq!(first_equal(&texts, &"c".to_string()), 3);
    assert_eq!(first_equal(&Vec::new(), &"c".to_string()), 0);
}

#[test]
fn find_first_word() {
    let stream = vec![ident("let"), ident("mut"), ident("a"), punct(':')];
    let mut cursor = Cursor::new(&stream);
    let found = ParseFirst::parse(&mut cursor, TokenKind::Word("mut")).unwrap();
    assert_eq!(found.0, ident("mut"));
    assert!(cursor.is_empty());
    let cursor = Cursor::new(&stream);
    let error = PeekFirst::parse(&cursor, TokenKind::Word("pub")).unwrap_err();
    assert_eq!(error.kind, ErrorKind::NoMatchFound { expected: TokenKind::Word("pub") });
    assert_eq!(peekable_as_string(TokenKind::Word("pub")), "`pub`");
    assert!(comes_next(&cursor, TokenKind::Word("let")));
    assert!(!comes_next(&cursor, TokenKind::Word("mut")));
}
