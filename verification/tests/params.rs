use decl_parse::error::{Construct, ErrorKind};
use decl_parse::cursor::Cursor;
use decl_parse::grammar::{longest_accepted, Grammar};
use decl_parse::param::{read_extent, Extent, Param, Params};
use decl_parse::punct_set::{collect, first_delim, split, PunctSet};
use decl_parse::text::stream_to_string;
use decl_parse::token::{Delimiter, Spacing, Token};
use std::str::FromStr;

fn convert(stream: proc_macro2::TokenStream) -> Vec<Token> {
    let mut out = Vec::new();
    for tree in stream {
        out.push(match tree {
            proc_macro2::TokenTree::Ident(ident) => Token::Ident(ident.to_string()),
            proc_macro2::TokenTree::Literal(literal) => Token::Literal(literal.to_string()),
            proc_macro2::TokenTree::Punct(punct) => Token::Punct(
                punct.as_char(),
                match punct.spacing() {
                    proc_macro2::Spacing::Alone => Spacing::Alone,
                    proc_macro2::Spacing::Joint => Spacing::Joint,
                },
            ),
            proc_macro2::TokenTree::Group(group) => Token::Group(
                match group.delimiter() {
                    proc_macro2::Delimiter::Brace => Delimiter::Brace,
                    proc_macro2::Delimiter::Bracket => Delimiter::Bracket,
                    _ => Delimiter::Parenthesis,
                },
                convert(group.stream()),
            ),
        });
    }
    out
}

fn lex(text: &str) -> Vec<Token> {
    convert(proc_macro2::TokenStream::from_str(text).unwrap())
}

#[test]
fn punct_set_basic() {
    let set = PunctSet::<Vec<Token>>::parse(&lex("a, b, c"), ',').unwrap();
    assert_eq!(set.vals, vec![lex("a"), lex("b"), lex("c")]);
    assert_eq!(set.delim, Some(Token::Punct(',', Spacing::Alone)));
    assert_eq!(set.to_tokens(), lex("a, b, c"));
    assert_eq!(set.display(), "a , b , c");
}

#[test]
fn punct_set_singleton() {
    let set = PunctSet::<Vec<Token>>::parse(&lex("a"), ',').unwrap();
    assert_eq!(set.vals, vec![lex("a")]);
    assert_eq!(set.delim, None);
}

#[test]
fn punct_set_empty() {
    let error = PunctSet::<Vec<Token>>::parse(&lex(""), ',').unwrap_err();
    assert_eq!(error.kind, ErrorKind::EmptySequence);
    assert_eq!(error.context, vec![Construct::PunctSet]);
    assert_eq!(error.remaining, Vec::<Token>::new());
}

#[test]
fn param_named_with_default() {
    let param = Param::parse(&lex("mut a: u8 = 1")).unwrap();
    assert!(!param.publicity);
    assert!(param.mutability);
    assert_eq!(param.name, Some("a".to_string()));
    assert_eq!(param.ty, lex("u8"));
    assert_eq!(param.tuple_args, None);
    assert_eq!(param.default_val, Some((Token::Punct('=', Spacing::Alone), lex("1"))));
    assert_eq!(param.display(), "mut a: u8 = 1");
}

#[test]
fn param_anonymous_with_tuple_args() {
    let param = Param::parse(&lex("X(y)")).unwrap();
    assert_eq!(param.name, None);
    assert_eq!(param.ty, lex("X"));
    let args = param.tuple_args.as_ref().unwrap();
    assert_eq!(args.vals, vec![lex("y")]);
    assert_eq!(param.default_val, None);
    assert_eq!(stream_to_string(&param.to_tokens()), "X (y)");
}

#[test]
fn punct_set_trailing_and_doubled_delimiters() {
    let set = PunctSet::<Vec<Token>>::parse(&lex("a, b,"), ',').unwrap();
    assert_eq!(set.vals, vec![lex("a"), lex("b")]);
    let set = PunctSet::<Vec<Token>>::parse(&lex("a,,b"), ',').unwrap();
    assert_eq!(set.vals, vec![lex("a"), lex(""), lex("b")]);
    assert_eq!(set.delim, Some(Token::Punct(',', Spacing::Joint)));
    assert_eq!(
        set.to_tokens(),
        vec![
            Token::Ident("a".to_string()),
            Token::Punct(',', Spacing::Joint),
            Token::Punct(',', Spacing::Joint),
            Token::Ident("b".to_string()),
        ]
    );
    let error = PunctSet::<Vec<Token>>::parse(&lex(","), ',').unwrap_err();
    assert_eq!(error.kind, ErrorKind::EmptySequence);
    assert_eq!(error.remaining, lex(","));
}

#[test]
fn punct_set_unwraps_parentheses() {
    let set = PunctSet::<Vec<Token>>::parse(&lex("(a + b + c) d"), '+').unwrap();
    assert_eq!(set.vals, vec![lex("a"), lex("b"), lex("c")]);
    assert_eq!(set.delim, Some(Token::Punct('+', Spacing::Alone)));
    assert_eq!(set.display(), "a + b + c");
}

#[test]
fn param_full_form() {
    let param = Param::parse(&lex("pub mut foo: Bar(fish: Fash = default()) = Bar::new(xyz)"))
        .unwrap();
    assert!(param.publicity);
    assert!(param.mutability);
    assert_eq!(param.name, Some("foo".to_string()));
    assert_eq!(param.ty, lex("Bar"));
    assert_eq!(param.tuple_args.as_ref().unwrap().vals, vec![lex("fish: Fash = default()")]);
    assert_eq!(param.default_val.as_ref().unwrap().1, lex("Bar::new(xyz)"));
    assert_eq!(param.display(), "pub mut foo: Bar(fish : Fash = default ()) = Bar :: new (xyz)");
    assert_eq!(param.to_tokens(), lex("pub mut foo: Bar(fish: Fash = default()) = Bar::new(xyz)"));
    let again = Param::parse(&param.to_tokens()).unwrap();
    assert_eq!(again, param);
}

#[test]
fn param_type_is_longest_accepted_prefix() {
    let param = Param::parse(&lex("a: std::vec::Vec<u8> rest")).unwrap();
    assert_eq!(param.ty, lex("std::vec::Vec<u8>"));
    let param = Param::parse(&lex("Z")).unwrap();
    assert_eq!(param.ty, lex("Z"));
    assert_eq!(param.name, None);
}

#[test]
fn param_skips_one_token_before_arguments() {
    let param = Param::parse(&lex("X ; (y, z)")).unwrap();
    assert_eq!(param.ty, lex("X"));
    assert_eq!(param.tuple_args.as_ref().unwrap().vals, vec![lex("y"), lex("z")]);
    assert_eq!(param.to_tokens(), lex("X(y, z)"));
}

#[test]
fn param_errors() {
    let error = Param::parse(&lex("= 1")).unwrap_err();
    assert_eq!(error.kind, ErrorKind::ExpectedType { actual: Some(Token::Punct('=', Spacing::Alone)) });
    assert_eq!(error.context, vec![Construct::Param]);
    assert_eq!(error.remaining, lex("= 1"));
    let error = Param::parse(&lex("mut")).unwrap_err();
    assert_eq!(error.kind, ErrorKind::ExpectedType { actual: None });
    let error = Param::parse(&lex("mut 3: u8")).unwrap_err();
    assert_eq!(error.kind, ErrorKind::MalformedName);
    assert_eq!(error.remaining, lex("3: u8"));
    let error = Param::parse(&lex("a: u8 = ")).unwrap_err();
    assert_eq!(error.kind, ErrorKind::MissingValue);
    let error = Param::parse(&lex("X()")).unwrap_err();
    assert_eq!(error.kind, ErrorKind::EmptySequence);
    assert_eq!(error.context, vec![Construct::PunctSet, Construct::Param]);
}

#[test]
fn param_as_define() {
    let param = Param::parse(&lex("a: Vec<u8>")).unwrap();
    let define = param.as_define();
    assert_eq!(define.ident, "a");
    assert_eq!(define.value, lex("Vec<u8>"));
}

#[test]
fn param_with_given_lengths() {
    let stream = lex("mut a: u8 = 1 + 2 rest");
    let mut cursor = Cursor::new(&stream);
    let param = Param::parse_given(&mut cursor, Some(1), Some(3)).unwrap();
    assert!(param.mutability);
    assert_eq!(param.name, Some("a".to_string()));
    assert_eq!(param.ty, lex("u8"));
    assert_eq!(param.default_val, Some((Token::Punct('=', Spacing::Alone), lex("1 + 2"))));
    assert_eq!(cursor.offset(), 8);
    let mut cursor = Cursor::new(&stream);
    let param = Param::parse_given(&mut cursor, Some(1), Some(1)).unwrap();
    assert_eq!(param.default_val.as_ref().unwrap().1, lex("1"));
    assert_eq!(cursor.offset(), 6);
}

#[test]
fn param_with_given_lengths_that_are_not_valid() {
    let stream = lex("a: u8 = 1");
    let mut cursor = Cursor::new(&stream);
    let error = Param::parse_given(&mut cursor, None, Some(1)).unwrap_err();
    assert_eq!(error.kind, ErrorKind::ExpectedType { actual: Some(Token::Ident("u8".to_string())) });
    assert_eq!(error.remaining, lex("u8 = 1"));
    assert_eq!(cursor.offset(), 0);
    let error = Param::parse_given(&mut cursor, Some(0), Some(1)).unwrap_err();
    assert_eq!(error.kind, ErrorKind::ExpectedType { actual: Some(Token::Ident("u8".to_string())) });
    let error = Param::parse_given(&mut cursor, Some(4), Some(1)).unwrap_err();
    assert_eq!(error.kind, ErrorKind::ExpectedType { actual: Some(Token::Ident("u8".to_string())) });
    let error = Param::parse_given(&mut cursor, Some(1), None).unwrap_err();
    assert_eq!(error.kind, ErrorKind::MissingValue);
    assert_eq!(error.remaining, lex("1"));
    let error = Param::parse_given(&mut cursor, Some(1), Some(2)).unwrap_err();
    assert_eq!(error.kind, ErrorKind::MissingValue);
    assert_eq!(cursor.offset(), 0);
    let param = Param::parse_given(&mut cursor, Some(3), Some(7)).unwrap();
    assert_eq!(param.ty, lex("u8 = 1"));
    assert_eq!(param.default_val, None);
    assert_eq!(cursor.offset(), 5);
}

#[test]
fn longest_accepted_prefix() {
    assert_eq!(longest_accepted(&vec![]), None);
    assert_eq!(longest_accepted(&vec![false, false]), None);
    assert_eq!(longest_accepted(&vec![true, false, true, false]), Some(3));
    assert_eq!(longest_accepted(&vec![true]), Some(1));
}

#[test]
fn grammar_answers_once_for_each_prefix() {
    let stream = lex("Vec < u8 > = 1");
    assert_eq!(Grammar::Type.ask(&stream), vec![true, false, false, true, false, false]);
    assert_eq!(Grammar::Expr.ask(&lex("1 + 2")), vec![true, false, true]);
    assert!(Grammar::Type.accepts(&lex("std::vec::Vec<u8>")));
    assert!(!Grammar::Type.accepts(&lex("X(y)")));
}

#[test]
fn read_extent_asked_and_given() {
    let stream = lex("u8 = 1");
    let mut cursor = Cursor::new(&stream);
    assert_eq!(read_extent(Grammar::Type, &mut cursor, Extent::Given(Some(4))), None);
    assert_eq!(read_extent(Grammar::Type, &mut cursor, Extent::Given(None)), None);
    assert_eq!(cursor.offset(), 0);
    assert_eq!(read_extent(Grammar::Type, &mut cursor, Extent::Given(Some(2))), Some(lex("u8 =")));
    assert_eq!(cursor.offset(), 2);
    let mut cursor = Cursor::new(&stream);
    assert_eq!(read_extent(Grammar::Type, &mut cursor, Extent::Ask), Some(lex("u8")));
    assert_eq!(cursor.offset(), 1);
    assert_eq!(read_extent(Grammar::Type, &mut cursor, Extent::Ask), None);
    assert_eq!(cursor.offset(), 1);
}

#[test]
fn split_and_collect() {
    let stream = lex("a, b c,, d,");
    let parts = split(&stream, ',');
    assert_eq!(parts, vec![lex("a"), lex("b c"), lex(""), lex("d")]);
    assert_eq!(first_delim(&stream, ','), Some(Token::Punct(',', Spacing::Alone)));
    assert_eq!(first_delim(&lex("a b"), ','), None);
    let set = collect(&stream, ',', vec![Some(1u8), Some(2), Some(3), Some(4)], Construct::Param)
        .unwrap();
    assert_eq!(set.vals, vec![1, 2, 3, 4]);
    assert_eq!(set.delim, Some(Token::Punct(',', Spacing::Alone)));
    let error = collect(&stream, ',', vec![Some(1u8), None, None, Some(4)], Construct::Define)
        .unwrap_err();
    assert_eq!(
        error.kind,
        ErrorKind::ElementParseFailed { expected: Construct::Define, got: lex("b c") }
    );
    assert_eq!(error.remaining, lex(",, d,"));
    assert_eq!(error.context, vec![Construct::PunctSet]);
    let error = collect(&lex(","), ',', Vec::<Option<u8>>::new(), Construct::Param).unwrap_err();
    assert_eq!(error.kind, ErrorKind::EmptySequence);
    assert_eq!(error.remaining, lex(","));
    assert_eq!(split(&lex(""), ','), Vec::<Vec<Token>>::new());
}

#[test]
fn params_with_given_lengths() {
    let stream = lex("mut a: u8 = 1, X(y)");
    let params = Params::parse_given(&stream, &vec![(Some(1), Some(1)), (Some(1), None)]).unwrap();
    assert_eq!(params, Params::parse(&stream).unwrap());
    assert_eq!(params.vals.len(), 2);
    let error = Params::parse_given(&stream, &vec![(Some(1), Some(1))]).unwrap_err();
    assert_eq!(
        error.kind,
        ErrorKind::ElementParseFailed { expected: Construct::Param, got: lex("X(y)") }
    );
    let error = Params::parse_given(&stream, &vec![(Some(2), None), (Some(1), None)]).unwrap_err();
    assert_eq!(
        error.kind,
        ErrorKind::ElementParseFailed { expected: Construct::Param, got: lex("mut a: u8 = 1") }
    );
    assert_eq!(error.remaining, lex(", X(y)"));
}
