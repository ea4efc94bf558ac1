use decl_parse::cursor::Cursor;
use decl_parse::declaration::{Answers, Declaration, Trails};
use decl_parse::define::{Define, Defines};
use decl_parse::error::{Construct, ErrorKind};
use decl_parse::param::Params;
use decl_parse::text::stream_to_string;
use decl_parse::token::{Delimiter, Spacing, Token};
use std::str::FromStr;

fn to_tokens(stream: proc_macro2::TokenStream) -> Vec<Token> {
    let mut out = Vec::new();
    for tree in stream {
        out.push(match tree {
            proc_macro2::TokenTree::Ident(ident) => Token::Ident(ident.to_string()),
            proc_macro2::TokenTree::Literal(literal) => Token::Literal(literal.to_string()),
            proc_macro2::TokenTree::Punct(punct) => Token::Punct(
                punct.as_char(),
                match punct.spacing() {
                    proc_macro2::Spacing::Alone => Spacing::Alone,
                    proc_macro2::Spacing::Joint => Spacing::Joint,
                },
            ),
            proc_macro2::TokenTree::Group(group) => Token::Group(
                match group.delimiter() {
                    proc_macro2::Delimiter::Brace => Delimiter::Brace,
                    proc_macro2::Delimiter::Bracket => Delimiter::Bracket,
                    _ => Delimiter::Parenthesis,
                },
                to_tokens(group.stream()),
            ),
        });
    }
    out
}

fn tokens(text: &str) -> Vec<Token> {
    to_tokens(proc_macro2::TokenStream::from_str(text).unwrap())
}

#[test]
fn declaration_full_form() {
    let declaration = Declaration::parse(&tokens("Foo(bar): TraitA + TraitB { body }")).unwrap();
    assert_eq!(declaration.name, None);
    assert_eq!(declaration.ty, "Foo");
    let params = declaration.params.as_ref().unwrap();
    assert_eq!(params.vals.len(), 1);
    assert_eq!(params.vals[0].ty, tokens("bar"));
    assert_eq!(params.vals[0].name, None);
    assert_eq!(params.delim, None);
    let trails = declaration.trails.as_ref().unwrap();
    assert_eq!(trails.vals.len(), 2);
    assert_eq!(trails.vals[0].ty, "TraitA");
    assert_eq!(trails.vals[1].ty, "TraitB");
    assert_eq!(trails.vals[0].params, None);
    assert_eq!(trails.vals[1].body, None);
    assert_eq!(trails.delim, Some(Token::Punct('+', Spacing::Alone)));
    assert_eq!(declaration.body, Some(tokens("body")));
    assert_eq!(declaration.display(), "Foo(bar): TraitA + TraitB");
}

#[test]
fn declaration_round_trip() {
    let first = Declaration::parse(&tokens("n: Foo(mut a: u8 = 1, b: f32): TraitA + TraitB(x) { let y = 1; }"))
        .unwrap();
    let written = first.to_tokens();
    assert_eq!(
        stream_to_string(&written),
        "n : Foo (mut a : u8 = 1 , b : f32) : TraitA + TraitB (x) {let y = 1 ;}"
    );
    let second = Declaration::parse(&written).unwrap();
    assert_eq!(first, second);
}

#[test]
fn declaration_round_trip_drops_skipped_tokens() {
    let first = Declaration::parse(&tokens("Foo ! (bar) junk { body }")).unwrap();
    assert_eq!(first.params.as_ref().unwrap().vals[0].ty, tokens("bar"));
    assert_eq!(first.trails, None);
    assert_eq!(first.body, Some(tokens("body")));
    let written = first.to_tokens();
    assert_eq!(written, tokens("Foo(bar) { body }"));
    assert_eq!(Declaration::parse(&written).unwrap(), first);
}

#[test]
fn declaration_unwraps_parentheses() {
    let wrapped = Declaration::parse(&tokens("(name: Foo(bar))")).unwrap();
    let plain = Declaration::parse(&tokens("name: Foo(bar)")).unwrap();
    assert_eq!(wrapped, plain);
    assert_eq!(wrapped.name, Some("name".to_string()));
    assert_eq!(wrapped.display(), "name: Foo(bar)");
}

#[test]
fn declaration_minimal() {
    let declaration = Declaration::parse(&tokens("Foo")).unwrap();
    assert_eq!(declaration.name, None);
    assert_eq!(declaration.ty, "Foo");
    assert_eq!(declaration.params, None);
    assert_eq!(declaration.trails, None);
    assert_eq!(declaration.body, None);
    assert_eq!(declaration.to_tokens(), tokens("Foo"));
}

#[test]
fn declaration_missing_type() {
    let error = Declaration::parse(&tokens("")).unwrap_err();
    assert_eq!(error.kind, ErrorKind::MissingType);
    assert_eq!(error.context, vec![Construct::Declaration]);
    let error = Declaration::parse(&tokens("name: 3")).unwrap_err();
    assert_eq!(error.kind, ErrorKind::MissingType);
    assert_eq!(error.remaining, tokens("3"));
    assert_eq!(error.position(3), 2);
}

#[test]
fn declaration_empty_params_fail() {
    let error = Declaration::parse(&tokens("Foo()")).unwrap_err();
    assert_eq!(error.kind, ErrorKind::EmptySequence);
    assert_eq!(error.context, vec![Construct::PunctSet, Construct::Declaration]);
}

#[test]
fn declaration_bad_param_fails() {
    let error = Declaration::parse(&tokens("Foo(a: u8, =)")).unwrap_err();
    assert_eq!(
        error.kind,
        ErrorKind::ElementParseFailed { expected: Construct::Param, got: tokens("=") }
    );
    assert_eq!(error.context, vec![Construct::PunctSet, Construct::Declaration]);
    assert_eq!(error.remaining, Vec::<Token>::new());
}

#[test]
fn declaration_bad_trail_fails() {
    let error = Declaration::parse(&tokens("Foo(a): A + 3")).unwrap_err();
    assert_eq!(
        error.kind,
        ErrorKind::ElementParseFailed { expected: Construct::Declaration, got: tokens("3") }
    );
    assert_eq!(error.context, vec![Construct::PunctSet, Construct::Declaration]);
}

#[test]
fn declaration_cursor_commits_body() {
    let stream = tokens("Foo(bar) { body } after");
    let mut cursor = Cursor::new(&stream);
    let declaration = Declaration::parse_cursor(&mut cursor).unwrap();
    assert_eq!(declaration.body, Some(tokens("body")));
    assert_eq!(cursor.offset(), 3);
    assert_eq!(cursor.snapshot(), tokens("after"));
}

#[test]
fn declaration_cursor_stays_on_error() {
    let stream = tokens("Foo()");
    let mut cursor = Cursor::new(&stream);
    assert!(Declaration::parse_cursor(&mut cursor).is_err());
    assert_eq!(cursor.offset(), 0);
}

#[test]
fn trails_parse_and_write() {
    let trails = Trails::parse(&tokens("A + B(x) + c: D")).unwrap();
    assert_eq!(trails.vals.len(), 3);
    assert_eq!(trails.vals[2].name, Some("c".to_string()));
    assert_eq!(trails.vals[2].ty, "D");
    assert_eq!(trails.to_tokens(), tokens("A + B(x) + c: D"));
    assert_eq!(trails.display(), "A + B (x) + c : D");
}

#[test]
fn params_parse_and_write() {
    let params = Params::parse(&tokens("(pub a: u8, mut X(y, z), Z = 1 + 2)")).unwrap();
    assert_eq!(params.vals.len(), 3);
    assert!(params.vals[0].publicity);
    assert_eq!(params.vals[1].tuple_args.as_ref().unwrap().vals, vec![tokens("y"), tokens("z")]);
    assert_eq!(params.vals[2].default_val.as_ref().unwrap().1, tokens("1 + 2"));
    assert_eq!(params.delim, Some(Token::Punct(',', Spacing::Alone)));
    assert_eq!(params.to_tokens(), tokens("pub a: u8, mut X(y, z), Z = 1 + 2"));
    assert_eq!(params.display(), "pub a : u8 , mut X (y , z) , Z = 1 + 2");
}

#[test]
fn params_trailing_comma() {
    let params = Params::parse(&tokens("a: u8,")).unwrap();
    assert_eq!(params.vals.len(), 1);
    assert_eq!(params.delim, Some(Token::Punct(',', Spacing::Alone)));
    assert_eq!(params.to_tokens(), tokens("a: u8"));
}

#[test]
fn define_parse() {
    let define = Define::parse(&tokens("Thing: SomeCtor(cool)")).unwrap();
    assert_eq!(define.ident, "Thing");
    assert_eq!(define.value, tokens("SomeCtor(cool)"));
    assert_eq!(define.name(), "thing");
    assert_eq!(define.to_tokens(), tokens("Thing: SomeCtor(cool)"));
    assert_eq!(define.as_pub(), tokens("pub Thing: SomeCtor(cool)"));
    assert_eq!(define.display(), "Thing : SomeCtor (cool)");
}

#[test]
fn define_separator_is_not_checked() {
    let define = Define::parse(&tokens("foo = Bar")).unwrap();
    assert_eq!(define.ident, "foo");
    assert_eq!(define.value, tokens("Bar"));
}

#[test]
fn define_errors() {
    let error = Define::parse(&tokens("3: x")).unwrap_err();
    assert_eq!(error.kind, ErrorKind::MissingIdent);
    assert_eq!(error.remaining, tokens("3: x"));
    assert_eq!(error.context, vec![Construct::Define]);
    let error = Define::parse(&tokens("")).unwrap_err();
    assert_eq!(error.kind, ErrorKind::MissingIdent);
    let error = Define::parse(&tokens("foo:")).unwrap_err();
    assert_eq!(error.kind, ErrorKind::MissingValue);
    let error = Define::parse(&tokens("foo")).unwrap_err();
    assert_eq!(error.kind, ErrorKind::MissingValue);
}

#[test]
fn defines_parse_and_write() {
    let defines = Defines::parse(&tokens("a: u8, b: Vec(x)")).unwrap();
    assert_eq!(defines.vals.len(), 2);
    assert_eq!(defines.vals[1].ident, "b");
    assert_eq!(defines.to_tokens(), tokens("a: u8, b: Vec(x)"));
    assert_eq!(defines.display(), "a : u8 , b : Vec (x)");
    let error = Defines::parse(&tokens("a: u8, b")).unwrap_err();
    assert_eq!(
        error.kind,
        ErrorKind::ElementParseFailed { expected: Construct::Define, got: tokens("b") }
    );
}

#[test]
fn defines_empty() {
    let defines = Defines::empty();
    assert_eq!(defines.vals.len(), 0);
    assert_eq!(defines.delim, Some(Token::Punct(',', Spacing::Alone)));
    assert_eq!(defines.to_tokens(), Vec::<Token>::new());
}

#[test]
fn widget_build_block() {
    let declaration = Declaration::parse(&tokens("w: Button(a: u8, b)")).unwrap();
    assert_eq!(declaration.as_widget_build_block(), tokens("Button::new(a: u8, b)"));
    let bare = Declaration::parse(&tokens("Button")).unwrap();
    assert_eq!(bare.as_widget_build_block(), tokens("Button::new()"));
}

#[test]
fn let_declarations() {
    let params = Params::parse(&tokens("mut a: u8 = 1, b: String")).unwrap();
    assert_eq!(params.vals[0].as_regular_let_decl(), tokens("let mut a: u8 = 1;"));
    assert_eq!(params.vals[1].as_regular_let_decl_without_end_punct(), tokens("let b: String"));
    assert_eq!(params.as_regular_let_decls(), tokens("let mut a: u8 = 1; let b: String;"));
    assert_eq!(
        params.as_regular_let_decls_with_value_from_samed_name_var(),
        tokens("let mut a: u8 = 1 = a.clone(), let b: String = b.clone()")
    );
    assert_eq!(
        params.as_regular_let_decls_with_value_from_samed_name_self_var(),
        tokens("let mut a: u8 = 1 = self.a.clone(), let b: String = self.b.clone()")
    );
    assert_eq!(
        params.as_value_decls_with_value_from_samed_name_var(),
        tokens("a: a.clone(), b: b.clone()")
    );
}

#[test]
fn value_source_of_unnamed_param() {
    let params = Params::parse(&tokens("Vec<u8>")).unwrap();
    assert_eq!(params.vals[0].value_source(), Some(Token::Ident("Vec".to_string())));
    assert_eq!(
        params.as_regular_let_decls_with_value_from_samed_name_var(),
        tokens("let : Vec<u8> = Vec.clone()")
    );
}

#[test]
fn round_trip_fails_after_a_kept_lone_separator() {
    let first = Declaration::parse(&tokens("Foo(a,)")).unwrap();
    let second = Declaration::parse(&first.to_tokens()).unwrap();
    assert_eq!(first.params.as_ref().unwrap().delim, Some(Token::Punct(',', Spacing::Alone)));
    assert_eq!(second.params.as_ref().unwrap().delim, None);
    assert_eq!(first.params.as_ref().unwrap().vals, second.params.as_ref().unwrap().vals);
}

#[test]
fn round_trip_of_nested_trails() {
    let first = Declaration::parse(&tokens("Foo(a): A(x): B + C(y, z = 2)")).unwrap();
    let trails = first.trails.as_ref().unwrap();
    assert_eq!(trails.vals.len(), 2);
    assert_eq!(trails.vals[0].trails.as_ref().unwrap().vals[0].ty, "B");
    let second = Declaration::parse(&first.to_tokens()).unwrap();
    assert_eq!(first, second);
}

#[test]
fn round_trip_fails_when_the_type_grows() {
    let first = Declaration::parse(&tokens("Foo(dyn Fn ; (y))")).unwrap();
    let param = &first.params.as_ref().unwrap().vals[0];
    assert_eq!(param.ty, tokens("dyn Fn"));
    assert_eq!(param.tuple_args.as_ref().unwrap().vals, vec![tokens("y")]);
    let second = Declaration::parse(&first.to_tokens()).unwrap();
    let again = &second.params.as_ref().unwrap().vals[0];
    assert_eq!(again.ty, tokens("dyn Fn(y)"));
    assert_eq!(again.tuple_args, None);
}

#[test]
fn body_only_from_a_group_in_braces() {
    let stream = tokens("{ a b } (c) d");
    let mut cursor = Cursor::new(&stream);
    assert_eq!(Declaration::parse_body(&mut cursor), Some(tokens("a b")));
    assert_eq!(cursor.offset(), 1);
    assert_eq!(Declaration::parse_body(&mut cursor), None);
    assert_eq!(cursor.offset(), 1);
    cursor.next();
    assert_eq!(Declaration::parse_body(&mut cursor), None);
    assert_eq!(cursor.offset(), 2);
    cursor.next();
    assert_eq!(Declaration::parse_body(&mut cursor), None);
    assert_eq!(cursor.offset(), 3);
}

#[test]
fn assemble_from_outcomes() {
    let stream = tokens("n: Foo(a: u8): A + B { x } after");
    let params = Params::parse(&tokens("a: u8"));
    let trails = Trails::parse(&tokens("A + B"));
    let (declaration, taken) = Declaration::assemble(&stream, Some(params), Some(trails)).unwrap();
    assert_eq!(taken, 9);
    assert_eq!(declaration, Declaration::parse(&stream).unwrap());
    assert_eq!(declaration.name, Some("n".to_string()));
    assert_eq!(declaration.params.as_ref().unwrap().vals.len(), 1);
    assert_eq!(declaration.trails.as_ref().unwrap().vals.len(), 2);
    assert_eq!(declaration.body, Some(tokens("x")));
}

#[test]
fn assemble_reports_the_first_error() {
    let stream = tokens("Foo(a): A + B");
    let params = Params::parse(&tokens("="));
    let trails = Trails::parse(&tokens("3"));
    let error = Declaration::assemble(&stream, Some(params), Some(trails)).unwrap_err();
    assert_eq!(
        error.kind,
        ErrorKind::ElementParseFailed { expected: Construct::Param, got: tokens("=") }
    );
    assert_eq!(error.context, vec![Construct::PunctSet, Construct::Declaration]);
    let trails = Trails::parse(&tokens("3"));
    let error = Declaration::assemble(&stream, Some(Params::parse(&tokens("a"))), Some(trails))
        .unwrap_err();
    assert_eq!(
        error.kind,
        ErrorKind::ElementParseFailed { expected: Construct::Declaration, got: tokens("3") }
    );
    let error = Declaration::assemble(&tokens("3"), None, None).unwrap_err();
    assert_eq!(error.kind, ErrorKind::MissingType);
}

#[test]
fn assemble_counts_an_outcome_only_where_the_list_stands() {
    let stream = tokens("Foo { x }");
    let params = Params::parse(&tokens("a: u8"));
    let trails = Trails::parse(&tokens(""));
    let (declaration, taken) = Declaration::assemble(&stream, Some(params), Some(trails)).unwrap();
    assert_eq!(taken, 2);
    assert_eq!(declaration.params, None);
    assert_eq!(declaration.trails, None);
    let (declaration, taken) = Declaration::assemble(&tokens("Foo(a): A"), None, None).unwrap();
    assert_eq!(taken, 4);
    assert_eq!(declaration.params, None);
    assert_eq!(declaration.trails, None);
}

#[test]
fn trails_without_parameters_ask_no_grammar() {
    let declaration = Declaration::parse(&tokens("x: Foo: A + n: B { body }")).unwrap();
    assert_eq!(declaration.name, Some("x".to_string()));
    assert_eq!(declaration.ty, "Foo");
    let trails = declaration.trails.as_ref().unwrap();
    assert_eq!(trails.vals.len(), 2);
    assert_eq!(trails.vals[1].name, Some("n".to_string()));
    assert_eq!(trails.delim, Some(Token::Punct('+', Spacing::Alone)));
    let error = Declaration::parse(&tokens("x: Foo: A + + B")).unwrap_err();
    assert_eq!(
        error.kind,
        ErrorKind::ElementParseFailed { expected: Construct::Declaration, got: tokens("") }
    );
    assert_eq!(error.remaining, tokens("+ B"));
}

#[test]
fn declaration_with_given_answers() {
    let stream = tokens("Foo(bar): TraitA + TraitB { body }");
    let answers = Answers { params: vec![(Some(1), None)], trails: vec![] };
    let declaration = Declaration::parse_given(&stream, &answers).unwrap();
    assert_eq!(declaration, Declaration::parse(&stream).unwrap());
    assert_eq!(declaration.name, None);
    assert_eq!(declaration.ty, "Foo");
    assert_eq!(declaration.params.as_ref().unwrap().vals[0].ty, tokens("bar"));
    assert_eq!(declaration.trails.as_ref().unwrap().vals.len(), 2);
    assert_eq!(declaration.body, Some(tokens("body")));
    let wrapped = Declaration::parse_given(&tokens("(Foo(bar))"), &answers).unwrap();
    let bare = Declaration::parse_given(&tokens("Foo(bar)"), &answers).unwrap();
    assert_eq!(wrapped, bare);
}

#[test]
fn declaration_with_given_answers_for_its_trails() {
    let stream = tokens("Foo(a: u8 = 1 + 2, b): A(x: T) + B");
    let answers = Answers {
        params: vec![(Some(1), Some(3)), (Some(1), None)],
        trails: vec![Answers { params: vec![(Some(1), None)], trails: vec![] }],
    };
    let declaration = Declaration::parse_given(&stream, &answers).unwrap();
    assert_eq!(declaration, Declaration::parse(&stream).unwrap());
    let first = &declaration.trails.as_ref().unwrap().vals[0];
    assert_eq!(first.params.as_ref().unwrap().vals[0].name, Some("x".to_string()));
}

#[test]
fn declaration_with_answers_that_read_nothing() {
    let stream = tokens("Foo(bar)");
    let answers = Answers { params: vec![], trails: vec![] };
    let error = Declaration::parse_given(&stream, &answers).unwrap_err();
    assert_eq!(
        error.kind,
        ErrorKind::ElementParseFailed { expected: Construct::Param, got: tokens("bar") }
    );
    assert_eq!(error.context, vec![Construct::PunctSet, Construct::Declaration]);
    let answers = Answers { params: vec![(Some(1), None)], trails: vec![] };
    let error = Declaration::parse_given(&tokens("Foo(a): A(b)"), &answers).unwrap_err();
    assert_eq!(
        error.kind,
        ErrorKind::ElementParseFailed { expected: Construct::Declaration, got: tokens("A(b)") }
    );
    let (flat, taken) = Declaration::flat_given(&tokens("Foo x"), &vec![], &vec![]).unwrap();
    assert_eq!(flat.ty, "Foo");
    assert_eq!(taken, 2);
}

#[test]
fn trails_with_given_answers() {
    let answers = vec![
        Answers { params: vec![], trails: vec![] },
        Answers { params: vec![(Some(1), None)], trails: vec![] },
    ];
    let trails = Trails::parse_given(&tokens("A + B(x)"), &answers).unwrap();
    assert_eq!(trails, Trails::parse(&tokens("A + B(x)")).unwrap());
    assert!(Trails::parse_given(&tokens("A + B(x)"), &vec![]).is_err());
}
