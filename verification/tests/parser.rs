use kurage::template::{
    generate_generator, is_ident, split_commas, Expected, ParseError, TemplateSpec,
};
use kurage::token::{trees_eq, Delim, Token};

fn pa(text: &str, span: usize) -> Token {
    Token::Atom { text: text.to_string(), span }
}

fn pg(delim: Delim, span: usize, children: Vec<Token>) -> Token {
    Token::Group { delim, span, children }
}

fn parse(tokens: Vec<Token>) -> Result<TemplateSpec, ParseError> {
    generate_generator(&tokens)
}

#[test]
fn minimal_update_template_parses() {
    // name: update: {} => {} view
    let input = vec![
        pa("name", 0),
        pa(":", 1),
        pa("update", 2),
        pa(":", 3),
        pg(Delim::Brace, 4, Vec::new()),
        pa("=>", 5),
        pg(Delim::Brace, 6, Vec::new()),
        pa("view", 7),
    ];
    let t = parse(input).unwrap();
    assert_eq!(t.name, "name");
    assert_eq!(t.name_span, 0);
    assert!(t.naming.is_none());
    assert!(t.extra_fields.is_none());
    assert!(t.init_body.is_none());
    let update = t.update.expect("update section present");
    assert!(update.body.is_empty());
    assert!(update.outputs.is_empty());
    assert!(trees_eq(&t.view, &vec![pa("view", 7)]));
}

#[test]
fn malformed_update_is_rejected() {
    // name: update: {} view  — the `=> { ... }` list is missing.
    let input = vec![
        pa("name", 0),
        pa(":", 1),
        pa("update", 2),
        pa(":", 3),
        pg(Delim::Brace, 4, Vec::new()),
        pa("view", 5),
    ];
    let e = parse(input).unwrap_err();
    assert_eq!(e, ParseError::Grammar { expected: Expected::OutputList, span: 5 });
}

#[test]
fn full_template_parses() {
    // name [<$name Page>] {count: i32}: init: {setup} update: {B => c} => {X, Y} view tokens
    let input = vec![
        pa("name", 0),
        pg(
            Delim::Bracket,
            1,
            vec![pa("<", 2), pa("$", 3), pa("name", 4), pa("Page", 5), pa(">", 6)],
        ),
        pg(Delim::Brace, 7, vec![pa("count", 8), pa(":", 9), pa("i32", 10)]),
        pa(":", 11),
        pa("init", 12),
        pa(":", 13),
        pg(Delim::Brace, 14, vec![pa("setup", 15)]),
        pa("update", 16),
        pa(":", 17),
        pg(Delim::Brace, 18, vec![pa("B", 19), pa("=>", 20), pa("c", 21)]),
        pa("=>", 22),
        pg(Delim::Brace, 23, vec![pa("X", 24), pa(",", 25), pa("Y", 26)]),
        pa("view", 27),
        pa("tokens", 28),
    ];
    let t = parse(input).unwrap();
    assert_eq!(t.name, "name");
    let naming = t.naming.expect("naming pattern present");
    assert!(trees_eq(
        &naming,
        &vec![pa("<", 2), pa("$", 3), pa("name", 4), pa("Page", 5), pa(">", 6)],
    ));
    let fields = t.extra_fields.expect("extra fields present");
    assert!(trees_eq(&fields, &vec![pa("count", 8), pa(":", 9), pa("i32", 10)]));
    let init = t.init_body.expect("init body present");
    assert!(trees_eq(&init, &vec![pa("setup", 15)]));
    let update = t.update.expect("update section present");
    assert!(trees_eq(&update.body, &vec![pa("B", 19), pa("=>", 20), pa("c", 21)]));
    assert_eq!(update.outputs.len(), 2);
    assert!(trees_eq(&update.outputs[0], &vec![pa("X", 24)]));
    assert!(trees_eq(&update.outputs[1], &vec![pa("Y", 26)]));
    assert!(trees_eq(&t.view, &vec![pa("view", 27), pa("tokens", 28)]));
}

#[test]
fn empty_input_is_rejected() {
    let e = parse(Vec::new()).unwrap_err();
    assert_eq!(e, ParseError::Grammar { expected: Expected::TemplateName, span: 0 });
}

#[test]
fn group_in_place_of_name_is_rejected() {
    let e = parse(vec![pg(Delim::Brace, 3, Vec::new()), pa(":", 4)]).unwrap_err();
    assert_eq!(e, ParseError::Grammar { expected: Expected::TemplateName, span: 3 });
}

#[test]
fn non_identifier_name_is_rejected() {
    let e = parse(vec![pa("123", 1), pa(":", 2), pa("v", 3)]).unwrap_err();
    assert_eq!(e, ParseError::Grammar { expected: Expected::TemplateName, span: 1 });
}

#[test]
fn duplicate_naming_pattern_is_rejected() {
    let input = vec![
        pa("name", 0),
        pg(Delim::Bracket, 1, vec![pa("a", 2)]),
        pg(Delim::Bracket, 3, vec![pa("b", 4)]),
        pa(":", 5),
        pa("v", 6),
    ];
    let e = parse(input).unwrap_err();
    assert_eq!(e, ParseError::DuplicateNamingPattern { span: 3 });
}

#[test]
fn paren_block_in_header_is_rejected() {
    let input = vec![pa("name", 0), pg(Delim::Paren, 1, Vec::new()), pa(":", 2), pa("v", 3)];
    let e = parse(input).unwrap_err();
    assert_eq!(e, ParseError::Grammar { expected: Expected::BraceBlock, span: 1 });
}

#[test]
fn missing_colon_is_rejected() {
    let e = parse(vec![pa("name", 0), pa("v", 7)]).unwrap_err();
    assert_eq!(e, ParseError::Grammar { expected: Expected::Colon, span: 7 });
}

#[test]
fn header_ending_early_is_rejected() {
    // input exhausted where the colon was due: the error points at the last
    // token.
    let e = parse(vec![pa("name", 0), pg(Delim::Bracket, 4, Vec::new())]).unwrap_err();
    assert_eq!(e, ParseError::Grammar { expected: Expected::Colon, span: 4 });
}

#[test]
fn fields_not_followed_by_colon_is_rejected() {
    let input = vec![pa("name", 0), pg(Delim::Brace, 1, Vec::new()), pa("v", 2)];
    let e = parse(input).unwrap_err();
    assert_eq!(e, ParseError::Grammar { expected: Expected::Colon, span: 2 });
}

#[test]
fn missing_view_tokens_is_rejected() {
    let e = parse(vec![pa("name", 0), pa(":", 9)]).unwrap_err();
    assert_eq!(e, ParseError::Grammar { expected: Expected::ViewTokens, span: 9 });
}

#[test]
fn init_without_colon_is_rejected() {
    let input = vec![
        pa("name", 0),
        pa(":", 1),
        pa("init", 2),
        pg(Delim::Brace, 3, Vec::new()),
        pa("v", 4),
    ];
    let e = parse(input).unwrap_err();
    assert_eq!(e, ParseError::Grammar { expected: Expected::Colon, span: 3 });
}

#[test]
fn init_with_wrong_delimiter_is_rejected() {
    let input = vec![
        pa("name", 0),
        pa(":", 1),
        pa("init", 2),
        pa(":", 3),
        pg(Delim::Paren, 4, Vec::new()),
        pa("v", 5),
    ];
    let e = parse(input).unwrap_err();
    assert_eq!(e, ParseError::Grammar { expected: Expected::BraceBlock, span: 4 });
}

#[test]
fn update_without_body_is_rejected() {
    let input = vec![pa("name", 0), pa(":", 1), pa("update", 2), pa(":", 3), pa("v", 4)];
    let e = parse(input).unwrap_err();
    assert_eq!(e, ParseError::Grammar { expected: Expected::BraceBlock, span: 4 });
}

#[test]
fn update_output_not_braced_is_rejected() {
    let input = vec![
        pa("name", 0),
        pa(":", 1),
        pa("update", 2),
        pa(":", 3),
        pg(Delim::Brace, 4, Vec::new()),
        pa("=>", 5),
        pa("v", 6),
    ];
    let e = parse(input).unwrap_err();
    assert_eq!(e, ParseError::Grammar { expected: Expected::BraceBlock, span: 6 });
}

#[test]
fn init_keyword_peeking_leaves_plain_views_alone() {
    // a view that merely starts with an ordinary identifier goes straight to
    // view tokens
    let input = vec![pa("name", 0), pa(":", 1), pa("widget", 2), pa("tree", 3)];
    let t = parse(input).unwrap();
    assert!(t.init_body.is_none());
    assert!(t.update.is_none());
    assert!(trees_eq(&t.view, &vec![pa("widget", 2), pa("tree", 3)]));
}

#[test]
fn error_messages_name_the_expected_construct() {
    let e = ParseError::Grammar { expected: Expected::OutputList, span: 3 };
    assert_eq!(e.message(), "expected `=>` followed by the output-variant list");
    let d = ParseError::DuplicateNamingPattern { span: 1 };
    assert_eq!(d.message(), "the naming pattern may be given once only");
    let c = ParseError::Grammar { expected: Expected::Colon, span: 0 };
    assert_eq!(c.message(), "expected `:`");
}

#[test]
fn split_commas_splits_at_top_level_only() {
    let input = vec![
        pa("X", 0),
        pa(",", 1),
        pa("Y", 2),
        pg(Delim::Paren, 3, vec![pa("a", 4), pa(",", 5), pa("b", 6)]),
    ];
    let parts = split_commas(&input);
    assert_eq!(parts.len(), 2);
    assert!(trees_eq(&parts[0], &vec![pa("X", 0)]));
    assert!(trees_eq(
        &parts[1],
        &vec![pa("Y", 2), pg(Delim::Paren, 3, vec![pa("a", 4), pa(",", 5), pa("b", 6)])],
    ));
}

#[test]
fn split_commas_allows_trailing_comma() {
    let input = vec![pa("X", 0), pa(",", 1)];
    let parts = split_commas(&input);
    assert_eq!(parts.len(), 1);
    assert!(trees_eq(&parts[0], &vec![pa("X", 0)]));
}

#[test]
fn split_commas_of_empty_is_empty() {
    let parts = split_commas(&Vec::new());
    assert!(parts.is_empty());
}

#[test]
fn naming_pattern_without_fields_parses() {
    let input = vec![
        pa("name", 0),
        pg(Delim::Bracket, 1, vec![pa("$", 2), pa("name", 3)]),
        pa(":", 4),
        pa("v", 5),
    ];
    let t = parse(input).unwrap();
    let naming = t.naming.expect("naming pattern present");
    assert!(trees_eq(&naming, &vec![pa("$", 2), pa("name", 3)]));
    assert!(t.extra_fields.is_none());
    assert!(trees_eq(&t.view, &vec![pa("v", 5)]));
}

#[test]
fn second_brace_block_in_header_is_rejected() {
    let input = vec![
        pa("name", 0),
        pg(Delim::Brace, 1, Vec::new()),
        pg(Delim::Brace, 2, Vec::new()),
        pa(":", 3),
        pa("v", 4),
    ];
    let e = parse(input).unwrap_err();
    assert_eq!(e, ParseError::Grammar { expected: Expected::Colon, span: 2 });
}

#[test]
fn is_ident_accepts_identifiers_only() {
    assert!(is_ident(&"foo".to_string()));
    assert!(is_ident(&"_bar9".to_string()));
    assert!(is_ident(&"A".to_string()));
    assert!(!is_ident(&"".to_string()));
    assert!(!is_ident(&"9a".to_string()));
    assert!(!is_ident(&"a-b".to_string()));
    assert!(!is_ident(&"=>".to_string()));
}
