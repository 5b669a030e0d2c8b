use kurage::subst::{mangle_ident, substitute};
use kurage::token::{copy_tokens, tree_eq, trees_eq, Delim, Token};

fn atom(text: &str, span: usize) -> Token {
    Token::Atom { text: text.to_string(), span }
}

fn group(delim: Delim, span: usize, children: Vec<Token>) -> Token {
    Token::Group { delim, span, children }
}

fn count_tokens(ts: &[Token]) -> usize {
    let mut n: usize = 0;
    for t in ts {
        n += match t {
            Token::Atom { .. } => 1,
            Token::Group { children, .. } => 1 + count_tokens(children),
        };
    }
    n
}

fn marker() -> String {
    "M".to_string()
}

/// `Box { M } M x` with replacement `a b`.
fn sample_tree() -> Vec<Token> {
    vec![
        atom("Box", 0),
        group(Delim::Brace, 1, vec![atom("M", 2)]),
        atom("M", 3),
        atom("x", 4),
    ]
}

#[test]
fn substitution_conserves_token_count() {
    let tree = sample_tree();
    let replacement = vec![atom("a", 10), atom("b", 11)];
    let out = substitute(&tree, &marker(), &replacement);
    // 5 tokens, 2 marker occurrences, replacement of 2 tokens:
    // 5 - 2 + 2 * 2 = 7.
    assert_eq!(count_tokens(&tree), 5);
    assert_eq!(count_tokens(&out), 7);
    let expected = vec![
        atom("Box", 0),
        group(Delim::Brace, 1, vec![atom("a", 10), atom("b", 11)]),
        atom("a", 10),
        atom("b", 11),
        atom("x", 4),
    ];
    assert!(trees_eq(&out, &expected));
}

#[test]
fn substitution_counts_nested_replacement_tokens() {
    let tree = vec![group(Delim::Paren, 0, vec![atom("M", 1)])];
    let replacement = vec![group(Delim::Brace, 2, vec![atom("x", 3), atom("y", 4)])];
    let out = substitute(&tree, &marker(), &replacement);
    // 2 tokens, 1 occurrence, replacement of 3 tokens: 2 - 1 + 3 = 4.
    assert_eq!(count_tokens(&out), 4);
}

#[test]
fn substitution_without_marker_is_noop() {
    let tree = vec![
        atom("f", 0),
        group(Delim::Paren, 1, vec![atom("x", 2), atom(",", 3), atom("y", 4)]),
    ];
    let replacement = vec![atom("anything", 9)];
    let out = substitute(&tree, &marker(), &replacement);
    assert!(trees_eq(&out, &tree));
}

#[test]
fn substitution_with_empty_replacement_deletes_marker() {
    let tree = sample_tree();
    let out = substitute(&tree, &marker(), &Vec::new());
    let expected = vec![atom("Box", 0), group(Delim::Brace, 1, Vec::new()), atom("x", 4)];
    assert!(trees_eq(&out, &expected));
}

#[test]
fn substitution_with_empty_replacement_is_idempotent() {
    let tree = sample_tree();
    let once = substitute(&tree, &marker(), &Vec::new());
    let twice = substitute(&once, &marker(), &Vec::new());
    assert!(trees_eq(&twice, &once));
}

#[test]
fn substitution_preserves_delimiter_kinds() {
    let tree = vec![
        group(Delim::Paren, 0, vec![atom("M", 1), atom("k", 2)]),
        group(Delim::Bracket, 3, vec![group(Delim::Brace, 4, vec![atom("M", 5)])]),
    ];
    let out = substitute(&tree, &marker(), &vec![atom("r", 9)]);
    match &out[0] {
        Token::Group { delim, children, .. } => {
            assert_eq!(*delim, Delim::Paren);
            // one marker child traded for one replacement token, one kept
            assert_eq!(children.len(), 2);
            assert!(tree_eq(&children[1], &atom("k", 2)));
        }
        _ => panic!("expected a group"),
    }
    match &out[1] {
        Token::Group { delim, children, .. } => {
            assert_eq!(*delim, Delim::Bracket);
            match &children[0] {
                Token::Group { delim, .. } => assert_eq!(*delim, Delim::Brace),
                _ => panic!("expected a nested group"),
            }
        }
        _ => panic!("expected a group"),
    }
}

#[test]
fn substitution_is_single_pass() {
    // A replacement containing the marker itself is spliced verbatim and
    // never revisited.
    let tree = vec![atom("M", 0)];
    let replacement = vec![atom("M", 7), atom("M", 8)];
    let out = substitute(&tree, &marker(), &replacement);
    assert!(trees_eq(&out, &replacement));
}

#[test]
fn substitution_splices_flat() {
    // The replacement is not wrapped in any new group.
    let tree = vec![atom("before", 0), atom("M", 1), atom("after", 2)];
    let replacement = vec![atom("a", 5), atom("b", 6)];
    let out = substitute(&tree, &marker(), &replacement);
    assert_eq!(out.len(), 4);
    assert!(tree_eq(&out[0], &atom("before", 0)));
    assert!(tree_eq(&out[1], &atom("a", 5)));
    assert!(tree_eq(&out[2], &atom("b", 6)));
    assert!(tree_eq(&out[3], &atom("after", 2)));
}

#[test]
fn copy_tokens_preserves_structure() {
    let tree = sample_tree();
    let copy = copy_tokens(&tree);
    assert!(trees_eq(&copy, &tree));
}

#[test]
fn mangle_ident_unifies_spans() {
    let body = vec![
        group(Delim::Brace, 0, vec![atom("ID", 5)]),
        atom("ID", 9),
        atom("other", 10),
    ];
    let out = mangle_ident(&"ID".to_string(), &body);
    let expected = vec![
        group(Delim::Brace, 0, vec![atom("ID", 5)]),
        atom("ID", 5),
        atom("other", 10),
    ];
    assert!(trees_eq(&out, &expected));
}

#[test]
fn mangle_ident_without_occurrence_is_noop() {
    let body = vec![atom("a", 0), group(Delim::Paren, 1, vec![atom("b", 2)])];
    let out = mangle_ident(&"ID".to_string(), &body);
    assert!(trees_eq(&out, &body));
}
