use pipeline_ast::arena::{Arena, Ast as Node};
use pipeline_ast::boxes::{Ast, BoxBuilder};
use pipeline_ast::interface::{ParseError, Parser, Scanner, Token, TokenKind, Traverse};

fn owned(tokens: Vec<Token<'static>>) -> Result<Ast, ParseError> {
    Parser { scanner: Scanner::new(tokens), builder: BoxBuilder }.parse()
}

fn owned_leaves(tokens: Vec<Token<'static>>) -> Vec<String> {
    owned(tokens).unwrap().traverse(|s: &str| s.to_string())
}

fn arena_leaves(tokens: Vec<Token<'static>>) -> Vec<String> {
    let head = Parser { scanner: Scanner::new(tokens), builder: Arena::new() }.parse().unwrap();
    head.traverse(|s: &str| s.to_string())
}

fn arena_error(tokens: Vec<Token<'static>>) -> ParseError {
    match (Parser { scanner: Scanner::new(tokens), builder: Arena::new() }).parse() {
        Ok(_) => panic!("the arena parse succeeded"),
        Err(e) => e,
    }
}

fn pipeline_tokens() -> Vec<Token<'static>> {
    vec![
        Token::Str("seq"),
        Token::Str("20"),
        Token::Pipe,
        Token::Str("grep"),
        Token::Str("1"),
        Token::Pipe,
        Token::Str("head"),
        Token::DashDash,
        Token::Str("lines"),
        Token::Equals,
        Token::Str("5"),
    ]
}

fn options_only_tokens() -> Vec<Token<'static>> {
    vec![Token::Str("ls"), Token::DashDash, Token::Str("all"), Token::Equals, Token::Str("true")]
}

#[test]
fn traversal_follows_token_order_in_owned_tree() {
    assert_eq!(owned_leaves(pipeline_tokens()), vec!["seq", "20", "grep", "1", "head", "lines", "5"]);
}

#[test]
fn traversal_follows_token_order_in_arena() {
    assert_eq!(arena_leaves(pipeline_tokens()), vec!["seq", "20", "grep", "1", "head", "lines", "5"]);
}

#[test]
fn options_only_owned_tree() {
    let head = owned(options_only_tokens()).unwrap();
    assert_eq!(head.traverse(|s: &str| s.to_string()), vec!["ls", "all", "true"]);
    match head {
        Ast::Command { name, options, args, pipeline } => {
            assert!(matches!(*name, Ast::Str("ls")));
            assert!(args.is_none());
            assert!(pipeline.is_none());
            match *options.unwrap() {
                Ast::List { value, next } => {
                    assert!(next.is_none());
                    match *value {
                        Ast::Option { name, value } => {
                            assert!(matches!(*name, Ast::Str("all")));
                            assert!(matches!(*value, Ast::Str("true")));
                        },
                        _ => panic!("the cell holds no option"),
                    }
                },
                _ => panic!("the options are no list"),
            }
        },
        _ => panic!("the head is no command"),
    }
}

#[test]
fn options_only_arena() {
    let head = Parser { scanner: Scanner::new(options_only_tokens()), builder: Arena::new() }
        .parse()
        .unwrap();
    assert_eq!(head.traverse(|s: &str| s.to_string()), vec!["ls", "all", "true"]);
    match *head.arena().get(head.root()) {
        Node::Command { options, args, pipeline, .. } => {
            assert!(options.is_some());
            assert!(args.is_none());
            assert!(pipeline.is_none());
        },
        _ => panic!("the root is no command"),
    }
}

#[test]
fn arena_nodes_are_built_children_first() {
    // name, option name, option value, option, list cell, command
    let head = Parser { scanner: Scanner::new(options_only_tokens()), builder: Arena::new() }
        .parse()
        .unwrap();
    assert_eq!(head.root().index(), 6);
    match *head.arena().get(head.root()) {
        Node::Command { name, options, .. } => {
            assert_eq!(name.index(), 1);
            assert_eq!(options.unwrap().index(), 5);
        },
        _ => panic!("the root is no command"),
    }
}

#[test]
fn missing_name_fails_with_unexpected_token() {
    let tokens = vec![Token::DashDash, Token::Str("x"), Token::Equals, Token::Str("y")];
    let expected = ParseError::UnexpectedToken {
        expected: TokenKind::Str,
        actual: Token::DashDash,
        position: 0,
    };
    assert_eq!(owned(tokens.clone()).unwrap_err(), expected);
    assert_eq!(arena_error(tokens), expected);
}

#[test]
fn dangling_pipe_fails_with_end_of_input() {
    let tokens = vec![Token::Str("cmd"), Token::Pipe];
    let expected = ParseError::UnexpectedEndOfInput { position: 2 };
    assert_eq!(owned(tokens.clone()).unwrap_err(), expected);
    assert_eq!(arena_error(tokens), expected);
}

#[test]
fn empty_input_fails_with_end_of_input() {
    assert_eq!(owned(vec![]).unwrap_err(), ParseError::UnexpectedEndOfInput { position: 0 });
}

#[test]
fn option_without_name_fails() {
    let tokens = vec![Token::Str("ls"), Token::DashDash, Token::Equals];
    assert_eq!(
        owned(tokens).unwrap_err(),
        ParseError::UnexpectedToken { expected: TokenKind::Str, actual: Token::Equals, position: 2 }
    );
}

#[test]
fn option_without_equals_fails() {
    let tokens = vec![Token::Str("ls"), Token::DashDash, Token::Str("all"), Token::Str("true")];
    assert_eq!(
        owned(tokens).unwrap_err(),
        ParseError::UnexpectedToken {
            expected: TokenKind::Equals,
            actual: Token::Str("true"),
            position: 3,
        }
    );
}

#[test]
fn option_cut_short_fails_with_end_of_input() {
    let tokens = vec![Token::Str("ls"), Token::DashDash, Token::Str("all")];
    assert_eq!(owned(tokens).unwrap_err(), ParseError::UnexpectedEndOfInput { position: 3 });
    let tokens = vec![Token::Str("ls"), Token::DashDash, Token::Str("all"), Token::Equals];
    assert_eq!(owned(tokens).unwrap_err(), ParseError::UnexpectedEndOfInput { position: 4 });
}

#[test]
fn option_after_argument_fails() {
    let tokens = vec![
        Token::Str("ls"),
        Token::Str("dir"),
        Token::DashDash,
        Token::Str("all"),
        Token::Equals,
        Token::Str("true"),
    ];
    assert_eq!(
        owned(tokens).unwrap_err(),
        ParseError::UnexpectedToken {
            expected: TokenKind::Pipe,
            actual: Token::DashDash,
            position: 2,
        }
    );
}

#[test]
fn stray_equals_fails() {
    let tokens = vec![Token::Str("ls"), Token::Equals];
    assert_eq!(
        arena_error(tokens),
        ParseError::UnexpectedToken { expected: TokenKind::Pipe, actual: Token::Equals, position: 1 }
    );
}

#[test]
fn pipe_must_be_followed_by_a_name() {
    let tokens = vec![Token::Str("a"), Token::Pipe, Token::Pipe, Token::Str("b")];
    assert_eq!(
        owned(tokens).unwrap_err(),
        ParseError::UnexpectedToken { expected: TokenKind::Str, actual: Token::Pipe, position: 2 }
    );
}

#[test]
fn single_name_is_a_command_without_parts() {
    match owned(vec![Token::Str("ls")]).unwrap() {
        Ast::Command { name, options, args, pipeline } => {
            assert!(matches!(*name, Ast::Str("ls")));
            assert!(options.is_none());
            assert!(args.is_none());
            assert!(pipeline.is_none());
        },
        _ => panic!("the head is no command"),
    }
}

#[test]
fn parts_are_present_exactly_where_their_tokens_are() {
    let tokens = vec![
        Token::Str("a"),
        Token::Str("x"),
        Token::Str("y"),
        Token::Pipe,
        Token::Str("b"),
        Token::DashDash,
        Token::Str("k"),
        Token::Equals,
        Token::Str("v"),
        Token::DashDash,
        Token::Str("l"),
        Token::Equals,
        Token::Str("w"),
        Token::Str("z"),
    ];
    match owned(tokens).unwrap() {
        Ast::Command { options, args, pipeline, .. } => {
            assert!(options.is_none());
            match *args.unwrap() {
                Ast::List { value, next } => {
                    assert!(matches!(*value, Ast::Str("x")));
                    match *next.unwrap() {
                        Ast::List { value, next } => {
                            assert!(matches!(*value, Ast::Str("y")));
                            assert!(next.is_none());
                        },
                        _ => panic!("the second cell is no list"),
                    }
                },
                _ => panic!("the arguments are no list"),
            }
            match *pipeline.unwrap() {
                Ast::Command { name, options, args, pipeline } => {
                    assert!(matches!(*name, Ast::Str("b")));
                    assert!(pipeline.is_none());
                    match *options.unwrap() {
                        Ast::List { next, .. } => match *next.unwrap() {
                            Ast::List { value, next } => {
                                assert!(next.is_none());
                                assert!(matches!(*value, Ast::Option { .. }));
                            },
                            _ => panic!("the second cell is no list"),
                        },
                        _ => panic!("the options are no list"),
                    }
                    match *args.unwrap() {
                        Ast::List { value, next } => {
                            assert!(matches!(*value, Ast::Str("z")));
                            assert!(next.is_none());
                        },
                        _ => panic!("the arguments are no list"),
                    }
                },
                _ => panic!("the continuation is no command"),
            }
        },
        _ => panic!("the head is no command"),
    }
}

#[test]
fn parse_starts_at_the_scanner_position() {
    let mut scanner = Scanner::new(vec![Token::Pipe, Token::Str("ls"), Token::Str("dir")]);
    assert_eq!(scanner.next(), Some(Token::Pipe));
    let head = Parser { scanner, builder: BoxBuilder }.parse().unwrap();
    assert_eq!(head.traverse(|s: &str| s.to_string()), vec!["ls", "dir"]);
}

#[test]
fn parse_appends_to_an_arena_in_use() {
    let mut arena = Arena::new();
    let first = arena.insert(Node::Str("kept"));
    let head = Parser { scanner: Scanner::new(vec![Token::Str("ls")]), builder: arena }
        .parse()
        .unwrap();
    assert_eq!(first.index(), 1);
    assert_eq!(head.root().index(), 3);
    assert!(matches!(*head.arena().get(first), Node::Str("kept")));
    assert_eq!(head.traverse(|s: &str| s.to_string()), vec!["ls"]);
}

#[test]
fn scanner_peeks_without_taking() {
    let mut scanner = Scanner::new(vec![Token::Str("a"), Token::Equals]);
    assert_eq!(scanner.position(), 0);
    assert_eq!(scanner.peek(), Some(Token::Str("a")));
    assert_eq!(scanner.peek(), Some(Token::Str("a")));
    assert_eq!(scanner.next(), Some(Token::Str("a")));
    assert_eq!(scanner.position(), 1);
    assert_eq!(scanner.peek(), Some(Token::Equals));
    assert_eq!(scanner.next(), Some(Token::Equals));
    assert_eq!(scanner.peek(), None);
    assert_eq!(scanner.next(), None);
    assert_eq!(scanner.next(), None);
    assert_eq!(scanner.position(), 2);
}

#[test]
fn tokens_have_kind_and_text() {
    assert_eq!(Token::Str("abc").kind(), TokenKind::Str);
    assert_eq!(Token::DashDash.kind(), TokenKind::DashDash);
    assert_eq!(Token::Pipe.kind(), TokenKind::Pipe);
    assert_eq!(Token::Equals.kind(), TokenKind::Equals);
    assert_eq!(Token::Str("abc").as_str(), "abc");
    assert_eq!(Token::DashDash.as_str(), "--");
    assert_eq!(Token::Pipe.as_str(), "|");
    assert_eq!(Token::Equals.as_str(), "=");
}

#[test]
fn arena_store_after_two_tokens() {
    let head = Parser {
        scanner: Scanner::new(vec![Token::Str("a"), Token::Str("b")]),
        builder: Arena::new(),
    }
    .parse()
    .unwrap();
    let arena = head.arena();
    assert_eq!(head.root().index(), 4);
    let name = match *arena.get(head.root()) {
        Node::Command { name, options: None, args: Some(args), pipeline: None } => {
            assert_eq!(name.index(), 1);
            assert_eq!(args.index(), 3);
            match *arena.get(args) {
                Node::List { value, next: None } => assert_eq!(value.index(), 2),
                _ => panic!("the arguments are no single cell"),
            }
            name
        },
        _ => panic!("the root is no command of one argument"),
    };
    assert!(matches!(*arena.get(name), Node::Str("a")));
}

#[test]
fn arena_holds_two_nodes_for_each_string() {
    // seven strings
    let head = Parser { scanner: Scanner::new(pipeline_tokens()), builder: Arena::new() }
        .parse()
        .unwrap();
    assert_eq!(head.root().index(), 14);
    assert_eq!(head.traverse(|s: &str| s.len()).len(), 7);
}

#[test]
fn option_is_built_name_first() {
    // name of the command, then option name, option value, option, cell, command
    let head = Parser { scanner: Scanner::new(options_only_tokens()), builder: Arena::new() }
        .parse()
        .unwrap();
    let arena = head.arena();
    match *arena.get(head.root()) {
        Node::Command { options: Some(cell), .. } => match *arena.get(cell) {
            Node::List { value, next: None } => match *arena.get(value) {
                Node::Option { name, value: text } => {
                    assert_eq!(name.index(), 2);
                    assert_eq!(text.index(), 3);
                    assert_eq!(value.index(), 4);
                    assert!(matches!(*arena.get(name), Node::Str("all")));
                    assert!(matches!(*arena.get(text), Node::Str("true")));
                },
                _ => panic!("the cell holds no option"),
            },
            _ => panic!("the options are no single cell"),
        },
        _ => panic!("the root is no command with options"),
    }
}

#[test]
fn absent_lists_take_nothing_and_build_nothing() {
    let mut parser = Parser {
        scanner: Scanner::new(vec![Token::Pipe, Token::Str("x")]),
        builder: Arena::new(),
    };
    assert!(matches!(parser.parse_option_list(), Ok(None)));
    assert!(matches!(parser.parse_arg_list(), Ok(None)));
    assert_eq!(parser.scanner.position(), 0);
    // Nothing was stored: the next handle is the first.
    assert_eq!(parser.builder.insert(Node::Str("probe")).index(), 1);
}

#[test]
fn lists_are_present_where_their_first_token_is() {
    let mut parser = Parser {
        scanner: Scanner::new(vec![
            Token::DashDash,
            Token::Str("k"),
            Token::Equals,
            Token::Str("v"),
            Token::Str("x"),
        ]),
        builder: Arena::new(),
    };
    assert!(matches!(parser.parse_arg_list(), Ok(None)));
    let options = parser.parse_option_list().unwrap().unwrap();
    assert_eq!(parser.scanner.position(), 4);
    assert_eq!(options.index(), 4);
    assert!(matches!(parser.parse_option_list(), Ok(None)));
    let args = parser.parse_arg_list().unwrap().unwrap();
    assert_eq!(parser.scanner.position(), 5);
    assert_eq!(args.index(), 6);
}

#[test]
fn get_str_builds_one_leaf_or_none() {
    let mut parser = Parser {
        scanner: Scanner::new(vec![Token::Str("a"), Token::Equals]),
        builder: Arena::new(),
    };
    let leaf = parser.get_str().unwrap();
    assert_eq!(leaf.index(), 1);
    assert_eq!(parser.scanner.position(), 1);
    assert_eq!(
        parser.get_str().unwrap_err(),
        ParseError::UnexpectedToken { expected: TokenKind::Str, actual: Token::Equals, position: 1 }
    );
    assert_eq!(parser.get_str().unwrap_err(), ParseError::UnexpectedEndOfInput { position: 2 });
    // The failures stored nothing.
    assert_eq!(parser.builder.insert(Node::Str("probe")).index(), 2);
}

#[test]
fn option_step_takes_four_tokens() {
    let mut parser = Parser {
        scanner: Scanner::new(vec![
            Token::DashDash,
            Token::Str("k"),
            Token::Equals,
            Token::Str("v"),
            Token::Pipe,
        ]),
        builder: Arena::new(),
    };
    let option = parser.parse_option().unwrap();
    assert_eq!(parser.scanner.position(), 4);
    assert_eq!(option.index(), 3);
    match *parser.builder.get(option) {
        Node::Option { name, value } => {
            assert_eq!(name.index(), 1);
            assert_eq!(value.index(), 2);
        },
        _ => panic!("the node is no option"),
    }
    assert_eq!(
        parser.parse_option().unwrap_err(),
        ParseError::UnexpectedToken {
            expected: TokenKind::DashDash,
            actual: Token::Pipe,
            position: 4,
        }
    );
}

#[test]
fn pipeline_step_is_absent_only_at_the_end() {
    let mut parser = Parser {
        scanner: Scanner::new(vec![Token::Pipe, Token::Str("b"), Token::Str("x")]),
        builder: Arena::new(),
    };
    let next = parser.parse_pipeline().unwrap().unwrap();
    assert_eq!(parser.scanner.position(), 3);
    assert_eq!(next.index(), 4);
    assert!(matches!(parser.parse_pipeline(), Ok(None)));
    assert_eq!(parser.scanner.position(), 3);
}

#[test]
fn command_step_reads_to_the_end() {
    let mut parser = Parser {
        scanner: Scanner::new(vec![Token::Str("a"), Token::Pipe, Token::Str("b")]),
        builder: BoxBuilder,
    };
    let command = parser.parse_command().unwrap();
    assert_eq!(parser.scanner.position(), 3);
    assert_eq!(command.traverse(|s: &str| s.to_string()), vec!["a", "b"]);
}
