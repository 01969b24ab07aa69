use pipeline_ast::arena::{Arena, Ast, Ref};
use pipeline_ast::boxes::{Ast as Owned, BoxBuilder};
use pipeline_ast::interface::{BuildAst, Traverse};
use std::cell::RefCell;

#[test]
fn handles_start_at_one_and_grow() {
    let mut arena = Arena::new();
    let mut issued: Vec<Ref> = Vec::new();
    for _ in 0..1000 {
        issued.push(arena.insert(Ast::Str("x")));
    }
    assert_eq!(issued[0].index(), 1);
    for i in 0..1000 {
        assert_eq!(issued[i].index(), i + 1);
    }
    for i in 1..1000 {
        assert!(issued[i - 1].index() < issued[i].index());
        assert_ne!(issued[i - 1], issued[i]);
    }
}

#[test]
fn get_returns_what_was_inserted() {
    let mut arena = Arena::new();
    let a = arena.insert(Ast::Str("a"));
    let b = arena.insert(Ast::Str("b"));
    let o = arena.insert(Ast::Option { name: a, value: b });
    assert!(matches!(*arena.get(a), Ast::Str("a")));
    assert!(matches!(*arena.get(b), Ast::Str("b")));
    match *arena.get(o) {
        Ast::Option { name, value } => {
            assert_eq!(name, a);
            assert_eq!(value, b);
        },
        _ => panic!("the node is no option"),
    }
}

#[test]
fn builders_build_the_same_tree() {
    let mut arena = Arena::new();
    let name = arena.build_str("cp");
    let key = arena.build_str("force");
    let val = arena.build_str("yes");
    let option = arena.build_option(key, val);
    let options = arena.build_option_list(option, None);
    let to = arena.build_str("to");
    let last = arena.build_arg_list(to, None);
    let from = arena.build_str("from");
    let args = arena.build_arg_list(from, Some(last));
    let next_name = arena.build_str("wc");
    let next = arena.build_command(next_name, None, None, None);
    let command = arena.build_command(name, Some(options), Some(args), Some(next));
    let head = arena.build_head(command);

    let mut boxes = BoxBuilder;
    let name = boxes.build_str("cp");
    let key = boxes.build_str("force");
    let val = boxes.build_str("yes");
    let option = boxes.build_option(key, val);
    let options = boxes.build_option_list(option, None);
    let to = boxes.build_str("to");
    let last = boxes.build_arg_list(to, None);
    let from = boxes.build_str("from");
    let args = boxes.build_arg_list(from, Some(last));
    let next_name = boxes.build_str("wc");
    let next = boxes.build_command(next_name, None, None, None);
    let command = boxes.build_command(name, Some(options), Some(args), Some(next));
    let owned: Owned = boxes.build_head(command);

    let expected = vec!["cp", "force", "yes", "from", "to", "wc"];
    assert_eq!(head.traverse(|s: &str| s.to_string()), expected);
    assert_eq!(owned.traverse(|s: &str| s.to_string()), expected);
    assert_eq!(head.root().index(), 12);
}

#[test]
fn callback_runs_once_for_each_leaf() {
    let mut boxes = BoxBuilder;
    let mut list = None;
    for _ in 0..200 {
        let arg = boxes.build_str("arg");
        list = Some(boxes.build_arg_list(arg, list));
    }
    let name = boxes.build_str("cmd");
    let command = boxes.build_command(name, None, list, None);
    let head = boxes.build_head(command);
    let seen: RefCell<Vec<String>> = RefCell::new(Vec::new());
    let report = |s: &str| seen.borrow_mut().push(s.to_string());
    let out = head.traverse(report);
    assert_eq!(out.len(), 201);
    assert_eq!(seen.borrow().len(), 201);
    assert_eq!(seen.borrow()[0], "cmd");
    assert!(seen.borrow()[1..].iter().all(|s| s == "arg"));
    // The callback can be used again: a second walk reports the same leaves once more.
    let again = head.traverse(report);
    assert_eq!(again.len(), 201);
    assert_eq!(seen.borrow().len(), 402);
}

#[test]
fn owned_traversal_works_on_any_node() {
    let option = Owned::Option {
        name: Box::new(Owned::Str("k")),
        value: Box::new(Owned::Str("v")),
    };
    assert_eq!(option.traverse(|s: &str| s.len()), vec![1, 1]);
    let mut out: Vec<String> = vec!["before".to_string()];
    option.walk(&|s: &str| s.to_uppercase(), &mut out);
    assert_eq!(out, vec!["before", "K", "V"]);
}

#[test]
fn arena_node_traversal_appends() {
    let mut arena = Arena::new();
    let a = arena.insert(Ast::Str("a"));
    let b = arena.insert(Ast::Str("b"));
    let cell = arena.insert(Ast::List { value: b, next: None });
    let list = arena.insert(Ast::List { value: a, next: Some(cell) });
    let mut out: Vec<String> = vec!["before".to_string()];
    arena.get(list).traverse(&arena, &|s: &str| s.to_string(), &mut out);
    assert_eq!(out, vec!["before", "a", "b"]);
}
