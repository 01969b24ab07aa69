//! The owned-tree representation: every node owns its children.

use vstd::prelude::*;
use crate::interface::{
    BuildAst, Handles, Traverse, appended, lemma_appended_chain, lemma_appended_none,
    lemma_appended_one,
};
use crate::tree::{Tree, leaves, leaves_of};

verus! {

/// The builder of owned trees. It stores nothing: a handle is the node itself.
#[derive(Debug)]
pub struct BoxBuilder;

/// A node of an owned tree.
#[derive(Debug)]
pub enum Ast {
    Str(&'static str),
    Option { name: Box<Ast>, value: Box<Ast> },
    Command {
        name: Box<Ast>,
        options: Option<Box<Ast>>,
        args: Option<Box<Ast>>,
        pipeline: Option<Box<Ast>>,
    },
    List { value: Box<Ast>, next: Option<Box<Ast>> },
}

/// The tree of an optional child, absent where the child is.
pub open spec fn tree_of(child: Option<Box<Ast>>) -> Option<Box<Tree>>
    decreases child,
{
    match child {
        Some(b) => Some(Box::new(tree(*b))),
        None => None,
    }
}

/// The tree that `ast` stands for: the same nodes, each string by its text.
pub open spec fn tree(ast: Ast) -> Tree
    decreases ast,
{
    match ast {
        Ast::Str(s) => Tree::Str(s@),
        Ast::Option { name, value } => Tree::Option {
            name: Box::new(tree(*name)),
            value: Box::new(tree(*value)),
        },
        Ast::Command { name, options, args, pipeline } => Tree::Command {
            name: Box::new(tree(*name)),
            options: tree_of(options),
            args: tree_of(args),
            pipeline: tree_of(pipeline),
        },
        Ast::List { value, next } => Tree::List {
            value: Box::new(tree(*value)),
            next: tree_of(next),
        },
    }
}

/// An optional child stands for the tree of the child, where there is one.
pub proof fn lemma_tree_of(child: Option<Box<Ast>>)
    ensures
        child is None ==> tree_of(child) is None,
        child is Some ==> tree_of(child) == Some(Box::new(tree(*child->0))),
{
}

impl View for Ast {
    type V = Tree;

    open spec fn view(&self) -> Tree {
        tree(*self)
    }
}

impl Ast {
    /// Walks this tree in pre-order, calls `s` on the text of each string leaf
    /// and appends what it returns to `out`.
    pub fn walk<R, F: Fn(&str) -> R>(&self, s: &F, out: &mut Vec<R>)
        requires
            forall|t: &str| call_requires(*s, (t,)),
        ensures
            appended(*s, old(out)@, leaves(self@), final(out)@),
        decreases self,
    {
        let ghost start = out@;
        match self {
            Ast::Command { name, options, args, pipeline } => {
                name.walk(s, out);
                let ghost seen = leaves(tree(**name));
                let ghost mid = out@;
                if let Some(o) = options {
                    o.walk(s, out);
                }
                proof {
                    let more = leaves_of(tree_of(*options));
                    if options is None {
                        lemma_appended_none(*s, mid);
                    }
                    lemma_appended_chain(*s, start, seen, mid, more, out@);
                }
                let ghost seen = seen + leaves_of(tree_of(*options));
                let ghost mid = out@;
                if let Some(a) = args {
                    a.walk(s, out);
                }
                proof {
                    let more = leaves_of(tree_of(*args));
                    if args is None {
                        lemma_appended_none(*s, mid);
                    }
                    lemma_appended_chain(*s, start, seen, mid, more, out@);
                }
                let ghost seen = seen + leaves_of(tree_of(*args));
                let ghost mid = out@;
                if let Some(p) = pipeline {
                    p.walk(s, out);
                }
                proof {
                    let more = leaves_of(tree_of(*pipeline));
                    if pipeline is None {
                        lemma_appended_none(*s, mid);
                    }
                    lemma_appended_chain(*s, start, seen, mid, more, out@);
                }
            },
            Ast::Str(x) => {
                let r = s(x);
                proof {
                    let t: &str = x;
                    assert(t@ == x@ && call_ensures(*s, (t,), r));
                    lemma_appended_one(*s, start, x@, r);
                }
                out.push(r);
            },
            Ast::Option { name, value } => {
                name.walk(s, out);
                let ghost mid = out@;
                value.walk(s, out);
                proof {
                    lemma_appended_chain(
                        *s,
                        start,
                        leaves(tree(**name)),
                        mid,
                        leaves(tree(**value)),
                        out@,
                    );
                }
            },
            Ast::List { value, next } => {
                value.walk(s, out);
                let ghost mid = out@;
                if let Some(n) = next {
                    n.walk(s, out);
                }
                proof {
                    let more = leaves_of(tree_of(*next));
                    if next is None {
                        lemma_appended_none(*s, mid);
                    }
                    lemma_appended_chain(
                        *s,
                        start,
                        leaves(tree(**value)),
                        mid,
                        more,
                        out@,
                    );
                }
            },
        }
    }
}

impl Traverse for Ast {
    fn traverse<R, F: Fn(&str) -> R>(&self, s: F) -> (out: Vec<R>) {
        let mut out: Vec<R> = Vec::new();
        self.walk(&s, &mut out);
        out
    }
}

impl Handles for BoxBuilder {
    type Command = Box<Ast>;

    type Option = Box<Ast>;

    type OptionList = Box<Ast>;

    type ArgList = Box<Ast>;

    type Str = Box<Ast>;

    open spec fn holds_str(&self, h: &Box<Ast>) -> bool {
        true
    }

    open spec fn str_tree(&self, h: &Box<Ast>) -> Tree {
        tree(**h)
    }

    open spec fn holds_option(&self, h: &Box<Ast>) -> bool {
        true
    }

    open spec fn option_tree(&self, h: &Box<Ast>) -> Tree {
        tree(**h)
    }

    open spec fn holds_option_list(&self, h: &Box<Ast>) -> bool {
        true
    }

    open spec fn option_list_tree(&self, h: &Box<Ast>) -> Tree {
        tree(**h)
    }

    open spec fn holds_arg_list(&self, h: &Box<Ast>) -> bool {
        true
    }

    open spec fn arg_list_tree(&self, h: &Box<Ast>) -> Tree {
        tree(**h)
    }

    open spec fn holds_command(&self, h: &Box<Ast>) -> bool {
        true
    }

    open spec fn command_tree(&self, h: &Box<Ast>) -> Tree {
        tree(**h)
    }

    /// The handle is a new string leaf of that text.
    open spec fn made_str(&self, text: Seq<char>, after: &BoxBuilder, r: &Box<Ast>) -> bool {
        **r matches Ast::Str(s) && s@ == text
    }

    /// The handle is a new node that owns `name` and `value`.
    open spec fn made_option(
        &self,
        name: &Box<Ast>,
        value: &Box<Ast>,
        after: &BoxBuilder,
        r: &Box<Ast>,
    ) -> bool {
        **r == (Ast::Option { name: *name, value: *value })
    }

    /// The handle is a new node that owns `value` and `next`.
    open spec fn made_option_list(
        &self,
        value: &Box<Ast>,
        next: &Option<Box<Ast>>,
        after: &BoxBuilder,
        r: &Box<Ast>,
    ) -> bool {
        **r == (Ast::List { value: *value, next: *next })
    }

    /// The handle is a new node that owns `value` and `next`.
    open spec fn made_arg_list(
        &self,
        value: &Box<Ast>,
        next: &Option<Box<Ast>>,
        after: &BoxBuilder,
        r: &Box<Ast>,
    ) -> bool {
        **r == (Ast::List { value: *value, next: *next })
    }

    /// The handle is a new node that owns its four parts.
    open spec fn made_command(
        &self,
        name: &Box<Ast>,
        options: &Option<Box<Ast>>,
        args: &Option<Box<Ast>>,
        next: &Option<Box<Ast>>,
        after: &BoxBuilder,
        r: &Box<Ast>,
    ) -> bool {
        **r == (Ast::Command { name: *name, options: *options, args: *args, pipeline: *next })
    }
}

impl BuildAst for BoxBuilder {
    type Head = Ast;

    /// The head is the root node itself.
    open spec fn made_head(&self, command: &Box<Ast>, head: &Ast) -> bool {
        *head == **command
    }

    fn build_head(self, command: Box<Ast>) -> (head: Ast) {
        *command
    }

    fn build_str(&mut self, s: &'static str) -> (r: Box<Ast>) {
        Box::new(Ast::Str(s))
    }

    fn build_command(
        &mut self,
        name: Box<Ast>,
        options: Option<Box<Ast>>,
        args: Option<Box<Ast>>,
        pipeline: Option<Box<Ast>>,
    ) -> (r: Box<Ast>) {
        proof {
            lemma_tree_of(options);
            lemma_tree_of(args);
            lemma_tree_of(pipeline);
        }
        Box::new(Ast::Command { name, options, args, pipeline })
    }

    fn build_option(&mut self, name: Box<Ast>, value: Box<Ast>) -> (r: Box<Ast>) {
        Box::new(Ast::Option { name, value })
    }

    fn build_option_list(&mut self, value: Box<Ast>, next: Option<Box<Ast>>) -> (r: Box<Ast>) {
        proof {
            lemma_tree_of(next);
        }
        Box::new(Ast::List { value, next })
    }

    fn build_arg_list(&mut self, value: Box<Ast>, next: Option<Box<Ast>>) -> (r: Box<Ast>) {
        proof {
            lemma_tree_of(next);
        }
        Box::new(Ast::List { value, next })
    }
}

} // verus!
