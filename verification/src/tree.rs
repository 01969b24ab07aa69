//! The mathematical model shared by every representation: a finished syntax
//! tree as a plain value, the token sequence it spells, and its string leaves
//! in traversal order.

use vstd::prelude::*;

verus! {

/// What a token is, with its text as a sequence of characters.
pub enum Symbol {
    Str(Seq<char>),
    DashDash,
    Pipe,
    Equals,
}

/// A syntax tree. Both representations store exactly these four kinds of node;
/// a list cell serves option lists and argument lists alike.
pub enum Tree {
    Str(Seq<char>),
    Option { name: Box<Tree>, value: Box<Tree> },
    Command {
        name: Box<Tree>,
        options: Option<Box<Tree>>,
        args: Option<Box<Tree>>,
        pipeline: Option<Box<Tree>>,
    },
    List { value: Box<Tree>, next: Option<Box<Tree>> },
}

/// The leaves of an optional subtree: none where the subtree is absent.
pub open spec fn leaves_of(t: Option<Box<Tree>>) -> Seq<Seq<char>>
    decreases t,
{
    match t {
        Some(b) => leaves(*b),
        None => Seq::empty(),
    }
}

/// The texts of the string leaves of `t`, in traversal order: a command's name,
/// then its options, its arguments and the rest of the pipeline; an option's
/// name, then its value; a list cell's value, then the cells after it.
pub open spec fn leaves(t: Tree) -> Seq<Seq<char>>
    decreases t,
{
    match t {
        Tree::Str(s) => seq![s],
        Tree::Option { name, value } => leaves(*name) + leaves(*value),
        Tree::Command { name, options, args, pipeline } => leaves(*name) + leaves_of(options)
            + leaves_of(args) + leaves_of(pipeline),
        Tree::List { value, next } => leaves(*value) + leaves_of(next),
    }
}

/// The tokens of an optional subtree: none where the subtree is absent.
pub open spec fn symbols_of(t: Option<Box<Tree>>) -> Seq<Symbol>
    decreases t,
{
    match t {
        Some(b) => symbols(*b),
        None => Seq::empty(),
    }
}

/// The token sequence that `t` spells: `--name=value` for an option, a `|`
/// before each further command of a pipeline.
pub open spec fn symbols(t: Tree) -> Seq<Symbol>
    decreases t,
{
    match t {
        Tree::Str(s) => seq![Symbol::Str(s)],
        Tree::Option { name, value } => seq![Symbol::DashDash] + symbols(*name) + seq![
            Symbol::Equals,
        ] + symbols(*value),
        Tree::Command { name, options, args, pipeline } => symbols(*name) + symbols_of(options)
            + symbols_of(args) + match pipeline {
            Some(p) => seq![Symbol::Pipe] + symbols(*p),
            None => Seq::empty(),
        },
        Tree::List { value, next } => symbols(*value) + symbols_of(next),
    }
}

/// `t` is an option: a name and a value, both string leaves.
pub open spec fn is_option(t: Tree) -> bool {
    t matches Tree::Option { name, value } && *name is Str && *value is Str
}

/// `t` is a non-empty list of options.
pub open spec fn is_option_list(t: Tree) -> bool
    decreases t,
{
    t matches Tree::List { value, next } && is_option(*value) && (next matches Some(n)
        ==> is_option_list(*n))
}

/// `t` is a non-empty list of string leaves.
pub open spec fn is_arg_list(t: Tree) -> bool
    decreases t,
{
    t matches Tree::List { value, next } && *value is Str && (next matches Some(n) ==> is_arg_list(
        *n,
    ))
}

/// `t` is a command as the grammar has it: a name, then an option list, an
/// argument list and a further command, each of which may be absent.
pub open spec fn is_command(t: Tree) -> bool
    decreases t,
{
    t matches Tree::Command { name, options, args, pipeline } && *name is Str && (
    options matches Some(o) ==> is_option_list(*o)) && (args matches Some(a) ==> is_arg_list(*a))
        && (pipeline matches Some(p) ==> is_command(*p))
}

/// `spelt` is a sentence of the language: some command spells it.
pub open spec fn is_sentence(spelt: Seq<Symbol>) -> bool {
    exists|t: Tree| is_command(t) && symbols(t) == spelt
}

/// The texts of the strings among `spelt`, in their order.
pub open spec fn texts(spelt: Seq<Symbol>) -> Seq<Seq<char>>
    decreases spelt.len(),
{
    if spelt.len() == 0 {
        Seq::empty()
    } else {
        match spelt[0] {
            Symbol::Str(s) => seq![s] + texts(spelt.drop_first()),
            _ => texts(spelt.drop_first()),
        }
    }
}

/// The strings of two runs of tokens, one after the other, are the strings of
/// the first and then those of the second.
pub proof fn lemma_texts_concat(first: Seq<Symbol>, second: Seq<Symbol>)
    ensures
        texts(first + second) == texts(first) + texts(second),
    decreases first.len(),
{
    if first.len() == 0 {
        assert(first + second =~= second);
        assert(texts(first) + texts(second) =~= texts(second));
    } else {
        assert((first + second).drop_first() =~= first.drop_first() + second);
        lemma_texts_concat(first.drop_first(), second);
        match first[0] {
            Symbol::Str(s) => {
                assert(texts(first + second) =~= seq![s] + (texts(first.drop_first()) + texts(
                    second,
                )));
                assert(texts(first + second) =~= texts(first) + texts(second));
            },
            _ => {},
        }
    }
}

/// A run of one token that is no string holds no string.
proof fn lemma_texts_of_mark(mark: Symbol)
    requires
        !(mark is Str),
    ensures
        texts(seq![mark]) == Seq::<Seq<char>>::empty(),
{
    assert(seq![mark].drop_first() =~= Seq::<Symbol>::empty());
    assert(texts(Seq::<Symbol>::empty()) =~= Seq::<Seq<char>>::empty());
    assert(seq![mark][0] == mark);
}

/// The traversal order is the order of the tokens: the leaves of an optional
/// subtree are the strings among the tokens it spells.
pub proof fn lemma_leaves_of_are_texts(t: Option<Box<Tree>>)
    ensures
        leaves_of(t) == texts(symbols_of(t)),
    decreases t,
{
    match t {
        Some(b) => {
            lemma_leaves_are_texts(*b);
        },
        None => {},
    }
}

/// The traversal order is the order of the tokens: the leaves of a tree are
/// the strings among the tokens it spells, in the same order.
pub proof fn lemma_leaves_are_texts(t: Tree)
    ensures
        leaves(t) == texts(symbols(t)),
    decreases t,
{
    match t {
        Tree::Str(s) => {
            let one = seq![Symbol::Str(s)];
            assert(one.drop_first() =~= Seq::<Symbol>::empty());
            assert(texts(one) =~= seq![s]);
        },
        Tree::Option { name, value } => {
            lemma_leaves_are_texts(*name);
            lemma_leaves_are_texts(*value);
            lemma_texts_of_mark(Symbol::DashDash);
            lemma_texts_of_mark(Symbol::Equals);
            let a = seq![Symbol::DashDash];
            let b = symbols(*name);
            let c = seq![Symbol::Equals];
            let d = symbols(*value);
            lemma_texts_concat(a, b);
            lemma_texts_concat(a + b, c);
            lemma_texts_concat(a + b + c, d);
            assert(texts(symbols(t)) =~= leaves(t));
        },
        Tree::Command { name, options, args, pipeline } => {
            lemma_leaves_are_texts(*name);
            lemma_leaves_of_are_texts(options);
            lemma_leaves_of_are_texts(args);
            let a = symbols(*name);
            let b = symbols_of(options);
            let c = symbols_of(args);
            let d: Seq<Symbol> = match pipeline {
                Some(p) => seq![Symbol::Pipe] + symbols(*p),
                None => Seq::empty(),
            };
            match pipeline {
                Some(p) => {
                    lemma_leaves_are_texts(*p);
                    lemma_texts_of_mark(Symbol::Pipe);
                    lemma_texts_concat(seq![Symbol::Pipe], symbols(*p));
                    assert(texts(d) =~= leaves_of(pipeline));
                },
                None => {
                    assert(texts(d) =~= leaves_of(pipeline));
                },
            }
            lemma_texts_concat(a, b);
            lemma_texts_concat(a + b, c);
            lemma_texts_concat(a + b + c, d);
        },
        Tree::List { value, next } => {
            lemma_leaves_are_texts(*value);
            lemma_leaves_of_are_texts(next);
            lemma_texts_concat(symbols(*value), symbols_of(next));
        },
    }
}

/// The number of nodes of an optional subtree, 0 where it is absent.
pub open spec fn size_of(t: Option<Box<Tree>>) -> nat
    decreases t,
{
    match t {
        Some(b) => size(*b),
        None => 0,
    }
}

/// The number of nodes of `t`.
pub open spec fn size(t: Tree) -> nat
    decreases t,
{
    match t {
        Tree::Str(_) => 1,
        Tree::Option { name, value } => size(*name) + size(*value) + 1,
        Tree::Command { name, options, args, pipeline } => size(*name) + size_of(options) + size_of(
            args,
        ) + size_of(pipeline) + 1,
        Tree::List { value, next } => size(*value) + size_of(next) + 1,
    }
}

/// An option list has two nodes for each of its strings.
pub proof fn lemma_option_list_size(t: Tree)
    requires
        is_option_list(t),
    ensures
        size(t) == 2 * leaves(t).len(),
    decreases t,
{
    match t {
        Tree::List { value, next } => {
            assert(size(*value) == 3 && leaves(*value).len() == 2) by {
                reveal_with_fuel(size, 3);
                reveal_with_fuel(leaves, 3);
            }
            match next {
                Some(n) => {
                    lemma_option_list_size(*n);
                },
                None => {},
            }
            assert(leaves(t) == leaves(*value) + leaves_of(next));
            assert(size(t) == size(*value) + size_of(next) + 1);
        },
        _ => {},
    }
}

/// An argument list has two nodes for each of its strings.
pub proof fn lemma_arg_list_size(t: Tree)
    requires
        is_arg_list(t),
    ensures
        size(t) == 2 * leaves(t).len(),
    decreases t,
{
    match t {
        Tree::List { value, next } => {
            assert(size(*value) == 1 && leaves(*value).len() == 1);
            match next {
                Some(n) => {
                    lemma_arg_list_size(*n);
                },
                None => {},
            }
            assert(leaves(t) == leaves(*value) + leaves_of(next));
            assert(size(t) == size(*value) + size_of(next) + 1);
        },
        _ => {},
    }
}

/// A command has two nodes for each of its strings.
pub proof fn lemma_command_size(t: Tree)
    requires
        is_command(t),
    ensures
        size(t) == 2 * leaves(t).len(),
    decreases t,
{
    match t {
        Tree::Command { name, options, args, pipeline } => {
            assert(size(*name) == 1 && leaves(*name).len() == 1);
            match options {
                Some(o) => {
                    lemma_option_list_size(*o);
                },
                None => {},
            }
            match args {
                Some(a) => {
                    lemma_arg_list_size(*a);
                },
                None => {},
            }
            match pipeline {
                Some(p) => {
                    lemma_command_size(*p);
                },
                None => {},
            }
            assert(leaves(t) == leaves(*name) + leaves_of(options) + leaves_of(args) + leaves_of(
                pipeline,
            ));
            assert(size(t) == size(*name) + size_of(options) + size_of(args) + size_of(pipeline)
                + 1);
        },
        _ => {},
    }
}

} // verus!
