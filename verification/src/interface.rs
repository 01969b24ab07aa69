//! Tokens and the interfaces between the parser, the builders and the
//! traversal.

use vstd::prelude::*;
use crate::grammar::{
    arg_list_at, command_at, lemma_accepts_sentences, lemma_arg_list_end, lemma_command_sound,
    lemma_arg_list_sound, lemma_option_list_end, lemma_option_list_sound, mismatch, option_at,
    option_list_at, str_at, views,
};
use crate::tree::{
    Symbol, Tree, is_command, is_sentence, leaves, lemma_leaves_are_texts, symbols, texts,
};

verus! {

/// One lexical atom of the language.
#[derive(Debug, Clone, Copy, Eq, PartialEq)]
pub enum Token<'a> {
    Str(&'a str),
    DashDash,
    Pipe,
    Equals,
}

impl<'a> View for Token<'a> {
    type V = Symbol;

    open spec fn view(&self) -> Symbol {
        match *self {
            Token::Str(s) => Symbol::Str(s@),
            Token::DashDash => Symbol::DashDash,
            Token::Pipe => Symbol::Pipe,
            Token::Equals => Symbol::Equals,
        }
    }
}

/// The kind of a token, without its text.
#[derive(Debug, Clone, Copy, PartialEq, Eq, Structural)]
pub enum TokenKind {
    Str,
    DashDash,
    Pipe,
    Equals,
}

/// Why a token sequence is no sentence of the language: the input ended where
/// a token was required, or a token of another kind than the required one was
/// found. `position` counts the tokens before that place.
#[derive(Debug, Clone, Copy, PartialEq, Eq)]
pub enum ParseError {
    UnexpectedEndOfInput { position: usize },
    UnexpectedToken { expected: TokenKind, actual: Token<'static>, position: usize },
}

impl<'a> Token<'a> {
    /// How this token is written: a string as its text, the others as `--`,
    /// `|` and `=`.
    pub open spec fn text(&self) -> Seq<char> {
        match *self {
            Token::Str(s) => s@,
            Token::DashDash => "--"@,
            Token::Pipe => "|"@,
            Token::Equals => "="@,
        }
    }

    /// How this token is written.
    pub fn as_str(&self) -> (r: &'a str)
        ensures
            r@ == self.text(),
    {
        match *self {
            Token::Str(s) => s,
            Token::DashDash => "--",
            Token::Pipe => "|",
            Token::Equals => "=",
        }
    }

    /// The kind of this token.
    pub open spec fn spec_kind(&self) -> TokenKind {
        match *self {
            Token::Str(_) => TokenKind::Str,
            Token::DashDash => TokenKind::DashDash,
            Token::Pipe => TokenKind::Pipe,
            Token::Equals => TokenKind::Equals,
        }
    }

    /// The kind of this token.
    #[verifier::when_used_as_spec(spec_kind)]
    pub fn kind(&self) -> (k: TokenKind)
        ensures
            k == self.spec_kind(),
    {
        match *self {
            Token::Str(_) => TokenKind::Str,
            Token::DashDash => TokenKind::DashDash,
            Token::Pipe => TokenKind::Pipe,
            Token::Equals => TokenKind::Equals,
        }
    }
}

/// `r` is what the callback `s` may return when it is called on a string whose
/// text is `text`.
pub open spec fn reported<R, F: Fn(&str) -> R>(s: F, text: Seq<char>, r: R) -> bool {
    exists|t: &str| t@ == text && call_ensures(s, (t,), r)
}

/// `after` is `before` with one more entry for each text of `texts`, in their
/// order: what the callback `s` returned for that text.
pub open spec fn appended<R, F: Fn(&str) -> R>(
    s: F,
    before: Seq<R>,
    texts: Seq<Seq<char>>,
    after: Seq<R>,
) -> bool {
    &&& after.len() == before.len() + texts.len()
    &&& forall|i: int| 0 <= i < before.len() ==> #[trigger] after[i] == before[i]
    &&& forall|i: int|
        before.len() <= i < after.len() ==> reported(
            s,
            texts[i - before.len()],
            #[trigger] after[i],
        )
}

/// `out` holds, for each text of `texts` and in their order, what the callback
/// `s` returned for it: one call for each text, none left out and none repeated.
pub open spec fn visits<R, F: Fn(&str) -> R>(s: F, texts: Seq<Seq<char>>, out: Seq<R>) -> bool {
    &&& out.len() == texts.len()
    &&& forall|i: int| 0 <= i < out.len() ==> reported(s, texts[i], #[trigger] out[i])
}

/// Nothing more is appended for no text.
pub proof fn lemma_appended_none<R, F: Fn(&str) -> R>(s: F, before: Seq<R>)
    ensures
        appended(s, before, Seq::empty(), before),
{
}

/// One call appends one entry.
pub proof fn lemma_appended_one<R, F: Fn(&str) -> R>(s: F, before: Seq<R>, text: Seq<char>, r: R)
    requires
        reported(s, text, r),
    ensures
        appended(s, before, seq![text], before.push(r)),
{
}

/// Two walks in a row append what one walk over both runs of texts appends.
pub proof fn lemma_appended_chain<R, F: Fn(&str) -> R>(
    s: F,
    before: Seq<R>,
    first: Seq<Seq<char>>,
    between: Seq<R>,
    second: Seq<Seq<char>>,
    after: Seq<R>,
)
    requires
        appended(s, before, first, between),
        appended(s, between, second, after),
    ensures
        appended(s, before, first + second, after),
{
    assert forall|i: int| 0 <= i < before.len() implies #[trigger] after[i] == before[i] by {
        assert(after[i] == between[i]);
    }
    assert forall|i: int| before.len() <= i < after.len() implies reported(
        s,
        (first + second)[i - before.len()],
        #[trigger] after[i],
    ) by {
        if i < between.len() {
            assert(after[i] == between[i]);
            assert(reported(s, first[i - before.len()], between[i]));
        } else {
            assert(reported(s, second[i - between.len()], after[i]));
        }
    }
}

/// A finished tree that can be walked; its view is the tree it stands for.
pub trait Traverse: View<V = Tree> {
    /// Calls `s` once on the text of every string leaf, in pre-order, and hands
    /// back what the calls returned, in that order.
    fn traverse<R, F: Fn(&str) -> R>(&self, s: F) -> (out: Vec<R>)
        requires
            forall|t: &str| call_requires(s, (t,)),
        ensures
            visits(s, leaves(self@), out@),
    ;
}

/// The handles of a builder, one type for each kind of node. A handle is only
/// meaningful to the builder that issued it; what it stands for there is a tree.
pub trait Handles: Sized {
    type Command;

    type Option;

    type OptionList;

    type ArgList;

    type Str;

    /// `h` is a handle of this builder.
    spec fn holds_str(&self, h: &Self::Str) -> bool;

    /// The tree that `h` stands for.
    spec fn str_tree(&self, h: &Self::Str) -> Tree;

    /// `h` is a handle of this builder.
    spec fn holds_option(&self, h: &Self::Option) -> bool;

    /// The tree that `h` stands for.
    spec fn option_tree(&self, h: &Self::Option) -> Tree;

    /// `h` is a handle of this builder.
    spec fn holds_option_list(&self, h: &Self::OptionList) -> bool;

    /// The tree that `h` stands for.
    spec fn option_list_tree(&self, h: &Self::OptionList) -> Tree;

    /// `h` is a handle of this builder.
    spec fn holds_arg_list(&self, h: &Self::ArgList) -> bool;

    /// The tree that `h` stands for.
    spec fn arg_list_tree(&self, h: &Self::ArgList) -> Tree;

    /// `h` is a handle of this builder.
    spec fn holds_command(&self, h: &Self::Command) -> bool;

    /// The tree that `h` stands for.
    spec fn command_tree(&self, h: &Self::Command) -> Tree;

    /// What one call that builds a string leaf does: from this builder it
    /// leads to `after` and hands back `r`.
    spec fn made_str(&self, text: Seq<char>, after: &Self, r: &Self::Str) -> bool;

    /// What one call that builds an option does: from this builder it leads to
    /// `after` and hands back `r`.
    spec fn made_option(
        &self,
        name: &Self::Str,
        value: &Self::Str,
        after: &Self,
        r: &Self::Option,
    ) -> bool;

    /// What one call that builds a cell of an option list does: from this
    /// builder it leads to `after` and hands back `r`.
    spec fn made_option_list(
        &self,
        value: &Self::Option,
        next: &Option<Self::OptionList>,
        after: &Self,
        r: &Self::OptionList,
    ) -> bool;

    /// What one call that builds a cell of an argument list does: from this
    /// builder it leads to `after` and hands back `r`.
    spec fn made_arg_list(
        &self,
        value: &Self::Str,
        next: &Option<Self::ArgList>,
        after: &Self,
        r: &Self::ArgList,
    ) -> bool;

    /// What one call that builds a command does: from this builder it leads to
    /// `after` and hands back `r`.
    spec fn made_command(
        &self,
        name: &Self::Str,
        options: &Option<Self::OptionList>,
        args: &Option<Self::ArgList>,
        next: &Option<Self::Command>,
        after: &Self,
        r: &Self::Command,
    ) -> bool;
}

/// Every handle of `before` is a handle of `after` and stands for the same
/// tree there: building a node disturbs none that was built earlier.
pub open spec fn extends<B: Handles>(before: B, after: B) -> bool {
    &&& forall|h: B::Str| #[trigger]
        before.holds_str(&h) ==> after.holds_str(&h) && after.str_tree(&h) == before.str_tree(&h)
    &&& forall|h: B::Option| #[trigger]
        before.holds_option(&h) ==> after.holds_option(&h) && after.option_tree(&h)
            == before.option_tree(&h)
    &&& forall|h: B::OptionList| #[trigger]
        before.holds_option_list(&h) ==> after.holds_option_list(&h) && after.option_list_tree(&h)
            == before.option_list_tree(&h)
    &&& forall|h: B::ArgList| #[trigger]
        before.holds_arg_list(&h) ==> after.holds_arg_list(&h) && after.arg_list_tree(&h)
            == before.arg_list_tree(&h)
    &&& forall|h: B::Command| #[trigger]
        before.holds_command(&h) ==> after.holds_command(&h) && after.command_tree(&h)
            == before.command_tree(&h)
}

/// The operations that the parser needs to build a tree, whatever stores the
/// nodes.
pub trait BuildAst: Handles {
    type Head: Traverse;

    /// What ending the construction does: this builder and `command` become
    /// `head`.
    spec fn made_head(&self, command: &Self::Command, head: &Self::Head) -> bool;

    /// Ends the construction: the finished tree is the one below `command`.
    fn build_head(self, command: Self::Command) -> (head: Self::Head)
        requires
            self.holds_command(&command),
        ensures
            head@ == self.command_tree(&command),
            self.made_head(&command, &head),
    ;

    /// A string leaf with the text of `s`.
    fn build_str(&mut self, s: &'static str) -> (r: Self::Str)
        ensures
            final(self).holds_str(&r),
            final(self).str_tree(&r) == Tree::Str(s@),
            extends(*old(self), *final(self)),
            old(self).made_str(s@, final(self), &r),
    ;

    /// A command of the given name, options, arguments and continuation.
    fn build_command(
        &mut self,
        name: Self::Str,
        options: Option<Self::OptionList>,
        args: Option<Self::ArgList>,
        next: Option<Self::Command>,
    ) -> (r: Self::Command)
        requires
            old(self).holds_str(&name),
            options matches Some(o) ==> old(self).holds_option_list(&o),
            args matches Some(a) ==> old(self).holds_arg_list(&a),
            next matches Some(c) ==> old(self).holds_command(&c),
        ensures
            final(self).holds_command(&r),
            final(self).command_tree(&r) == (Tree::Command {
                name: Box::new(old(self).str_tree(&name)),
                options: match options {
                    Some(o) => Some(Box::new(old(self).option_list_tree(&o))),
                    None => None,
                },
                args: match args {
                    Some(a) => Some(Box::new(old(self).arg_list_tree(&a))),
                    None => None,
                },
                pipeline: match next {
                    Some(c) => Some(Box::new(old(self).command_tree(&c))),
                    None => None,
                },
            }),
            extends(*old(self), *final(self)),
            old(self).made_command(&name, &options, &args, &next, final(self), &r),
    ;

    /// An option of the given name and value.
    fn build_option(&mut self, name: Self::Str, value: Self::Str) -> (r: Self::Option)
        requires
            old(self).holds_str(&name),
            old(self).holds_str(&value),
        ensures
            final(self).holds_option(&r),
            final(self).option_tree(&r) == (Tree::Option {
                name: Box::new(old(self).str_tree(&name)),
                value: Box::new(old(self).str_tree(&value)),
            }),
            extends(*old(self), *final(self)),
            old(self).made_option(&name, &value, final(self), &r),
    ;

    /// A cell of an option list: `value`, then the cells of `next`.
    fn build_option_list(&mut self, value: Self::Option, next: Option<Self::OptionList>) -> (r:
        Self::OptionList)
        requires
            old(self).holds_option(&value),
            next matches Some(n) ==> old(self).holds_option_list(&n),
        ensures
            final(self).holds_option_list(&r),
            final(self).option_list_tree(&r) == (Tree::List {
                value: Box::new(old(self).option_tree(&value)),
                next: match next {
                    Some(n) => Some(Box::new(old(self).option_list_tree(&n))),
                    None => None,
                },
            }),
            extends(*old(self), *final(self)),
            old(self).made_option_list(&value, &next, final(self), &r),
    ;

    /// A cell of an argument list: `value`, then the cells of `next`.
    fn build_arg_list(&mut self, value: Self::Str, next: Option<Self::ArgList>) -> (r:
        Self::ArgList)
        requires
            old(self).holds_str(&value),
            next matches Some(n) ==> old(self).holds_arg_list(&n),
        ensures
            final(self).holds_arg_list(&r),
            final(self).arg_list_tree(&r) == (Tree::List {
                value: Box::new(old(self).str_tree(&value)),
                next: match next {
                    Some(n) => Some(Box::new(old(self).arg_list_tree(&n))),
                    None => None,
                },
            }),
            extends(*old(self), *final(self)),
            old(self).made_arg_list(&value, &next, final(self), &r),
    ;
}

/// A token sequence that is read from left to right, one token at a time, with
/// a look at the next token before it is taken.
#[derive(Debug)]
pub struct Scanner {
    tokens: Vec<Token<'static>>,
    pos: usize,
}

impl Scanner {
    #[verifier::type_invariant]
    spec fn within(&self) -> bool {
        self.pos <= self.tokens@.len()
    }

    /// All the tokens, those already taken included.
    pub closed spec fn tokens(&self) -> Seq<Token<'static>> {
        self.tokens@
    }

    /// The number of tokens already taken.
    pub closed spec fn spec_position(&self) -> usize {
        self.pos
    }

    /// A scanner at the start of `tokens`.
    pub fn new(tokens: Vec<Token<'static>>) -> (s: Self)
        ensures
            s.tokens() == tokens@,
            s.position() == 0,
    {
        Scanner { tokens, pos: 0 }
    }

    /// The number of tokens already taken.
    #[verifier::when_used_as_spec(spec_position)]
    pub fn position(&self) -> (p: usize)
        ensures
            p == self.spec_position(),
            p <= self.tokens().len(),
    {
        proof {
            use_type_invariant(self);
        }
        self.pos
    }

    /// The next token, which stays in place; `None` at the end.
    pub fn peek(&self) -> (t: Option<Token<'static>>)
        ensures
            self.position() <= self.tokens().len(),
            self.position() < self.tokens().len() ==> t == Some(
                self.tokens()[self.position() as int],
            ),
            self.position() == self.tokens().len() ==> t is None,
    {
        proof {
            use_type_invariant(self);
        }
        if self.pos < self.tokens.len() {
            Some(self.tokens[self.pos])
        } else {
            None
        }
    }

    /// Takes the next token; `None` at the end, where nothing changes.
    pub fn next(&mut self) -> (t: Option<Token<'static>>)
        ensures
            final(self).tokens() == old(self).tokens(),
            old(self).position() <= old(self).tokens().len(),
            old(self).position() < old(self).tokens().len() ==> t == Some(
                old(self).tokens()[old(self).position() as int],
            ) && final(self).position() == old(self).position() + 1,
            old(self).position() == old(self).tokens().len() ==> t is None
                && final(self).position() == old(self).position(),
    {
        proof {
            use_type_invariant(&*self);
        }
        if self.pos < self.tokens.len() {
            let t = self.tokens[self.pos];
            self.pos = self.pos + 1;
            Some(t)
        } else {
            None
        }
    }
}

/// A parser: the tokens still to be read, and the builder that makes the nodes.
#[derive(Debug)]
pub struct Parser<S, B> {
    pub scanner: S,
    pub builder: B,
}

/// The handle `h` of builder `b` stands for the tree `t`.
pub open spec fn is_option_list_of<B: BuildAst>(
    b: B,
    h: Option<B::OptionList>,
    t: Option<Box<Tree>>,
) -> bool {
    match h {
        Some(h) => t is Some && b.holds_option_list(&h) && b.option_list_tree(&h) == *t->0,
        None => t is None,
    }
}

/// The handle `h` of builder `b` stands for the tree `t`.
pub open spec fn is_arg_list_of<B: BuildAst>(
    b: B,
    h: Option<B::ArgList>,
    t: Option<Box<Tree>>,
) -> bool {
    match h {
        Some(h) => t is Some && b.holds_arg_list(&h) && b.arg_list_tree(&h) == *t->0,
        None => t is None,
    }
}

/// The calls that build a string leaf: one, which leads from `before` to
/// `after` and hands back `h`.
pub open spec fn builds_str<B: BuildAst>(before: B, tree: Tree, after: B, h: B::Str) -> bool {
    tree matches Tree::Str(text) && before.made_str(text, &after, &h)
}

/// The calls that build an option, in their order: one for the name, one for
/// the value, one for the option over the two handles. They lead from `before`
/// to `after`, and the last hands back `h`.
pub open spec fn builds_option<B: BuildAst>(before: B, tree: Tree, after: B, h: B::Option) -> bool {
    match tree {
        Tree::Option { name, value } => exists|m1: B, m2: B, hn: B::Str, hv: B::Str|
            builds_str(before, *name, m1, hn) && builds_str(m1, *value, m2, hv) && m2.made_option(
                &hn,
                &hv,
                &after,
                &h,
            ),
        _ => false,
    }
}

/// The calls that build an option list, in their order: those for the first
/// option, those for the cells behind it, then one for the cell itself. They
/// lead from `before` to `after`, and the last hands back `h`.
pub open spec fn builds_option_list<B: BuildAst>(
    before: B,
    tree: Tree,
    after: B,
    h: B::OptionList,
) -> bool
    decreases tree,
{
    match tree {
        Tree::List { value, next } => exists|
            m1: B,
            m2: B,
            hv: B::Option,
            hn: Option<B::OptionList>,
        |
            builds_option(before, *value, m1, hv) && (match next {
                Some(n) => hn is Some && builds_option_list(m1, *n, m2, hn->0),
                None => hn is None && m2 == m1,
            }) && m2.made_option_list(&hv, &hn, &after, &h),
        _ => false,
    }
}

/// The calls that build an argument list, in their order: one for the first
/// argument, those for the cells behind it, then one for the cell itself.
/// They lead from `before` to `after`, and the last hands back `h`.
pub open spec fn builds_arg_list<B: BuildAst>(
    before: B,
    tree: Tree,
    after: B,
    h: B::ArgList,
) -> bool
    decreases tree,
{
    match tree {
        Tree::List { value, next } => exists|m1: B, m2: B, hv: B::Str, hn: Option<B::ArgList>|
            builds_str(before, *value, m1, hv) && (match next {
                Some(n) => hn is Some && builds_arg_list(m1, *n, m2, hn->0),
                None => hn is None && m2 == m1,
            }) && m2.made_arg_list(&hv, &hn, &after, &h),
        _ => false,
    }
}

/// The calls that build an option list where there is one, none and no change
/// of the builder where there is none.
pub open spec fn builds_options<B: BuildAst>(
    before: B,
    tree: Option<Box<Tree>>,
    after: B,
    h: Option<B::OptionList>,
) -> bool {
    match tree {
        Some(t) => h is Some && builds_option_list(before, *t, after, h->0),
        None => h is None && after == before,
    }
}

/// The calls that build an argument list where there is one, none and no
/// change of the builder where there is none.
pub open spec fn builds_args<B: BuildAst>(
    before: B,
    tree: Option<Box<Tree>>,
    after: B,
    h: Option<B::ArgList>,
) -> bool {
    match tree {
        Some(t) => h is Some && builds_arg_list(before, *t, after, h->0),
        None => h is None && after == before,
    }
}

/// The calls that build a command, in their order: one for the name, those
/// for the options, those for the arguments, those for the command behind a
/// `|`, then one for the command itself over the handles of its parts. They
/// lead from `before` to `after`, and the last hands back `h`. Every node is
/// built once, after the nodes below it.
pub open spec fn builds_command<B: BuildAst>(
    before: B,
    tree: Tree,
    after: B,
    h: B::Command,
) -> bool
    decreases tree,
{
    match tree {
        Tree::Command { name, options, args, pipeline } => exists|
            m1: B,
            m2: B,
            m3: B,
            m4: B,
            hn: B::Str,
            ho: Option<B::OptionList>,
            ha: Option<B::ArgList>,
            hp: Option<B::Command>,
        |
            builds_str(before, *name, m1, hn) && builds_options(m1, options, m2, ho)
                && builds_args(m2, args, m3, ha) && (match pipeline {
                Some(p) => hp is Some && builds_command(m3, *p, m4, hp->0),
                None => hp is None && m4 == m3,
            }) && m4.made_command(&hn, &ho, &ha, &hp, &after, &h),
        _ => false,
    }
}

/// `r` is what stands behind the arguments of a command, at `pos`: nothing at
/// the end of the tokens, the command behind a `|` as a handle of `b`, or the
/// first error.
pub open spec fn pipeline_of<B: BuildAst>(
    tokens: Seq<Token<'static>>,
    pos: int,
    before: B,
    b: B,
    r: Result<Option<B::Command>, ParseError>,
) -> bool {
    if pos >= tokens.len() {
        r matches Ok(None) && b == before
    } else if tokens[pos] is Pipe {
        match command_at(tokens, pos + 1) {
            Ok(tree) => {
                &&& r matches Ok(Some(h))
                &&& b.holds_command(&h)
                &&& b.command_tree(&h) == tree
                &&& builds_command(before, tree, b, h)
            },
            Err(e) => r matches Err(f) && f == e,
        }
    } else {
        r matches Err(f) && f == mismatch(tokens, pos, TokenKind::Pipe) && b == before
    }
}

impl<B: BuildAst> Parser<Scanner, B> {
    /// All the tokens of the scanner, those already read included.
    pub open spec fn tokens(&self) -> Seq<Token<'static>> {
        self.scanner.tokens()
    }

    /// The number of tokens already read.
    pub open spec fn position(&self) -> int {
        self.scanner.position() as int
    }

    /// Reads one command, which must reach to the end of the tokens, and ends
    /// the construction.
    ///
    /// The parse succeeds exactly where the tokens from the scanner's position
    /// on are a sentence of the language. The finished tree is then the one
    /// command that spells those tokens, and its leaves are their strings, in
    /// their order. The builder is called once for every node of that tree,
    /// each node after the nodes below it, and then once for the head.
    /// Otherwise the error is the first one that a reading from left to right
    /// meets.
    pub fn parse(self) -> (r: Result<B::Head, ParseError>)
        ensures
            r is Ok <==> is_sentence(views(self.tokens()).skip(self.position())),
            match r {
                Ok(head) => {
                    &&& command_at(self.tokens(), self.position()) == Ok::<Tree, ParseError>(head@)
                    &&& is_command(head@)
                    &&& symbols(head@) == views(self.tokens()).skip(self.position())
                    &&& leaves(head@) == texts(views(self.tokens()).skip(self.position()))
                    &&& exists|last: B, root: B::Command|
                        builds_command(self.builder, head@, last, root) && last.made_head(
                            &root,
                            &head,
                        )
                },
                Err(e) => command_at(self.tokens(), self.position()) == Err::<Tree, ParseError>(e),
            },
    {
        let mut parser = self;
        proof {
            use_type_invariant(&parser.scanner);
            lemma_command_sound(parser.tokens(), parser.position());
            lemma_accepts_sentences(parser.tokens(), parser.position());
        }
        match parser.parse_command() {
            Ok(command) => {
                let ghost last = parser.builder;
                let ghost root = command;
                let head = parser.builder.build_head(command);
                proof {
                    lemma_leaves_are_texts(head@);
                    assert(builds_command(self.builder, head@, last, root) && last.made_head(
                        &root,
                        &head,
                    ));
                }
                Ok(head)
            },
            Err(e) => Err(e),
        }
    }

    /// Takes a string token and builds its leaf.
    pub fn get_str(&mut self) -> (r: Result<B::Str, ParseError>)
        ensures
            final(self).tokens() == old(self).tokens(),
            extends(old(self).builder, final(self).builder),
            match str_at(old(self).tokens(), old(self).position()) {
                Ok((tree, end)) => {
                    &&& r matches Ok(h)
                    &&& final(self).position() == end
                    &&& final(self).builder.holds_str(&h)
                    &&& final(self).builder.str_tree(&h) == tree
                    &&& builds_str(old(self).builder, tree, final(self).builder, h)
                },
                Err(e) => r matches Err(f) && f == e && final(self).builder == old(self).builder,
            },
    {
        let position = self.scanner.position();
        match self.scanner.next() {
            Some(Token::Str(s)) => Ok(self.builder.build_str(s)),
            Some(actual) => Err(
                ParseError::UnexpectedToken { expected: TokenKind::Str, actual, position },
            ),
            None => Err(ParseError::UnexpectedEndOfInput { position }),
        }
    }

    /// Reads a command: its name, options and arguments, and the commands that
    /// a `|` joins to it.
    pub fn parse_command(&mut self) -> (r: Result<B::Command, ParseError>)
        ensures
            final(self).tokens() == old(self).tokens(),
            extends(old(self).builder, final(self).builder),
            match command_at(old(self).tokens(), old(self).position()) {
                Ok(tree) => {
                    &&& r matches Ok(h)
                    &&& final(self).position() == old(self).tokens().len()
                    &&& final(self).builder.holds_command(&h)
                    &&& final(self).builder.command_tree(&h) == tree
                    &&& builds_command(old(self).builder, tree, final(self).builder, h)
                },
                Err(e) => r matches Err(f) && f == e,
            },
        decreases old(self).tokens().len() - old(self).position(), 1int,
    {
        let ghost tokens = self.tokens();
        let ghost start = self.position();
        let ghost b0 = self.builder;
        let name = match self.get_str() {
            Ok(name) => name,
            Err(e) => {
                return Err(e);
            },
        };
        let ghost m1 = self.builder;
        let ghost hn = name;
        let options = match self.parse_option_list() {
            Ok(options) => options,
            Err(e) => {
                return Err(e);
            },
        };
        let ghost m2 = self.builder;
        let ghost ho = options;
        proof {
            lemma_option_list_end(tokens, start + 1);
            lemma_arg_list_end(tokens, self.position());
        }
        let args = match self.parse_arg_list() {
            Ok(args) => args,
            Err(e) => {
                return Err(e);
            },
        };
        let ghost m3 = self.builder;
        let ghost ha = args;
        let pipeline = match self.parse_pipeline() {
            Ok(pipeline) => pipeline,
            Err(e) => {
                return Err(e);
            },
        };
        let ghost m4 = self.builder;
        let ghost hp = pipeline;
        let command = self.builder.build_command(name, options, args, pipeline);
        proof {
            let tree = command_at(tokens, start)->Ok_0;
            let name_tree = str_at(tokens, start)->Ok_0.0;
            let (options_tree, mid) = option_list_at(tokens, start + 1)->Ok_0;
            let (args_tree, end) = arg_list_at(tokens, mid);
            assert(builds_str(b0, name_tree, m1, hn));
            assert(builds_options(m1, options_tree, m2, ho));
            assert(builds_args(m2, args_tree, m3, ha));
            assert(m4.made_command(&hn, &ho, &ha, &hp, &self.builder, &command));
            assert(builds_command(b0, tree, self.builder, command));
        }
        Ok(command)
    }

    /// Reads what follows the arguments of a command: nothing at the end of the
    /// tokens, a further command behind a `|`.
    pub fn parse_pipeline(&mut self) -> (r: Result<Option<B::Command>, ParseError>)
        ensures
            final(self).tokens() == old(self).tokens(),
            extends(old(self).builder, final(self).builder),
            pipeline_of(
                old(self).tokens(),
                old(self).position(),
                old(self).builder,
                final(self).builder,
                r,
            ),
            r is Ok ==> final(self).position() == old(self).tokens().len(),
        decreases old(self).tokens().len() - old(self).position(), 0int,
    {
        let position = self.scanner.position();
        match self.scanner.next() {
            Some(Token::Pipe) => match self.parse_command() {
                Ok(command) => Ok(Some(command)),
                Err(e) => Err(e),
            },
            None => Ok(None),
            Some(actual) => Err(
                ParseError::UnexpectedToken { expected: TokenKind::Pipe, actual, position },
            ),
        }
    }

    /// Reads the options of a command, as many as there are.
    pub fn parse_option_list(&mut self) -> (r: Result<Option<B::OptionList>, ParseError>)
        ensures
            final(self).tokens() == old(self).tokens(),
            extends(old(self).builder, final(self).builder),
            match option_list_at(old(self).tokens(), old(self).position()) {
                Ok((tree, end)) => r matches Ok(h) && final(self).position() == end
                    && is_option_list_of(final(self).builder, h, tree) && builds_options(
                    old(self).builder,
                    tree,
                    final(self).builder,
                    h,
                ),
                Err(e) => r matches Err(f) && f == e,
            },
            r matches Ok(h) ==> (h is None <==> !(old(self).position() < old(self).tokens().len()
                && old(self).tokens()[old(self).position()] is DashDash)),
            r matches Ok(None) ==> final(self).position() == old(self).position()
                && final(self).builder == old(self).builder,
        decreases old(self).tokens().len() - old(self).position(),
    {
        let ghost b0 = self.builder;
        proof {
            use_type_invariant(&self.scanner);
            lemma_option_list_sound(self.tokens(), self.position());
        }
        match self.scanner.peek() {
            Some(Token::DashDash) => {
                let option = match self.parse_option() {
                    Ok(option) => option,
                    Err(e) => {
                        return Err(e);
                    },
                };
                let ghost m1 = self.builder;
                let ghost hv = option;
                let next = match self.parse_option_list() {
                    Ok(next) => next,
                    Err(e) => {
                        return Err(e);
                    },
                };
                let ghost m2 = self.builder;
                let ghost hn = next;
                let list = self.builder.build_option_list(option, next);
                proof {
                    let tree = *option_list_at(old(self).tokens(), old(self).position())->Ok_0.0->0;
                    assert(m2.made_option_list(&hv, &hn, &self.builder, &list));
                    assert(builds_option_list(b0, tree, self.builder, list));
                }
                Ok(Some(list))
            },
            _ => Ok(None),
        }
    }

    /// Reads one option: `--`, a name, `=` and a value.
    pub fn parse_option(&mut self) -> (r: Result<B::Option, ParseError>)
        ensures
            final(self).tokens() == old(self).tokens(),
            extends(old(self).builder, final(self).builder),
            match option_at(old(self).tokens(), old(self).position()) {
                Ok((tree, end)) => {
                    &&& r matches Ok(h)
                    &&& final(self).position() == end
                    &&& final(self).builder.holds_option(&h)
                    &&& final(self).builder.option_tree(&h) == tree
                    &&& builds_option(old(self).builder, tree, final(self).builder, h)
                },
                Err(e) => r matches Err(f) && f == e,
            },
    {
        let position = self.scanner.position();
        match self.scanner.next() {
            Some(Token::DashDash) => {},
            Some(actual) => {
                return Err(
                    ParseError::UnexpectedToken { expected: TokenKind::DashDash, actual, position },
                );
            },
            None => {
                return Err(ParseError::UnexpectedEndOfInput { position });
            },
        }
        let ghost b0 = self.builder;
        let name = match self.get_str() {
            Ok(name) => name,
            Err(e) => {
                return Err(e);
            },
        };
        let ghost m1 = self.builder;
        let ghost hn = name;
        let position = self.scanner.position();
        match self.scanner.next() {
            Some(Token::Equals) => {},
            Some(actual) => {
                return Err(
                    ParseError::UnexpectedToken { expected: TokenKind::Equals, actual, position },
                );
            },
            None => {
                return Err(ParseError::UnexpectedEndOfInput { position });
            },
        }
        let value = match self.get_str() {
            Ok(value) => value,
            Err(e) => {
                return Err(e);
            },
        };
        let ghost m2 = self.builder;
        let ghost hv = value;
        let option = self.builder.build_option(name, value);
        proof {
            let tree = option_at(old(self).tokens(), old(self).position())->Ok_0.0;
            assert(builds_str(b0, *tree->Option_name, m1, hn));
            assert(builds_str(m1, *tree->Option_value, m2, hv));
            assert(m2.made_option(&hn, &hv, &self.builder, &option));
            assert(builds_option(b0, tree, self.builder, option));
        }
        Ok(option)
    }

    /// Reads the arguments of a command, as many as there are. This never fails.
    pub fn parse_arg_list(&mut self) -> (r: Result<Option<B::ArgList>, ParseError>)
        ensures
            final(self).tokens() == old(self).tokens(),
            extends(old(self).builder, final(self).builder),
            r matches Ok(h) && final(self).position() == arg_list_at(
                old(self).tokens(),
                old(self).position(),
            ).1 && is_arg_list_of(
                final(self).builder,
                h,
                arg_list_at(old(self).tokens(), old(self).position()).0,
            ) && builds_args(
                old(self).builder,
                arg_list_at(old(self).tokens(), old(self).position()).0,
                final(self).builder,
                h,
            ),
            r matches Ok(h) ==> (h is None <==> !(old(self).position() < old(self).tokens().len()
                && old(self).tokens()[old(self).position()] is Str)),
            r matches Ok(None) ==> final(self).position() == old(self).position()
                && final(self).builder == old(self).builder,
        decreases old(self).tokens().len() - old(self).position(),
    {
        let ghost b0 = self.builder;
        proof {
            use_type_invariant(&self.scanner);
            lemma_arg_list_sound(self.tokens(), self.position());
        }
        match self.scanner.peek() {
            Some(Token::Str(_)) => {
                let arg = match self.get_str() {
                    Ok(arg) => arg,
                    Err(e) => {
                        return Err(e);
                    },
                };
                let ghost m1 = self.builder;
                let ghost hv = arg;
                let next = match self.parse_arg_list() {
                    Ok(next) => next,
                    Err(e) => {
                        return Err(e);
                    },
                };
                let ghost m2 = self.builder;
                let ghost hn = next;
                let list = self.builder.build_arg_list(arg, next);
                proof {
                    let tree = *arg_list_at(old(self).tokens(), old(self).position()).0->0;
                    assert(builds_str(b0, *tree->List_value, m1, hv));
                    assert(m2.made_arg_list(&hv, &hn, &self.builder, &list));
                    assert(builds_arg_list(b0, tree, self.builder, list));
                }
                Ok(Some(list))
            },
            _ => Ok(None),
        }
    }
}

} // verus!
