//! The grammar, read from left to right with one token of lookahead:
//!
//! ```text
//! Command    := Str OptionList? ArgList? Pipeline?
//! Pipeline   := Pipe Command
//! OptionList := Option OptionList?
//! Option     := DashDash Str Equals Str
//! ArgList    := Str ArgList?
//! ```
//!
//! Each function here says what stands at a position of a token sequence: the
//! tree and the position behind it, or the first error.

use vstd::prelude::*;
use crate::interface::{ParseError, Token, TokenKind};
use crate::tree::{
    Symbol, Tree, is_arg_list, is_command, is_option, is_option_list, is_sentence, symbols,
    symbols_of,
};

verus! {

/// The error for a token that is missing or of the wrong kind at `pos`.
pub open spec fn mismatch(
    tokens: Seq<Token<'static>>,
    pos: int,
    expected: TokenKind,
) -> ParseError {
    if 0 <= pos < tokens.len() {
        ParseError::UnexpectedToken { expected, actual: tokens[pos], position: pos as usize }
    } else {
        ParseError::UnexpectedEndOfInput { position: pos as usize }
    }
}

/// A string leaf at `pos`.
pub open spec fn str_at(tokens: Seq<Token<'static>>, pos: int) -> Result<(Tree, int), ParseError> {
    if 0 <= pos < tokens.len() && tokens[pos] is Str {
        Ok((Tree::Str(tokens[pos]->Str_0@), pos + 1))
    } else {
        Err(mismatch(tokens, pos, TokenKind::Str))
    }
}

/// An option at `pos`: `--`, a name, `=` and a value.
pub open spec fn option_at(tokens: Seq<Token<'static>>, pos: int) -> Result<
    (Tree, int),
    ParseError,
> {
    if !(0 <= pos < tokens.len() && tokens[pos] is DashDash) {
        Err(mismatch(tokens, pos, TokenKind::DashDash))
    } else {
        match str_at(tokens, pos + 1) {
            Err(e) => Err(e),
            Ok((name, _)) => if !(0 <= pos + 2 < tokens.len() && tokens[pos + 2] is Equals) {
                Err(mismatch(tokens, pos + 2, TokenKind::Equals))
            } else {
                match str_at(tokens, pos + 3) {
                    Err(e) => Err(e),
                    Ok((value, _)) => Ok(
                        (Tree::Option { name: Box::new(name), value: Box::new(value) }, pos + 4),
                    ),
                }
            },
        }
    }
}

/// The option list at `pos`: absent unless a `--` stands there, else an option
/// and the option list behind it.
pub open spec fn option_list_at(tokens: Seq<Token<'static>>, pos: int) -> Result<
    (Option<Box<Tree>>, int),
    ParseError,
>
    decreases tokens.len() - pos,
{
    if 0 <= pos < tokens.len() && tokens[pos] is DashDash {
        match option_at(tokens, pos) {
            Err(e) => Err(e),
            Ok((option, _)) => match option_list_at(tokens, pos + 4) {
                Err(e) => Err(e),
                Ok((next, end)) => Ok(
                    (Some(Box::new(Tree::List { value: Box::new(option), next })), end),
                ),
            },
        }
    } else {
        Ok((None, pos))
    }
}

/// The argument list at `pos`: absent unless a string stands there, else that
/// string and the argument list behind it.
pub open spec fn arg_list_at(tokens: Seq<Token<'static>>, pos: int) -> (Option<Box<Tree>>, int)
    decreases tokens.len() - pos,
{
    if 0 <= pos < tokens.len() && tokens[pos] is Str {
        let (next, end) = arg_list_at(tokens, pos + 1);
        (
            Some(
                Box::new(
                    Tree::List {
                        value: Box::new(Tree::Str(tokens[pos]->Str_0@)),
                        next,
                    },
                ),
            ),
            end,
        )
    } else {
        (None, pos)
    }
}

/// The position behind an option list lies at or behind its start, within the
/// sequence.
pub proof fn lemma_option_list_end(tokens: Seq<Token<'static>>, pos: int)
    requires
        0 <= pos <= tokens.len(),
    ensures
        option_list_at(tokens, pos) matches Ok((_, end)) ==> pos <= end <= tokens.len(),
    decreases tokens.len() - pos,
{
    if 0 <= pos < tokens.len() && tokens[pos] is DashDash {
        if option_at(tokens, pos) is Ok {
            lemma_option_list_end(tokens, pos + 4);
        }
    }
}

/// The position behind an argument list lies at or behind its start, within
/// the sequence.
pub proof fn lemma_arg_list_end(tokens: Seq<Token<'static>>, pos: int)
    requires
        0 <= pos <= tokens.len(),
    ensures
        pos <= arg_list_at(tokens, pos).1 <= tokens.len(),
    decreases tokens.len() - pos,
{
    if 0 <= pos < tokens.len() && tokens[pos] is Str {
        lemma_arg_list_end(tokens, pos + 1);
    }
}

/// The command at `pos`: a name, its option list, its argument list, and then
/// either the end of the sequence or a `|` and a further command.
pub open spec fn command_at(tokens: Seq<Token<'static>>, pos: int) -> Result<Tree, ParseError>
    decreases tokens.len() - pos,
    via command_at_decreases
{
    match str_at(tokens, pos) {
        Err(e) => Err(e),
        Ok((name, _)) => match option_list_at(tokens, pos + 1) {
            Err(e) => Err(e),
            Ok((options, end)) => {
                let (args, end) = arg_list_at(tokens, end);
                if end >= tokens.len() {
                    Ok(Tree::Command { name: Box::new(name), options, args, pipeline: None })
                } else if tokens[end] is Pipe {
                    match command_at(tokens, end + 1) {
                        Err(e) => Err(e),
                        Ok(next) => Ok(
                            Tree::Command {
                                name: Box::new(name),
                                options,
                                args,
                                pipeline: Some(Box::new(next)),
                            },
                        ),
                    }
                } else {
                    Err(mismatch(tokens, end, TokenKind::Pipe))
                }
            },
        },
    }
}

#[via_fn]
proof fn command_at_decreases(tokens: Seq<Token<'static>>, pos: int) {
    if str_at(tokens, pos) is Ok {
        lemma_option_list_end(tokens, pos + 1);
        if let Ok((_, end)) = option_list_at(tokens, pos + 1) {
            lemma_arg_list_end(tokens, end);
        }
    }
}

/// The tokens without what only an executable string holds: each by its view.
pub open spec fn views(tokens: Seq<Token<'static>>) -> Seq<Symbol> {
    Seq::new(tokens.len(), |i: int| tokens[i]@)
}

/// A string leaf that stands at `pos` spells the one token there.
pub proof fn lemma_str_sound(tokens: Seq<Token<'static>>, pos: int)
    ensures
        str_at(tokens, pos) matches Ok((tree, end)) ==> {
            &&& 0 <= pos
            &&& end == pos + 1
            &&& end <= tokens.len()
            &&& tree is Str
            &&& symbols(tree) == views(tokens).subrange(pos, end)
        },
{
    if let Ok((tree, end)) = str_at(tokens, pos) {
        assert(symbols(tree) =~= views(tokens).subrange(pos, end));
    }
}

/// An option that stands at `pos` spells the four tokens there.
pub proof fn lemma_option_sound(tokens: Seq<Token<'static>>, pos: int)
    ensures
        option_at(tokens, pos) matches Ok((tree, end)) ==> {
            &&& 0 <= pos
            &&& end == pos + 4
            &&& end <= tokens.len()
            &&& is_option(tree)
            &&& symbols(tree) == views(tokens).subrange(pos, end)
        },
{
    if let Ok((tree, end)) = option_at(tokens, pos) {
        lemma_str_sound(tokens, pos + 1);
        lemma_str_sound(tokens, pos + 3);
        assert(symbols(tree) =~= views(tokens).subrange(pos, end));
    }
}

/// An option list that stands at `pos` is a list of options, spells the tokens
/// up to its end, and no `--` stands behind it.
pub proof fn lemma_option_list_sound(tokens: Seq<Token<'static>>, pos: int)
    requires
        0 <= pos <= tokens.len(),
    ensures
        option_list_at(tokens, pos) matches Ok((tree, end)) ==> {
            &&& pos <= end <= tokens.len()
            &&& tree matches Some(list) ==> is_option_list(*list)
            &&& tree is Some <==> pos < tokens.len() && tokens[pos] is DashDash
            &&& symbols_of(tree) == views(tokens).subrange(pos, end)
            &&& end < tokens.len() ==> !(tokens[end] is DashDash)
        },
    decreases tokens.len() - pos,
{
    if let Ok((tree, end)) = option_list_at(tokens, pos) {
        if pos < tokens.len() && tokens[pos] is DashDash {
            lemma_option_sound(tokens, pos);
            lemma_option_list_sound(tokens, pos + 4);
            let (option, _) = option_at(tokens, pos)->Ok_0;
            let (next, _) = option_list_at(tokens, pos + 4)->Ok_0;
            assert(symbols_of(tree) == symbols(option) + symbols_of(next));
            assert(symbols_of(tree) =~= views(tokens).subrange(pos, end));
        } else {
            assert(symbols_of(tree) =~= views(tokens).subrange(pos, end));
        }
    }
}

/// The argument list that stands at `pos` is a list of strings, spells the
/// tokens up to its end, and no string stands behind it.
pub proof fn lemma_arg_list_sound(tokens: Seq<Token<'static>>, pos: int)
    requires
        0 <= pos <= tokens.len(),
    ensures
        ({
            let (tree, end) = arg_list_at(tokens, pos);
            &&& pos <= end <= tokens.len()
            &&& tree matches Some(list) ==> is_arg_list(*list)
            &&& tree is Some <==> pos < tokens.len() && tokens[pos] is Str
            &&& symbols_of(tree) == views(tokens).subrange(pos, end)
            &&& end < tokens.len() ==> !(tokens[end] is Str)
        }),
    decreases tokens.len() - pos,
{
    let (tree, end) = arg_list_at(tokens, pos);
    if pos < tokens.len() && tokens[pos] is Str {
        lemma_arg_list_sound(tokens, pos + 1);
        let (next, _) = arg_list_at(tokens, pos + 1);
        let value = Tree::Str(tokens[pos]->Str_0@);
        assert(symbols(value) == seq![tokens[pos]@]);
        assert(symbols(*tree->0) == symbols(value) + symbols_of(next));
        assert(symbols_of(tree) =~= views(tokens).subrange(pos, end));
    } else {
        assert(symbols_of(tree) =~= views(tokens).subrange(pos, end));
    }
}

/// Soundness: the tree that stands at `pos` is a command of the grammar, and it
/// spells exactly the tokens from `pos` to the end.
pub proof fn lemma_command_sound(tokens: Seq<Token<'static>>, pos: int)
    requires
        0 <= pos <= tokens.len(),
    ensures
        command_at(tokens, pos) matches Ok(tree) ==> is_command(tree) && symbols(tree) == views(
            tokens,
        ).skip(pos),
    decreases tokens.len() - pos,
{
    if let Ok(tree) = command_at(tokens, pos) {
        lemma_str_sound(tokens, pos);
        lemma_option_list_sound(tokens, pos + 1);
        let (name, _) = str_at(tokens, pos)->Ok_0;
        let (options, mid) = option_list_at(tokens, pos + 1)->Ok_0;
        lemma_arg_list_sound(tokens, mid);
        let (args, end) = arg_list_at(tokens, mid);
        let head = symbols(name) + symbols_of(options) + symbols_of(args);
        assert(head =~= views(tokens).subrange(pos, end));
        if end >= tokens.len() {
            assert(symbols(tree) =~= head + Seq::<Symbol>::empty());
            assert(symbols(tree) =~= views(tokens).skip(pos));
        } else {
            lemma_command_sound(tokens, end + 1);
            let next = command_at(tokens, end + 1)->Ok_0;
            assert(symbols(tree) =~= head + (seq![Symbol::Pipe] + symbols(next)));
            assert(symbols(tree) =~= views(tokens).skip(pos));
        }
    }
}

/// An option list spells at least four tokens, the first of them a `--`.
pub proof fn lemma_option_list_starts(list: Tree)
    requires
        is_option_list(list),
    ensures
        symbols(list).len() >= 4,
        symbols(list)[0] == Symbol::DashDash,
        symbols(list)[1] is Str,
        symbols(list)[2] == Symbol::Equals,
        symbols(list)[3] is Str,
        symbols(list) == symbols(*list->List_value) + symbols_of(list->next),
        symbols(*list->List_value) == seq![
            Symbol::DashDash,
            symbols(*(*list->List_value)->Option_name)[0],
            Symbol::Equals,
            symbols(*(*list->List_value)->Option_value)[0],
        ],
{
    let option = *list->List_value;
    let name = *option->Option_name;
    let value = *option->Option_value;
    assert(symbols(name).len() == 1);
    assert(symbols(value).len() == 1);
    assert(symbols(option) =~= seq![
        Symbol::DashDash,
        symbols(name)[0],
        Symbol::Equals,
        symbols(value)[0],
    ]);
}

/// An argument list spells at least one token, the first of them a string.
pub proof fn lemma_arg_list_starts(list: Tree)
    requires
        is_arg_list(list),
    ensures
        symbols(list).len() >= 1,
        symbols(list)[0] is Str,
        symbols(list) == symbols(*list->List_value) + symbols_of(list->next),
        symbols(*list->List_value).len() == 1,
{
    let value = *list->List_value;
    assert(symbols(value).len() == 1);
    assert(symbols(list)[0] == symbols(value)[0]);
}

/// Where the tokens from `pos` to `end` spell an option list and no `--`
/// stands at `end`, that option list stands at `pos`.
pub proof fn lemma_option_list_complete(
    tokens: Seq<Token<'static>>,
    pos: int,
    list: Tree,
    end: int,
)
    requires
        0 <= pos <= end <= tokens.len(),
        is_option_list(list),
        views(tokens).subrange(pos, end) == symbols(list),
        end < tokens.len() ==> !(tokens[end] is DashDash),
    ensures
        option_list_at(tokens, pos) == Ok::<(Option<Box<Tree>>, int), ParseError>(
            (Some(Box::new(list)), end),
        ),
    decreases list,
{
    lemma_option_list_starts(list);
    let spelt = symbols(list);
    let option = *list->List_value;
    let next = list->next;
    assert(spelt.len() == end - pos);
    assert forall|i: int| 0 <= i < spelt.len() implies spelt[i] == #[trigger] tokens[pos + i]@ by {
        assert(views(tokens).subrange(pos, end)[i] == views(tokens)[pos + i]);
    }
    assert(tokens[pos + 0]@ == Symbol::DashDash);
    assert(tokens[pos + 1]@ is Str);
    assert(tokens[pos + 2]@ == Symbol::Equals);
    assert(tokens[pos + 3]@ is Str);
    assert(symbols(*option->Option_name)[0] == spelt[1]);
    assert(symbols(*option->Option_value)[0] == spelt[3]);
    assert(option_at(tokens, pos) == Ok::<(Tree, int), ParseError>((option, pos + 4)));
    let rest = symbols_of(next);
    assert(rest =~= views(tokens).subrange(pos + 4, end)) by {
        assert(rest.len() == end - pos - 4);
        assert forall|i: int| 0 <= i < rest.len() implies rest[i] == views(tokens).subrange(
            pos + 4,
            end,
        )[i] by {
            assert(spelt[4 + i] == rest[i]);
            assert(spelt[4 + i] == tokens[pos + (4 + i)]@);
        }
    }
    match next {
        Some(more) => {
            lemma_option_list_complete(tokens, pos + 4, *more, end);
        },
        None => {
            assert(end == pos + 4);
        },
    }
    assert(option_list_at(tokens, pos + 4) == Ok::<(Option<Box<Tree>>, int), ParseError>(
        (next, end),
    ));
    assert(list == Tree::List { value: Box::new(option), next });
}

/// Where the tokens from `pos` to `end` spell an argument list and no string
/// stands at `end`, that argument list stands at `pos`.
pub proof fn lemma_arg_list_complete(tokens: Seq<Token<'static>>, pos: int, list: Tree, end: int)
    requires
        0 <= pos <= end <= tokens.len(),
        is_arg_list(list),
        views(tokens).subrange(pos, end) == symbols(list),
        end < tokens.len() ==> !(tokens[end] is Str),
    ensures
        arg_list_at(tokens, pos) == (Some(Box::new(list)), end),
    decreases list,
{
    lemma_arg_list_starts(list);
    let spelt = symbols(list);
    let next = list->next;
    assert(spelt.len() == end - pos);
    assert forall|i: int| 0 <= i < spelt.len() implies spelt[i] == #[trigger] tokens[pos + i]@ by {
        assert(views(tokens).subrange(pos, end)[i] == views(tokens)[pos + i]);
    }
    assert(tokens[pos + 0]@ is Str);
    assert(symbols(*list->List_value)[0] == spelt[0]);
    let rest = symbols_of(next);
    assert(rest =~= views(tokens).subrange(pos + 1, end)) by {
        assert(rest.len() == end - pos - 1);
        assert forall|i: int| 0 <= i < rest.len() implies rest[i] == views(tokens).subrange(
            pos + 1,
            end,
        )[i] by {
            assert(spelt[1 + i] == rest[i]);
            assert(spelt[1 + i] == tokens[pos + (1 + i)]@);
        }
    }
    match next {
        Some(more) => {
            lemma_arg_list_complete(tokens, pos + 1, *more, end);
        },
        None => {
            assert(end == pos + 1);
        },
    }
    assert(arg_list_at(tokens, pos + 1) == (next, end));
    assert(list == Tree::List { value: Box::new(Tree::Str(tokens[pos]->Str_0@)), next });
}

/// Completeness: where the tokens from `pos` to the end spell a command of the
/// grammar, that command is the tree that stands at `pos`.
pub proof fn lemma_command_complete(tokens: Seq<Token<'static>>, pos: int, tree: Tree)
    requires
        0 <= pos <= tokens.len(),
        is_command(tree),
        views(tokens).skip(pos) == symbols(tree),
    ensures
        command_at(tokens, pos) == Ok::<Tree, ParseError>(tree),
    decreases tree,
{
    let spelt = symbols(tree);
    let name = *tree->Command_name;
    let options = tree->options;
    let args = tree->args;
    let pipeline = tree->pipeline;
    let tail: Seq<Symbol> = match pipeline {
        Some(p) => seq![Symbol::Pipe] + symbols(*p),
        None => Seq::empty(),
    };
    assert(spelt == symbols(name) + symbols_of(options) + symbols_of(args) + tail);
    assert(symbols(name).len() == 1);
    let mid = pos + 1 + symbols_of(options).len();
    let end = mid + symbols_of(args).len();
    assert(spelt.len() == tokens.len() - pos);
    assert(end + tail.len() == tokens.len());
    assert forall|i: int| 0 <= i < spelt.len() implies spelt[i] == #[trigger] tokens[pos + i]@ by {
        assert(views(tokens).skip(pos)[i] == views(tokens)[pos + i]);
    }
    assert(spelt[0] == symbols(name)[0]);
    assert(tokens[pos + 0]@ == spelt[0]);
    assert(str_at(tokens, pos) == Ok::<(Tree, int), ParseError>((name, pos + 1)));
    assert(symbols_of(options) =~= views(tokens).subrange(pos + 1, mid)) by {
        assert forall|i: int| 0 <= i < symbols_of(options).len() implies symbols_of(options)[i]
            == views(tokens).subrange(pos + 1, mid)[i] by {
            assert(spelt[1 + i] == symbols_of(options)[i]);
            assert(spelt[1 + i] == tokens[pos + (1 + i)]@);
        }
    }
    assert(symbols_of(args) =~= views(tokens).subrange(mid, end)) by {
        assert forall|i: int| 0 <= i < symbols_of(args).len() implies symbols_of(args)[i] == views(
            tokens,
        ).subrange(mid, end)[i] by {
            assert(spelt[mid - pos + i] == symbols_of(args)[i]);
            assert(spelt[mid - pos + i] == tokens[pos + (mid - pos + i)]@);
        }
    }
    assert(tail =~= views(tokens).skip(end)) by {
        assert forall|i: int| 0 <= i < tail.len() implies tail[i] == views(tokens).skip(end)[i] by {
            assert(spelt[end - pos + i] == tail[i]);
            assert(spelt[end - pos + i] == tokens[pos + (end - pos + i)]@);
        }
    }
    // What stands at `end`, where anything does, is the `|` of the tail.
    if end < tokens.len() {
        assert(tail[0] == Symbol::Pipe);
        assert(tokens[end]@ == views(tokens).skip(end)[0]);
        assert(tokens[end] is Pipe);
    }
    // What stands at `mid`, where anything does, starts the arguments or the tail.
    if mid < tokens.len() {
        match args {
            Some(list) => {
                lemma_arg_list_starts(*list);
                assert(tokens[mid]@ == views(tokens).subrange(mid, end)[0]);
                assert(tokens[mid] is Str);
            },
            None => {
                assert(mid == end);
            },
        }
    }
    match options {
        Some(list) => {
            lemma_option_list_complete(tokens, pos + 1, *list, mid);
        },
        None => {
            assert(mid == pos + 1);
        },
    }
    assert(option_list_at(tokens, pos + 1) == Ok::<(Option<Box<Tree>>, int), ParseError>(
        (options, mid),
    ));
    match args {
        Some(list) => {
            lemma_arg_list_complete(tokens, mid, *list, end);
        },
        None => {
            assert(mid == end);
        },
    }
    assert(arg_list_at(tokens, mid) == (args, end));
    match pipeline {
        Some(p) => {
            assert(symbols(*p) =~= views(tokens).skip(end + 1)) by {
                assert forall|i: int| 0 <= i < symbols(*p).len() implies symbols(*p)[i] == views(
                    tokens,
                ).skip(end + 1)[i] by {
                    assert(tail[1 + i] == symbols(*p)[i]);
                    assert(tail[1 + i] == views(tokens).skip(end)[1 + i]);
                }
            }
            lemma_command_complete(tokens, end + 1, *p);
        },
        None => {
            assert(end == tokens.len());
        },
    }
}

/// The grammar is unambiguous: two commands that spell the same tokens are the
/// same tree.
pub proof fn lemma_unambiguous(tokens: Seq<Token<'static>>, first: Tree, second: Tree)
    requires
        is_command(first),
        is_command(second),
        symbols(first) == views(tokens),
        symbols(second) == views(tokens),
    ensures
        first == second,
{
    assert(views(tokens).skip(0) =~= views(tokens));
    lemma_command_complete(tokens, 0, first);
    lemma_command_complete(tokens, 0, second);
}

/// A command stands at `pos` exactly where the tokens from there on are a
/// sentence of the language.
pub proof fn lemma_accepts_sentences(tokens: Seq<Token<'static>>, pos: int)
    requires
        0 <= pos <= tokens.len(),
    ensures
        command_at(tokens, pos) is Ok <==> is_sentence(views(tokens).skip(pos)),
{
    if command_at(tokens, pos) is Ok {
        lemma_command_sound(tokens, pos);
        let tree = command_at(tokens, pos)->Ok_0;
        assert(is_command(tree) && symbols(tree) == views(tokens).skip(pos));
    }
    if is_sentence(views(tokens).skip(pos)) {
        let tree = choose|t: Tree| is_command(t) && symbols(t) == views(tokens).skip(pos);
        lemma_command_complete(tokens, pos, tree);
    }
}

/// Which parts of a command are absent shows in the tokens it spells: the
/// options, unless a `--` follows the name; the arguments, unless a string
/// follows the name and the options; the continuation, unless a `|` follows
/// those, which is where the tokens do not end.
pub proof fn lemma_absent_parts(tree: Tree)
    requires
        is_command(tree),
    ensures
        ({
            let spelt = symbols(tree);
            let mid = 1 + symbols_of(tree->options).len();
            let end = mid + symbols_of(tree->args).len();
            &&& 1 <= mid <= end <= spelt.len()
            &&& tree->options is None <==> !(1 < spelt.len() && spelt[1] is DashDash)
            &&& tree->args is None <==> !(mid < spelt.len() && spelt[mid as int] is Str)
            &&& tree->pipeline is None <==> end == spelt.len()
            &&& tree->pipeline is Some <==> end < spelt.len() && spelt[end as int] is Pipe
        }),
{
    let spelt = symbols(tree);
    let name = *tree->Command_name;
    let options = tree->options;
    let args = tree->args;
    let tail: Seq<Symbol> = match tree->pipeline {
        Some(p) => seq![Symbol::Pipe] + symbols(*p),
        None => Seq::empty(),
    };
    let mid = 1 + symbols_of(options).len();
    let end = mid + symbols_of(args).len();
    assert(symbols(name).len() == 1);
    assert(spelt == symbols(name) + symbols_of(options) + symbols_of(args) + tail);
    match options {
        Some(list) => {
            lemma_option_list_starts(*list);
            assert(spelt[1] == symbols_of(options)[0]);
        },
        None => {},
    }
    match args {
        Some(list) => {
            lemma_arg_list_starts(*list);
            assert(spelt[mid as int] == symbols_of(args)[0]);
            if options is None {
                assert(spelt[1] is Str);
            }
        },
        None => {
            if end < spelt.len() {
                assert(spelt[end as int] == tail[0]);
            }
        },
    }
    if end < spelt.len() {
        assert(spelt[end as int] == tail[0]);
    }
}

} // verus!
