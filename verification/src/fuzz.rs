//! A random generator of sentences of the language. Each further option,
//! argument or command is added with a probability that starts at 1 and is
//! multiplied by a fixed factor below 1 at every step, so every sentence ends.
//!
//! Every decision has two parts: a draw from the generator of random numbers,
//! and a step that takes what was drawn and is exact about what it does with
//! it.

use vstd::prelude::*;
use rand::{Rng, SeedableRng};
use rand::rngs::StdRng;
use crate::grammar::{command_at, lemma_command_complete, views};
use crate::interface::Token;
use crate::tree::{
    Symbol, Tree, is_arg_list, is_command, is_option_list, is_sentence, symbols, symbols_of,
};

verus! {

/// The generator of random numbers that a `Fuzzer` owns, carried through as
/// it is.
#[verifier::external_type_specification]
#[verifier::external_body]
pub struct ExStdRng(StdRng);

/// `SeedableRng::from_entropy` for `StdRng`: a generator seeded by the
/// operating system. Nothing is claimed of it. It needs a source of entropy
/// there.
#[verifier::external_body]
fn from_entropy() -> StdRng {
    StdRng::from_entropy()
}

/// `SeedableRng::seed_from_u64` for `StdRng`: a generator that starts from
/// `seed`. Nothing is claimed of it.
#[verifier::external_body]
fn seed_from_u64(seed: u64) -> StdRng {
    StdRng::seed_from_u64(seed)
}

/// `Rng::gen_range` on `0..bound`: some index below `bound`, which must not be
/// zero.
#[verifier::external_body]
fn gen_index(rng: &mut StdRng, bound: usize) -> (i: usize)
    requires
        bound > 0,
    ensures
        i < bound,
{
    rng.gen_range(0..bound)
}

/// `Rng::gen_ratio`: `true` with probability `numerator / denominator`. Of the
/// outcome only what holds every time is claimed: it is `false` for a
/// numerator of zero and `true` where numerator and denominator are equal.
#[verifier::external_body]
fn gen_ratio(rng: &mut StdRng, numerator: u32, denominator: u32) -> (b: bool)
    requires
        denominator > 0,
        numerator <= denominator,
    ensures
        numerator == 0 ==> !b,
        numerator == denominator ==> b,
{
    rng.gen_ratio(numerator, denominator)
}

/// Probabilities are numerators over this denominator, whatever the
/// denominator of the decay factor: `FULL` itself is probability 1.
pub const FULL: u32 = 0xffff_ffff;

/// No sentence is longer than this: nothing is added where it would not fit.
pub const MAX_TOKENS: usize = 1_000_000;

/// The number of words that the generator draws from.
pub const WORDS: usize = 5;

/// The words that the generator draws from.
pub open spec fn vocabulary() -> Seq<Seq<char>> {
    seq!["hello"@, "hi"@, "abc"@, "meow"@, "hehehehehe"@]
}

/// The word of index `i`.
pub fn word(i: usize) -> (w: &'static str)
    requires
        i < WORDS,
    ensures
        w@ == vocabulary()[i as int],
{
    if i == 0 {
        "hello"
    } else if i == 1 {
        "hi"
    } else if i == 2 {
        "abc"
    } else if i == 3 {
        "meow"
    } else {
        "hehehehehe"
    }
}

/// Every string among `tokens` is a word of the vocabulary.
pub open spec fn lexical(tokens: Seq<Token<'static>>) -> bool {
    forall|i: int|
        0 <= i < tokens.len() ==> (#[trigger] tokens[i] matches Token::Str(s)
            ==> vocabulary().contains(s@))
}

/// `tree` is a command with options, arguments and a continuation.
pub open spec fn has_every_part(tree: Tree) -> bool {
    tree matches Tree::Command { options, args, pipeline, .. } && options is Some && args is Some
        && pipeline is Some
}

/// The tokens of what follows the arguments of a command: none, or a `|` and
/// a command.
pub open spec fn tail_symbols(tree: Option<Box<Tree>>) -> Seq<Symbol> {
    match tree {
        Some(next) => seq![Symbol::Pipe] + symbols(*next),
        None => Seq::empty(),
    }
}

/// Appends the word of index `index` as a string token.
fn push_word(out: &mut Vec<Token<'static>>, index: usize) -> (text: Ghost<Seq<char>>)
    requires
        index < WORDS,
    ensures
        text@ == vocabulary()[index as int],
        final(out)@.len() == old(out)@.len() + 1,
        old(out)@.is_prefix_of(final(out)@),
        final(out)@.last() matches Token::Str(s) && s@ == text@,
        vocabulary().contains(text@),
        views(final(out)@) == views(old(out)@) + seq![Symbol::Str(text@)],
        lexical(old(out)@) ==> lexical(final(out)@),
{
    let w = word(index);
    proof {
        lemma_views_push(out@, Token::Str(w));
        assert(out@.is_prefix_of(out@.push(Token::Str(w))));
    }
    out.push(Token::Str(w));
    Ghost(w@)
}

/// What stays in front of a sequence stays in front of a longer one.
proof fn lemma_kept(
    before: Seq<Token<'static>>,
    built: Seq<Token<'static>>,
    after: Seq<Token<'static>>,
)
    requires
        before.is_prefix_of(built),
        built.is_prefix_of(after),
    ensures
        before.is_prefix_of(after),
{
    assert forall|i: int| 0 <= i < before.len() implies after[i] == before[i] by {
        assert(built.subrange(0, before.len() as int)[i] == built[i]);
        assert(after.subrange(0, built.len() as int)[i] == after[i]);
    }
    assert(before =~= after.subrange(0, before.len() as int));
}

/// There are as many views as tokens.
proof fn lemma_views_len(tokens: Seq<Token<'static>>)
    ensures
        views(tokens).len() == tokens.len(),
{
}

/// One more token is one more view.
proof fn lemma_views_push(tokens: Seq<Token<'static>>, t: Token<'static>)
    ensures
        views(tokens.push(t)) == views(tokens) + seq![t@],
{
    assert(views(tokens.push(t)) =~= views(tokens) + seq![t@]);
}

/// The factor by which the probability of going on decays at every step,
/// `numerator / denominator`. It lies strictly between 0 and 1.
#[derive(Clone, Copy, Debug)]
struct Decay {
    numerator: u32,
    denominator: u32,
}

impl Decay {
    #[verifier::type_invariant]
    spec fn proper(&self) -> bool {
        0 < self.numerator < self.denominator
    }

    /// The probability that follows `prob`, both over `FULL`: `prob` times the
    /// factor, rounded down. It is smaller than `prob`, unless that is zero
    /// already.
    fn next(&self, prob: u32) -> (next: u32)
        ensures
            next == (prob * self.numerator) / (self.denominator as int),
            next <= prob,
            prob > 0 ==> next < prob,
    {
        proof {
            use_type_invariant(self);
            let p = prob as int;
            let n = self.numerator as int;
            let d = self.denominator as int;
            assert(0 <= p * n <= p * d && (p > 0 ==> p * n < p * d)) by (nonlinear_arith)
                requires
                    0 <= p,
                    0 < n < d,
            ;
            assert(p * n <= 0xffff_ffff * 0xffff_ffff) by (nonlinear_arith)
                requires
                    0 <= p <= 0xffff_ffff,
                    0 <= n <= 0xffff_ffff,
            ;
            assert((p * n) / d <= p && (p > 0 ==> (p * n) / d < p)) by (nonlinear_arith)
                requires
                    0 <= p * n <= p * d,
                    p > 0 ==> p * n < p * d,
                    0 < d,
            ;
        }
        ((prob as u64 * self.numerator as u64) / self.denominator as u64) as u32
    }
}

/// The probability that follows `prob` under the factor `factor`, both
/// probabilities over `FULL`: their product, rounded down.
pub open spec fn next_prob(factor: (u32, u32), prob: u32) -> u32 {
    ((prob * factor.0) / (factor.1 as int)) as u32
}

/// What a given list of coins answers at place `at` to a draw with
/// probability `prob`: the coin there, but never `true` at probability 0 or
/// behind the end of the list.
pub open spec fn coin_on(coins: Seq<bool>, at: nat, prob: u32) -> bool {
    at < coins.len() && coins[at as int] && prob > 0
}

/// The place behind `at` in a list of length `len`, which is not left.
pub open spec fn advance(len: nat, at: nat) -> nat {
    if at < len {
        at + 1
    } else {
        at
    }
}

/// The word that a given list of indices names at place `at`: the first word
/// where the list has ended or holds no index of a word there.
pub open spec fn text_on(words: Seq<usize>, at: nat) -> Seq<char> {
    if at < words.len() && words[at as int] < WORDS {
        vocabulary()[words[at as int] as int]
    } else {
        vocabulary()[0]
    }
}

/// The draws that a generator replays, and where it stands in them.
pub struct Draws {
    pub coins: Seq<bool>,
    pub words: Seq<usize>,
    pub coin: nat,
    pub word: nat,
}

impl Draws {
    /// The same draws behind one draw of a coin.
    pub open spec fn flipped(self) -> Draws {
        Draws { coin: advance(self.coins.len(), self.coin), ..self }
    }

    /// The same draws behind one draw of a word.
    pub open spec fn named(self) -> Draws {
        Draws { word: advance(self.words.len(), self.word), ..self }
    }
}

/// What the given draws make of an option list at probability `prob`, with
/// `len` tokens written so far: the draw of a coin, then the step.
pub open spec fn drawn_options(factor: (u32, u32), prob: u32, draws: Draws, len: nat) -> (
    Option<Box<Tree>>,
    Draws,
)
    decreases prob, 1int,
{
    options_after(
        factor,
        prob,
        draws.flipped(),
        len,
        coin_on(draws.coins, draws.coin, prob) && len + 4 <= MAX_TOKENS,
    )
}

/// The step behind the draw: with `coin` an option of two drawn words and
/// what the draws make of the options behind it, at the probability that
/// follows; without it nothing.
pub open spec fn options_after(
    factor: (u32, u32),
    prob: u32,
    draws: Draws,
    len: nat,
    coin: bool,
) -> (Option<Box<Tree>>, Draws)
    decreases prob, 0int,
{
    if coin && next_prob(factor, prob) < prob {
        let option = Tree::Option {
            name: Box::new(Tree::Str(text_on(draws.words, draws.word))),
            value: Box::new(Tree::Str(text_on(draws.words, draws.named().word))),
        };
        let (next, rest) = drawn_options(
            factor,
            next_prob(factor, prob),
            draws.named().named(),
            len + 4,
        );
        (Some(Box::new(Tree::List { value: Box::new(option), next })), rest)
    } else {
        (None, draws)
    }
}

/// What the given draws make of an argument list at probability `prob`, with
/// `len` tokens written so far: the draw of a coin, then the step.
pub open spec fn drawn_args(factor: (u32, u32), prob: u32, draws: Draws, len: nat) -> (
    Option<Box<Tree>>,
    Draws,
)
    decreases prob, 1int,
{
    args_after(
        factor,
        prob,
        draws.flipped(),
        len,
        coin_on(draws.coins, draws.coin, prob) && len + 1 <= MAX_TOKENS,
    )
}

/// The step behind the draw: with `coin` a drawn word and what the draws make
/// of the arguments behind it, at the probability that follows; without it
/// nothing.
pub open spec fn args_after(
    factor: (u32, u32),
    prob: u32,
    draws: Draws,
    len: nat,
    coin: bool,
) -> (Option<Box<Tree>>, Draws)
    decreases prob, 0int,
{
    if coin && next_prob(factor, prob) < prob {
        let (next, rest) = drawn_args(factor, next_prob(factor, prob), draws.named(), len + 1);
        (
            Some(
                Box::new(
                    Tree::List {
                        value: Box::new(Tree::Str(text_on(draws.words, draws.word))),
                        next,
                    },
                ),
            ),
            rest,
        )
    } else {
        (None, draws)
    }
}

/// What the given draws make of a command at probability `prob`, with `len`
/// tokens written so far: a drawn word as its name, then its options, its
/// arguments and what follows them.
pub open spec fn drawn_command(factor: (u32, u32), prob: u32, draws: Draws, len: nat) -> (
    Tree,
    Draws,
)
    decreases prob, 2int,
{
    let name = Tree::Str(text_on(draws.words, draws.word));
    let (options, first) = drawn_options(factor, prob, draws.named(), len + 1);
    let mid = len + 1 + symbols_of(options).len();
    let (args, second) = drawn_args(factor, prob, first, mid);
    let end = mid + symbols_of(args).len();
    let (pipeline, rest) = drawn_pipeline(factor, prob, second, end);
    (Tree::Command { name: Box::new(name), options, args, pipeline }, rest)
}

/// What the given draws make of the place behind the arguments of a command:
/// the draw of a coin, then the step.
pub open spec fn drawn_pipeline(factor: (u32, u32), prob: u32, draws: Draws, len: nat) -> (
    Option<Box<Tree>>,
    Draws,
)
    decreases prob, 1int,
{
    pipeline_after(
        factor,
        prob,
        draws.flipped(),
        len,
        coin_on(draws.coins, draws.coin, prob) && len + 2 <= MAX_TOKENS,
    )
}

/// The step behind the draw: with `coin` what the draws make of a further
/// command, at the probability that follows; without it nothing.
pub open spec fn pipeline_after(
    factor: (u32, u32),
    prob: u32,
    draws: Draws,
    len: nat,
    coin: bool,
) -> (Option<Box<Tree>>, Draws)
    decreases prob, 0int,
{
    if coin && next_prob(factor, prob) < prob {
        let (next, rest) = drawn_command(factor, next_prob(factor, prob), draws, len + 1);
        (Some(Box::new(next)), rest)
    } else {
        (None, draws)
    }
}

/// The generator: its own source of random numbers, the factor by which the
/// probability of going on decays and, where it replays given draws, those
/// draws.
#[derive(Debug)]
pub struct Fuzzer {
    rng: StdRng,
    decay: Decay,
    replay: bool,
    coins: Vec<bool>,
    words: Vec<usize>,
    coin: usize,
    word: usize,
}

impl Fuzzer {
    /// The factor by which the probability of going on decays, as numerator
    /// and denominator.
    pub closed spec fn factor(&self) -> (u32, u32) {
        (self.decay.numerator, self.decay.denominator)
    }

    /// This generator replays given draws and draws no random numbers.
    pub closed spec fn replaying(&self) -> bool {
        self.replay
    }

    /// The draws that this generator replays, and where it stands in them.
    pub closed spec fn draws(&self) -> Draws {
        Draws {
            coins: self.coins@,
            words: self.words@,
            coin: self.coin as nat,
            word: self.word as nat,
        }
    }

    /// A generator whose probability of going on decays by the factor
    /// `numerator / denominator`, which lies strictly between 0 and 1. The
    /// probabilities are kept as multiples of `1 / FULL`, rounded down, so two
    /// fractions of one value decay alike. Its random numbers start from what
    /// the operating system supplies.
    #[must_use]
    pub fn new(numerator: u32, denominator: u32) -> (f: Self)
        requires
            0 < numerator < denominator,
        ensures
            f.factor() == (numerator, denominator),
            !f.replaying(),
    {
        Fuzzer {
            rng: from_entropy(),
            decay: Decay { numerator, denominator },
            replay: false,
            coins: Vec::new(),
            words: Vec::new(),
            coin: 0,
            word: 0,
        }
    }

    /// A generator like that of `new`, whose random numbers start from `seed`.
    #[must_use]
    pub fn from_seed(numerator: u32, denominator: u32, seed: u64) -> (f: Self)
        requires
            0 < numerator < denominator,
        ensures
            f.factor() == (numerator, denominator),
            !f.replaying(),
    {
        Fuzzer {
            rng: seed_from_u64(seed),
            decay: Decay { numerator, denominator },
            replay: false,
            coins: Vec::new(),
            words: Vec::new(),
            coin: 0,
            word: 0,
        }
    }

    /// A generator that draws nothing at random: every coin is the next of
    /// `coins` and every word the one that the next of `words` names. Behind
    /// the end of `coins` every coin is `false`; behind the end of `words`, and
    /// for a number that names no word, the word is the first.
    #[must_use]
    pub fn from_draws(numerator: u32, denominator: u32, coins: Vec<bool>, words: Vec<usize>) -> (f:
        Self)
        requires
            0 < numerator < denominator,
        ensures
            f.factor() == (numerator, denominator),
            f.replaying(),
            f.draws() == (Draws { coins: coins@, words: words@, coin: 0, word: 0 }),
    {
        Fuzzer {
            rng: seed_from_u64(0),
            decay: Decay { numerator, denominator },
            replay: true,
            coins,
            words,
            coin: 0,
            word: 0,
        }
    }

    /// Generates a sentence of the language: the parser accepts it, with
    /// whatever builder. All its strings are words of the vocabulary, and it
    /// has at most `MAX_TOKENS` tokens.
    ///
    /// A generator that replays draws generates what those draws make of a
    /// command at probability 1: equal draws give equal sentences. One that
    /// draws at random gives the first command an option, and also an argument
    /// and a continuation unless the limit stood in their way, since the
    /// probability of each starts at 1.
    #[must_use]
    pub fn fuzz(self) -> (tokens: Vec<Token<'static>>)
        ensures
            is_sentence(views(tokens@)),
            lexical(tokens@),
            tokens@.len() <= MAX_TOKENS,
            command_at(tokens@, 0) matches Ok(tree) && tree is Command && (self.replaying()
                ==> tree == drawn_command(self.factor(), FULL, self.draws(), 0).0) && (
            !self.replaying() ==> tree->options is Some && (tokens@.len() + 4 <= MAX_TOKENS
                ==> has_every_part(tree))),
    {
        let mut fuzzer = self;
        let mut tokens: Vec<Token<'static>> = Vec::new();
        let tree = fuzzer.fuzz_command(&mut tokens, FULL);
        proof {
            assert(views(tokens@) =~= symbols(tree@));
            assert(views(tokens@).skip(0) =~= views(tokens@));
            lemma_command_complete(tokens@, 0, tree@);
        }
        tokens
    }

    /// Draws a coin of probability `prob`: from the random numbers, or the
    /// next of the given coins.
    fn draw_coin(&mut self, prob: u32) -> (b: bool)
        ensures
            final(self).factor() == old(self).factor(),
            final(self).replaying() == old(self).replaying(),
            b ==> prob > 0,
            old(self).replaying() ==> b == coin_on(
                old(self).draws().coins,
                old(self).draws().coin,
                prob,
            ) && final(self).draws() == old(self).draws().flipped(),
            !old(self).replaying() ==> final(self).draws() == old(self).draws() && (prob == FULL
                ==> b),
    {
        if self.replay {
            if self.coin < self.coins.len() {
                let c = self.coins[self.coin];
                self.coin = self.coin + 1;
                c && prob > 0
            } else {
                false
            }
        } else {
            gen_ratio(&mut self.rng, prob, FULL)
        }
    }

    /// Draws the index of a word: from the random numbers, or the next of the
    /// given ones.
    fn draw_index(&mut self) -> (i: usize)
        ensures
            final(self).factor() == old(self).factor(),
            final(self).replaying() == old(self).replaying(),
            i < WORDS,
            old(self).replaying() ==> vocabulary()[i as int] == text_on(
                old(self).draws().words,
                old(self).draws().word,
            ) && final(self).draws() == old(self).draws().named(),
            !old(self).replaying() ==> final(self).draws() == old(self).draws(),
    {
        if self.replay {
            if self.word < self.words.len() {
                let i = self.words[self.word];
                self.word = self.word + 1;
                if i < WORDS {
                    i
                } else {
                    0
                }
            } else {
                0
            }
        } else {
            gen_index(&mut self.rng, WORDS)
        }
    }

    /// Appends a command: a drawn word as its name, then options, arguments
    /// and a continuation, each drawn with probability `prob`.
    fn fuzz_command(&mut self, out: &mut Vec<Token<'static>>, prob: u32) -> (tree: Ghost<Tree>)
        requires
            old(out)@.len() < MAX_TOKENS,
        ensures
            final(self).factor() == old(self).factor(),
            final(self).replaying() == old(self).replaying(),
            !old(self).replaying() ==> final(self).draws() == old(self).draws(),
            old(self).replaying() ==> (tree@, final(self).draws()) == drawn_command(
                old(self).factor(),
                prob,
                old(self).draws(),
                old(out)@.len(),
            ),
            is_command(tree@),
            tree@ is Command,
            !old(self).replaying() && prob == FULL && old(out)@.len() + 5 <= MAX_TOKENS
                ==> tree@->options is Some,
            !old(self).replaying() && prob == FULL && final(out)@.len() + 4 <= MAX_TOKENS
                ==> has_every_part(tree@),
            views(final(out)@) == views(old(out)@) + symbols(tree@),
            old(out)@.is_prefix_of(final(out)@),
            lexical(old(out)@) ==> lexical(final(out)@),
            old(out)@.len() < final(out)@.len() <= MAX_TOKENS,
        decreases prob, 2int,
    {
        let ghost start = views(out@);
        let ghost len = out@.len();
        let name = self.push_rand_str(out);
        let options = self.fuzz_option_list(out, prob);
        proof {
            lemma_views_len(out@);
            assert(out@.len() == len + 1 + symbols_of(options@).len()) by {
                assert(views(out@).len() == start.len() + 1 + symbols_of(options@).len());
            }
        }
        let ghost mid = out@.len();
        let ghost mid_views = views(out@);
        let args = self.fuzz_arg_list(out, prob);
        proof {
            lemma_views_len(out@);
            assert(out@.len() == mid + symbols_of(args@).len()) by {
                assert(views(out@).len() == mid_views.len() + symbols_of(args@).len());
            }
        }
        let pipeline = self.fuzz_pipeline(out, prob);
        let ghost tree = Tree::Command {
            name: Box::new(Tree::Str(name@)),
            options: options@,
            args: args@,
            pipeline: pipeline@,
        };
        proof {
            let tail: Seq<Symbol> = match pipeline@ {
                Some(p) => seq![Symbol::Pipe] + symbols(*p),
                None => Seq::empty(),
            };
            assert(symbols(tree) == symbols(Tree::Str(name@)) + symbols_of(options@) + symbols_of(
                args@,
            ) + tail);
            assert(views(out@) =~= start + symbols(tree));
        }
        Ghost(tree)
    }

    /// Draws a word of the vocabulary and appends it as a string token.
    fn push_rand_str(&mut self, out: &mut Vec<Token<'static>>) -> (text: Ghost<Seq<char>>)
        requires
            old(out)@.len() < MAX_TOKENS,
        ensures
            final(self).factor() == old(self).factor(),
            final(self).replaying() == old(self).replaying(),
            !old(self).replaying() ==> final(self).draws() == old(self).draws(),
            old(self).replaying() ==> text@ == text_on(
                old(self).draws().words,
                old(self).draws().word,
            ) && final(self).draws() == old(self).draws().named(),
            vocabulary().contains(text@),
            views(final(out)@) == views(old(out)@) + seq![Symbol::Str(text@)],
            old(out)@.is_prefix_of(final(out)@),
            lexical(old(out)@) ==> lexical(final(out)@),
            final(out)@.len() == old(out)@.len() + 1,
    {
        let index = self.draw_index();
        push_word(out, index)
    }

    /// Draws with probability `prob` whether an option follows, and takes the
    /// step. Nothing follows where an option would not fit.
    fn fuzz_option_list(&mut self, out: &mut Vec<Token<'static>>, prob: u32) -> (tree: Ghost<
        Option<Box<Tree>>,
    >)
        requires
            old(out)@.len() <= MAX_TOKENS,
        ensures
            final(self).factor() == old(self).factor(),
            final(self).replaying() == old(self).replaying(),
            !old(self).replaying() ==> final(self).draws() == old(self).draws(),
            old(self).replaying() ==> (tree@, final(self).draws()) == drawn_options(
                old(self).factor(),
                prob,
                old(self).draws(),
                old(out)@.len(),
            ),
            tree@ matches Some(list) ==> is_option_list(*list),
            !old(self).replaying() && prob == FULL && old(out)@.len() + 4 <= MAX_TOKENS
                ==> tree@ is Some,
            tree@ is None ==> final(out)@ == old(out)@,
            views(final(out)@) == views(old(out)@) + symbols_of(tree@),
            old(out)@.is_prefix_of(final(out)@),
            lexical(old(out)@) ==> lexical(final(out)@),
            old(out)@.len() <= final(out)@.len() <= MAX_TOKENS,
        decreases prob, 1int,
    {
        let coin = self.draw_coin(prob) && out.len() <= MAX_TOKENS - 4;
        self.option_list_after(out, prob, coin)
    }

    /// Given the draw: with `coin`, appends an option (`--`, a word, `=`, a
    /// word) and goes on with the probability that follows `prob`; without it,
    /// appends nothing.
    pub fn option_list_after(
        &mut self,
        out: &mut Vec<Token<'static>>,
        prob: u32,
        coin: bool,
    ) -> (tree: Ghost<Option<Box<Tree>>>)
        requires
            old(out)@.len() <= MAX_TOKENS,
            coin ==> prob > 0 && old(out)@.len() + 4 <= MAX_TOKENS,
        ensures
            final(self).factor() == old(self).factor(),
            final(self).replaying() == old(self).replaying(),
            !old(self).replaying() ==> final(self).draws() == old(self).draws(),
            old(self).replaying() ==> (tree@, final(self).draws()) == options_after(
                old(self).factor(),
                prob,
                old(self).draws(),
                old(out)@.len(),
                coin,
            ),
            coin <==> tree@ is Some,
            !coin ==> final(out)@ == old(out)@,
            tree@ matches Some(list) ==> is_option_list(*list),
            views(final(out)@) == views(old(out)@) + symbols_of(tree@),
            old(out)@.is_prefix_of(final(out)@),
            lexical(old(out)@) ==> lexical(final(out)@),
            old(out)@.len() <= final(out)@.len() <= MAX_TOKENS,
        decreases prob, 0int,
    {
        let ghost before = out@;
        let ghost start = views(out@);
        if coin {
            proof {
                lemma_views_push(out@, Token::DashDash);
            }
            out.push(Token::DashDash);
            let ghost first = out@;
            let name = self.push_rand_str(out);
            let ghost second = out@;
            proof {
                lemma_views_push(out@, Token::Equals);
            }
            out.push(Token::Equals);
            let ghost third = out@;
            let value = self.push_rand_str(out);
            let ghost built = out@;
            proof {
                assert(before.is_prefix_of(first));
                assert(second.is_prefix_of(third));
                lemma_kept(before, first, second);
                lemma_kept(before, second, third);
                lemma_kept(before, third, built);
            }
            let next_prob = self.decay.next(prob);
            let next = self.fuzz_option_list(out, next_prob);
            let ghost option = Tree::Option {
                name: Box::new(Tree::Str(name@)),
                value: Box::new(Tree::Str(value@)),
            };
            let ghost list = Tree::List { value: Box::new(option), next: next@ };
            proof {
                assert(symbols(Tree::Str(name@)) == seq![Symbol::Str(name@)]);
                assert(symbols(Tree::Str(value@)) == seq![Symbol::Str(value@)]);
                assert(symbols(option) =~= seq![
                    Symbol::DashDash,
                    Symbol::Str(name@),
                    Symbol::Equals,
                    Symbol::Str(value@),
                ]);
                assert(symbols(list) == symbols(option) + symbols_of(next@));
                assert(views(out@) =~= start + symbols(list));
                lemma_kept(before, built, out@);
            }
            Ghost(Some(Box::new(list)))
        } else {
            proof {
                assert(views(out@) =~= start + symbols_of(None));
            }
            Ghost(None)
        }
    }

    /// Draws with probability `prob` whether an argument follows, and takes
    /// the step. Nothing follows where an argument would not fit.
    fn fuzz_arg_list(&mut self, out: &mut Vec<Token<'static>>, prob: u32) -> (tree: Ghost<
        Option<Box<Tree>>,
    >)
        requires
            old(out)@.len() <= MAX_TOKENS,
        ensures
            final(self).factor() == old(self).factor(),
            final(self).replaying() == old(self).replaying(),
            !old(self).replaying() ==> final(self).draws() == old(self).draws(),
            old(self).replaying() ==> (tree@, final(self).draws()) == drawn_args(
                old(self).factor(),
                prob,
                old(self).draws(),
                old(out)@.len(),
            ),
            tree@ matches Some(list) ==> is_arg_list(*list),
            !old(self).replaying() && prob == FULL && old(out)@.len() + 1 <= MAX_TOKENS
                ==> tree@ is Some,
            tree@ is None ==> final(out)@ == old(out)@,
            views(final(out)@) == views(old(out)@) + symbols_of(tree@),
            old(out)@.is_prefix_of(final(out)@),
            lexical(old(out)@) ==> lexical(final(out)@),
            old(out)@.len() <= final(out)@.len() <= MAX_TOKENS,
        decreases prob, 1int,
    {
        let coin = self.draw_coin(prob) && out.len() <= MAX_TOKENS - 1;
        self.arg_list_after(out, prob, coin)
    }

    /// Given the draw: with `coin`, appends a word as an argument and goes on
    /// with the probability that follows `prob`; without it, appends nothing.
    pub fn arg_list_after(
        &mut self,
        out: &mut Vec<Token<'static>>,
        prob: u32,
        coin: bool,
    ) -> (tree: Ghost<Option<Box<Tree>>>)
        requires
            old(out)@.len() <= MAX_TOKENS,
            coin ==> prob > 0 && old(out)@.len() + 1 <= MAX_TOKENS,
        ensures
            final(self).factor() == old(self).factor(),
            final(self).replaying() == old(self).replaying(),
            !old(self).replaying() ==> final(self).draws() == old(self).draws(),
            old(self).replaying() ==> (tree@, final(self).draws()) == args_after(
                old(self).factor(),
                prob,
                old(self).draws(),
                old(out)@.len(),
                coin,
            ),
            coin <==> tree@ is Some,
            !coin ==> final(out)@ == old(out)@,
            tree@ matches Some(list) ==> is_arg_list(*list),
            views(final(out)@) == views(old(out)@) + symbols_of(tree@),
            old(out)@.is_prefix_of(final(out)@),
            lexical(old(out)@) ==> lexical(final(out)@),
            old(out)@.len() <= final(out)@.len() <= MAX_TOKENS,
        decreases prob, 0int,
    {
        let ghost before = out@;
        let ghost start = views(out@);
        if coin {
            let arg = self.push_rand_str(out);
            let ghost built = out@;
            let next_prob = self.decay.next(prob);
            let next = self.fuzz_arg_list(out, next_prob);
            let ghost list = Tree::List { value: Box::new(Tree::Str(arg@)), next: next@ };
            proof {
                assert(symbols(list) == symbols(Tree::Str(arg@)) + symbols_of(next@));
                assert(views(out@) =~= start + symbols(list));
                lemma_kept(before, built, out@);
            }
            Ghost(Some(Box::new(list)))
        } else {
            proof {
                assert(views(out@) =~= start + symbols_of(None));
            }
            Ghost(None)
        }
    }

    /// Draws with probability `prob` whether a further command follows, and
    /// takes the step. Nothing follows where a `|` and a name would not fit.
    fn fuzz_pipeline(&mut self, out: &mut Vec<Token<'static>>, prob: u32) -> (tree: Ghost<
        Option<Box<Tree>>,
    >)
        requires
            old(out)@.len() <= MAX_TOKENS,
        ensures
            final(self).factor() == old(self).factor(),
            final(self).replaying() == old(self).replaying(),
            !old(self).replaying() ==> final(self).draws() == old(self).draws(),
            old(self).replaying() ==> (tree@, final(self).draws()) == drawn_pipeline(
                old(self).factor(),
                prob,
                old(self).draws(),
                old(out)@.len(),
            ),
            tree@ matches Some(next) ==> is_command(*next),
            !old(self).replaying() && prob == FULL && old(out)@.len() + 2 <= MAX_TOKENS
                ==> tree@ is Some,
            tree@ is None ==> final(out)@ == old(out)@,
            views(final(out)@) == views(old(out)@) + tail_symbols(tree@),
            old(out)@.is_prefix_of(final(out)@),
            lexical(old(out)@) ==> lexical(final(out)@),
            old(out)@.len() <= final(out)@.len() <= MAX_TOKENS,
        decreases prob, 1int,
    {
        let coin = self.draw_coin(prob) && out.len() <= MAX_TOKENS - 2;
        self.pipeline_after(out, prob, coin)
    }

    /// Given the draw: with `coin`, appends a `|` and a command that goes on
    /// with the probability that follows `prob`; without it, appends nothing.
    pub fn pipeline_after(
        &mut self,
        out: &mut Vec<Token<'static>>,
        prob: u32,
        coin: bool,
    ) -> (tree: Ghost<Option<Box<Tree>>>)
        requires
            old(out)@.len() <= MAX_TOKENS,
            coin ==> prob > 0 && old(out)@.len() + 2 <= MAX_TOKENS,
        ensures
            final(self).factor() == old(self).factor(),
            final(self).replaying() == old(self).replaying(),
            !old(self).replaying() ==> final(self).draws() == old(self).draws(),
            old(self).replaying() ==> (tree@, final(self).draws()) == pipeline_after(
                old(self).factor(),
                prob,
                old(self).draws(),
                old(out)@.len(),
                coin,
            ),
            coin <==> tree@ is Some,
            !coin ==> final(out)@ == old(out)@,
            tree@ matches Some(next) ==> is_command(*next),
            views(final(out)@) == views(old(out)@) + tail_symbols(tree@),
            old(out)@.is_prefix_of(final(out)@),
            lexical(old(out)@) ==> lexical(final(out)@),
            old(out)@.len() <= final(out)@.len() <= MAX_TOKENS,
        decreases prob, 0int,
    {
        let ghost before = out@;
        let ghost start = views(out@);
        if coin {
            proof {
                lemma_views_push(out@, Token::Pipe);
            }
            out.push(Token::Pipe);
            let ghost built = out@;
            proof {
                assert(before.is_prefix_of(built));
            }
            let next_prob = self.decay.next(prob);
            let next = self.fuzz_command(out, next_prob);
            proof {
                assert(views(out@) =~= start + (seq![Symbol::Pipe] + symbols(next@)));
                lemma_kept(before, built, out@);
            }
            Ghost(Some(Box::new(next@)))
        } else {
            proof {
                assert(views(out@) =~= start + Seq::<Symbol>::empty());
            }
            Ghost(None)
        }
    }
}

} // verus!
