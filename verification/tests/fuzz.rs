use pipeline_ast::arena::Arena;
use pipeline_ast::boxes::BoxBuilder;
use pipeline_ast::fuzz::{word, Fuzzer, FULL, MAX_TOKENS, WORDS};
use pipeline_ast::interface::{Parser, Scanner, Token, Traverse};

fn generated(numerator: u32, denominator: u32) -> Vec<Token<'static>> {
    Fuzzer::new(numerator, denominator).fuzz()
}

fn str_texts(tokens: &[Token<'static>]) -> Vec<String> {
    let mut texts = Vec::new();
    for t in tokens {
        if let Token::Str(s) = t {
            texts.push(s.to_string());
        }
    }
    texts
}

#[test]
fn generated_input_parses_with_both_builders() {
    for (numerator, denominator) in [(1, 2), (9, 10), (99, 100), (1, 1000), (9999, 10000)] {
        for _ in 0..20 {
            let tokens = generated(numerator, denominator);
            let owned = Parser { scanner: Scanner::new(tokens.clone()), builder: BoxBuilder }.parse();
            let arena = Parser { scanner: Scanner::new(tokens), builder: Arena::new() }.parse();
            assert!(owned.is_ok());
            assert!(arena.is_ok());
        }
    }
}

#[test]
fn both_representations_traverse_generated_input_alike() {
    for _ in 0..50 {
        let tokens = generated(95, 100);
        let expected = str_texts(&tokens);
        let owned = Parser { scanner: Scanner::new(tokens.clone()), builder: BoxBuilder }
            .parse()
            .unwrap();
        let arena = Parser { scanner: Scanner::new(tokens), builder: Arena::new() }.parse().unwrap();
        let from_owned = owned.traverse(|s: &str| s.to_string());
        let from_arena = arena.traverse(|s: &str| s.to_string());
        assert_eq!(from_owned, from_arena);
        assert_eq!(from_owned, expected);
    }
}

#[test]
fn generated_strings_come_from_the_vocabulary() {
    let words = ["hello", "hi", "abc", "meow", "hehehehehe"];
    for _ in 0..50 {
        for t in generated(3, 4) {
            if let Token::Str(s) = t {
                assert!(words.contains(&s));
            }
        }
    }
}

#[test]
fn first_command_has_every_part() {
    // The first decisions are made with probability 1.
    for _ in 0..50 {
        let tokens = generated(1, 1000);
        assert!(tokens.len() >= 8);
        assert!(matches!(tokens[0], Token::Str(_)));
        assert_eq!(tokens[1], Token::DashDash);
        assert!(matches!(tokens[2], Token::Str(_)));
        assert_eq!(tokens[3], Token::Equals);
        assert!(matches!(tokens[4], Token::Str(_)));
        assert!(tokens.contains(&Token::Pipe));
    }
}

#[test]
fn vocabulary_has_five_words() {
    assert_eq!(WORDS, 5);
    assert_eq!(word(0), "hello");
    assert_eq!(word(1), "hi");
    assert_eq!(word(2), "abc");
    assert_eq!(word(3), "meow");
    assert_eq!(word(4), "hehehehehe");
}

#[test]
fn equal_seeds_give_equal_sentences() {
    for seed in [0u64, 1, 2, 42, 0xdead_beef, u64::MAX] {
        let first = Fuzzer::from_seed(99, 100, seed).fuzz();
        let second = Fuzzer::from_seed(99, 100, seed).fuzz();
        assert_eq!(first, second);
    }
}

#[test]
fn generators_do_not_share_their_draws() {
    // Drawing from one generator in between does not disturb another.
    let alone = Fuzzer::from_seed(9, 10, 7).fuzz();
    let first = Fuzzer::from_seed(9, 10, 7);
    let other = Fuzzer::from_seed(9, 10, 8);
    let _ = other.fuzz();
    assert_eq!(first.fuzz(), alone);
}

#[test]
fn different_seeds_give_different_sentences() {
    let mut distinct = Vec::new();
    for seed in 0..20u64 {
        let tokens = Fuzzer::from_seed(99, 100, seed).fuzz();
        if !distinct.contains(&tokens) {
            distinct.push(tokens);
        }
    }
    assert!(distinct.len() > 1);
}

#[test]
fn equal_factors_generate_alike() {
    // The probability decays by the factor itself, whatever fraction spells it.
    for seed in 0..10u64 {
        let halves = Fuzzer::from_seed(1, 2, seed).fuzz();
        let quarters = Fuzzer::from_seed(2, 4, seed).fuzz();
        let many = Fuzzer::from_seed(500_000, 1_000_000, seed).fuzz();
        assert_eq!(halves, quarters);
        assert_eq!(halves, many);
    }
}

#[test]
fn seeded_input_parses_with_both_builders() {
    for seed in 0..20u64 {
        let tokens = Fuzzer::from_seed(9999, 10000, seed).fuzz();
        assert!(tokens.len() <= MAX_TOKENS);
        let owned = Parser { scanner: Scanner::new(tokens.clone()), builder: BoxBuilder }.parse();
        let arena = Parser { scanner: Scanner::new(tokens), builder: Arena::new() }.parse();
        assert!(owned.is_ok());
        assert!(arena.is_ok());
    }
}

#[test]
fn small_factor_decays_beyond_its_denominator() {
    // With the factor 1/2 the probabilities are 1, 1/2, 1/4 and so on: among many
    // sentences some have three options or more.
    let mut longest = 0;
    for seed in 0..500u64 {
        let tokens = Fuzzer::from_seed(1, 2, seed).fuzz();
        let mut options = 0;
        let mut at = 1;
        while at < tokens.len() && tokens[at] == Token::DashDash {
            options += 1;
            at += 4;
        }
        if options > longest {
            longest = options;
        }
    }
    assert!(longest >= 3);
}

#[test]
fn sentences_stay_below_the_limit() {
    assert_eq!(MAX_TOKENS, 1_000_000);
    for seed in 0..5u64 {
        assert!(Fuzzer::from_seed(999, 1000, seed).fuzz().len() <= MAX_TOKENS);
    }
}

#[test]
fn steps_do_what_the_coin_says() {
    let mut fuzzer = Fuzzer::from_seed(1, 2, 3);
    let mut out = vec![Token::Str("cmd")];

    // Without the coin nothing is added, whatever the probability.
    let _ = fuzzer.option_list_after(&mut out, FULL, false);
    let _ = fuzzer.arg_list_after(&mut out, FULL, false);
    let _ = fuzzer.pipeline_after(&mut out, FULL, false);
    assert_eq!(out, vec![Token::Str("cmd")]);

    // With it an option is added, also at the smallest probability, after which
    // no further one can follow.
    let _ = fuzzer.option_list_after(&mut out, 1, true);
    assert_eq!(out.len(), 5);
    assert_eq!(out[1], Token::DashDash);
    assert!(matches!(out[2], Token::Str(_)));
    assert_eq!(out[3], Token::Equals);
    assert!(matches!(out[4], Token::Str(_)));

    let _ = fuzzer.arg_list_after(&mut out, 1, true);
    assert_eq!(out.len(), 6);
    assert!(matches!(out[5], Token::Str(_)));

    // A further command has a name, and nothing else at probability 0.
    let _ = fuzzer.pipeline_after(&mut out, 1, true);
    assert_eq!(out.len(), 8);
    assert_eq!(out[6], Token::Pipe);
    assert!(matches!(out[7], Token::Str(_)));

    let parsed = Parser { scanner: Scanner::new(out), builder: BoxBuilder }.parse();
    assert!(parsed.is_ok());
}

fn replayed(
    numerator: u32,
    denominator: u32,
    coins: Vec<bool>,
    words: Vec<usize>,
) -> Vec<Token<'static>> {
    Fuzzer::from_draws(numerator, denominator, coins, words).fuzz()
}

#[test]
fn no_draws_give_a_single_name() {
    assert_eq!(replayed(1, 2, vec![], vec![]), vec![Token::Str("hello")]);
    assert_eq!(replayed(1, 2, vec![false, false, false], vec![3]), vec![Token::Str("meow")]);
}

#[test]
fn given_draws_decide_every_part() {
    // name; option: yes, further option: no; argument: yes, further: no; pipe: no
    let tokens = replayed(1, 2, vec![true, false, true, false, false], vec![1, 2, 3, 4]);
    assert_eq!(
        tokens,
        vec![
            Token::Str("hi"),
            Token::DashDash,
            Token::Str("abc"),
            Token::Equals,
            Token::Str("meow"),
            Token::Str("hehehehehe"),
        ]
    );
    // option: no; argument: no; pipe: yes; then nothing more
    let tokens = replayed(1, 2, vec![false, false, true, false, false, false], vec![0, 1]);
    assert_eq!(tokens, vec![Token::Str("hello"), Token::Pipe, Token::Str("hi")]);
}

#[test]
fn a_number_that_names_no_word_gives_the_first() {
    assert_eq!(replayed(1, 2, vec![], vec![99]), vec![Token::Str("hello")]);
    assert_eq!(
        replayed(1, 2, vec![false, true], vec![4, 5]),
        vec![Token::Str("hehehehehe"), Token::Str("hello")]
    );
}

#[test]
fn equal_draws_give_equal_sentences() {
    let coins = vec![true, true, false, true, false, true, false, false, false];
    let words = vec![4, 3, 2, 1, 0, 1, 2];
    let first = replayed(3, 4, coins.clone(), words.clone());
    let second = replayed(3, 4, coins.clone(), words.clone());
    assert_eq!(first, second);
    // The factor plays no part while the probability stays above zero.
    assert_eq!(replayed(1, 2, coins, words), first);
}

#[test]
fn probability_decays_to_zero_under_willing_coins() {
    // The factor 1 / FULL leaves the probabilities 1, 1 / FULL and 0: two options and
    // two arguments for the first command, one of each for the second, none for the
    // third, after which no command follows.
    let tokens = replayed(1, FULL, vec![true; 100], vec![]);
    let name = Token::Str("hello");
    let mut expected = vec![name];
    for _ in 0..2 {
        expected.extend([Token::DashDash, name, Token::Equals, name]);
    }
    expected.extend([name, name, Token::Pipe, name]);
    expected.extend([Token::DashDash, name, Token::Equals, name]);
    expected.extend([name, Token::Pipe, name]);
    assert_eq!(tokens, expected);
    assert_eq!(tokens.len(), 20);
}

#[test]
fn replayed_sentences_parse() {
    let tokens = replayed(9, 10, vec![true, true, true, false, true, false, true, true], vec![1, 2]);
    let owned = Parser { scanner: Scanner::new(tokens.clone()), builder: BoxBuilder }.parse();
    let arena = Parser { scanner: Scanner::new(tokens), builder: Arena::new() }.parse();
    assert!(owned.is_ok());
    assert!(arena.is_ok());
}
