use comb::ChoiceOf;
use comb::DigitTest;
use comb::InputView;
use comb::LengthIs;
use comb::Outcome;
use comb::Parse;
use comb::ParserError;
use comb::ToU32;
use comb::boxed;
use comb::chain;
use comb::check;
use comb::choice;
use comb::either;
use comb::eoi;
use comb::identity;
use comb::infix;
use comb::left;
use comb::many;
use comb::map_res;
use comb::middle;
use comb::opt;
use comb::outer;
use comb::pair;
use comb::peek;
use comb::prefix;
use comb::recognize;
use comb::right;
use comb::tag;
use comb::take_until;
use comb::take_while;
use comb::trio;
use comb::value;
use comb::w;
use comb::whitespace;

fn input(s: &str) -> InputView {
    InputView::from_text(s)
}

fn text_of(v: &InputView) -> String {
    v.to_chars().into_iter().collect()
}

fn success<T>(o: Outcome<T>) -> (String, T) {
    match o {
        Outcome::Success(rem, v) => (text_of(&rem), v),
        Outcome::Failure(_, _) => panic!("expected success"),
    }
}

fn failure<T>(o: Outcome<T>) -> (String, ParserError) {
    match o {
        Outcome::Success(_, _) => panic!("expected failure"),
        Outcome::Failure(loc, k) => (text_of(&loc), k),
    }
}

#[test]
fn tag_matches_prefix_and_rejects_others() {
    let parser = tag("function");
    let (rem, v) = success(parser.parse(&input("function hello")));
    assert_eq!(rem, " hello");
    assert_eq!(text_of(&v), "function");
    assert_eq!(
        failure(parser.parse(&input("Something else"))),
        ("Something else".to_string(), ParserError::Tag)
    );
    assert_eq!(failure(parser.parse(&input(""))), ("".to_string(), ParserError::Tag));
}

#[test]
fn value_substitutes_a_fixed_value() {
    let parser = value(tag("Hello, world!"), 7u32);
    let (rem, v) = success(parser.parse(&input("Hello, world!")));
    assert_eq!(rem, "");
    assert_eq!(v, 7);
    assert_eq!(
        failure(parser.parse(&input("Bonjour le monde"))),
        ("Bonjour le monde".to_string(), ParserError::Tag)
    );
}

#[test]
fn map_identity_behaves_like_the_inner_parser() {
    let plain = tag("ab");
    let mapped = comb::transform::map(tag("ab"), identity::<InputView>());
    let (rem1, v1) = success(plain.parse(&input("abc")));
    let (rem2, v2) = success(mapped.parse(&input("abc")));
    assert_eq!(rem1, rem2);
    assert_eq!(text_of(&v1), text_of(&v2));
    assert_eq!(failure(plain.parse(&input("xyz"))), failure(mapped.parse(&input("xyz"))));
    assert_eq!(failure(plain.parse(&input(""))), failure(mapped.parse(&input(""))));
}

#[test]
fn map_res_reads_digits_into_a_number() {
    let parser = map_res(take_while(DigitTest), ToU32);
    let (rem, v) = success(parser.parse(&input("123")));
    assert_eq!(rem, "");
    assert_eq!(v, 123u32);
    assert_eq!(failure(parser.parse(&input("abc"))), ("abc".to_string(), ParserError::TakeWhile));
}

#[test]
fn map_res_rejects_at_the_post_inner_position() {
    let parser = map_res(take_while(DigitTest), ToU32);
    let (loc, k) = failure(parser.parse(&input("99999999999x")));
    assert_eq!(k, ParserError::MapRes);
    assert_eq!(loc, "x");
}

#[test]
fn opt_wraps_success_and_absorbs_failure() {
    let parser = opt(tag("1"));
    let (rem, v) = success(parser.parse(&input("1")));
    assert_eq!(rem, "");
    assert!(v.is_some());
    let (rem, v) = success(parser.parse(&input("2")));
    assert_eq!(rem, "2");
    assert!(v.is_none());
}

#[test]
fn pair_needs_both_parsers_to_match() {
    let parser = pair(tag("hello "), tag("world"));
    let (rem, (a, b)) = success(parser.parse(&input("hello world")));
    assert_eq!(rem, "");
    assert_eq!(text_of(&a), "hello ");
    assert_eq!(text_of(&b), "world");
    assert_eq!(
        failure(parser.parse(&input("oh noes"))),
        ("oh noes".to_string(), ParserError::Tag)
    );
}

#[test]
fn trio_matches_three_in_order() {
    let parser = trio(tag("ein "), tag("zwei "), tag("drei"));
    let (rem, (a, b, c)) = success(parser.parse(&input("ein zwei drei")));
    assert_eq!(rem, "");
    assert_eq!(text_of(&a), "ein ");
    assert_eq!(text_of(&b), "zwei ");
    assert_eq!(text_of(&c), "drei");
    assert_eq!(
        failure(parser.parse(&input("one two three"))),
        ("one two three".to_string(), ParserError::Tag)
    );
}

#[test]
fn right_keeps_the_second_value_and_reports_advanced_failures() {
    let parser = right(tag("not me "), tag("me"));
    let (rem, v) = success(parser.parse(&input("not me me")));
    assert_eq!(rem, "");
    assert_eq!(text_of(&v), "me");
    assert_eq!(failure(parser.parse(&input("not me you"))), ("you".to_string(), ParserError::Tag));
}

#[test]
fn left_keeps_the_first_value() {
    let parser = left(tag("me"), tag("you"));
    let (rem, v) = success(parser.parse(&input("meyou")));
    assert_eq!(rem, "");
    assert_eq!(text_of(&v), "me");
    assert_eq!(failure(parser.parse(&input("youme"))), ("youme".to_string(), ParserError::Tag));
}

#[test]
fn middle_keeps_the_bracketed_value() {
    let parser = middle(tag("("), tag("secret"), tag(")"));
    let (rem, v) = success(parser.parse(&input("(secret)")));
    assert_eq!(rem, "");
    assert_eq!(text_of(&v), "secret");
    assert_eq!(failure(parser.parse(&input("secret"))), ("secret".to_string(), ParserError::Tag));
}

#[test]
fn outer_keeps_the_bookends() {
    let parser = outer(tag("a"), tag(","), tag("b"));
    let (rem, (a, b)) = success(parser.parse(&input("a,b")));
    assert_eq!(rem, "");
    assert_eq!(text_of(&a), "a");
    assert_eq!(text_of(&b), "b");
    assert_eq!(failure(parser.parse(&input("a+b"))), ("+b".to_string(), ParserError::Tag));
}

#[test]
fn either_takes_the_first_success() {
    let parser = either(tag("a"), tag("b"));
    let (rem, v) = success(parser.parse(&input("a")));
    assert_eq!(rem, "");
    assert_eq!(text_of(&v), "a");
    let (rem, v) = success(parser.parse(&input("b")));
    assert_eq!(rem, "");
    assert_eq!(text_of(&v), "b");
    assert_eq!(failure(parser.parse(&input("c"))), ("c".to_string(), ParserError::Tag));
}

#[test]
fn choice_commits_to_the_first_match() {
    let parser: ChoiceOf<_> = choice(vec![tag("1"), tag("2"), tag("3")]);
    for s in ["1", "2", "3"] {
        let (rem, v) = success(parser.parse(&input(s)));
        assert_eq!(rem, "");
        assert_eq!(text_of(&v), s);
    }
    assert_eq!(failure(parser.parse(&input("4"))), ("4".to_string(), ParserError::Choice));
}

#[test]
fn take_while_needs_at_least_one_match() {
    let parser = take_while(DigitTest);
    let (rem, v) = success(parser.parse(&input("123")));
    assert_eq!(rem, "");
    assert_eq!(text_of(&v), "123");
    let (rem, v) = success(parser.parse(&input("456x")));
    assert_eq!(rem, "x");
    assert_eq!(text_of(&v), "456");
    assert_eq!(failure(parser.parse(&input("abc"))), ("abc".to_string(), ParserError::TakeWhile));
}

#[test]
fn take_until_stops_at_the_occurrence() {
    let parser = take_until(" combo breaker");
    let (rem, v) = success(parser.parse(&input("123 combo breaker")));
    assert_eq!(rem, " combo breaker");
    assert_eq!(text_of(&v), "123");
}

#[test]
fn take_until_without_occurrence_consumes_nothing() {
    let parser = take_until(" combo breaker");
    let (rem, v) = success(parser.parse(&input("456")));
    assert_eq!(rem, "456");
    assert_eq!(text_of(&v), "");
}

#[test]
fn peek_looks_ahead_without_consuming() {
    let parser = peek(tag("The future"));
    let (rem, v) = success(parser.parse(&input("The future")));
    assert_eq!(rem, "The future");
    assert_eq!(text_of(&v), "The future");
    assert_eq!(
        failure(parser.parse(&input("Not the future"))),
        ("Not the future".to_string(), ParserError::Tag)
    );
}

#[test]
fn recognize_returns_the_consumed_span() {
    let parser = recognize(pair(tag("badger"), tag("badger")));
    let (rem, v) = success(parser.parse(&input("badgerbadger")));
    assert_eq!(rem, "");
    assert_eq!(text_of(&v), "badgerbadger");
    assert_eq!(
        failure(parser.parse(&input("mushroom"))),
        ("mushroom".to_string(), ParserError::Tag)
    );
}

#[test]
fn check_gates_on_the_value() {
    let parser = check(take_until("-"), LengthIs { n: 3 });
    let (rem, v) = success(parser.parse(&input("yes-")));
    assert_eq!(rem, "-");
    assert_eq!(text_of(&v), "yes");
    assert_eq!(failure(parser.parse(&input("no-"))), ("no-".to_string(), ParserError::Check));
}

#[test]
fn many_collects_consecutive_matches_and_never_fails() {
    let parser = many(tag("badger"));
    let (rem, vs) = success(parser.parse(&input("badgerbadgerbadger")));
    assert_eq!(rem, "");
    assert_eq!(vs.len(), 3);
    for v in &vs {
        assert_eq!(text_of(v), "badger");
    }
    let (rem, vs) = success(parser.parse(&input("not badger")));
    assert_eq!(rem, "not badger");
    assert!(vs.is_empty());
}

#[test]
fn chain_links_elements_with_separators() {
    let parser = chain(tag(","), tag("1"));
    let (rem, vs) = success(parser.parse(&input("1,1,1")));
    assert_eq!(rem, "");
    assert_eq!(vs.len(), 3);
    for v in &vs {
        assert_eq!(text_of(v), "1");
    }
    let (rem, vs) = success(parser.parse(&input("1,1,1,")));
    assert_eq!(rem, "");
    assert_eq!(vs.len(), 3);
    let (rem, vs) = success(parser.parse(&input("1")));
    assert_eq!(rem, "");
    assert_eq!(vs.len(), 1);
    let (rem, vs) = success(parser.parse(&input("2")));
    assert_eq!(rem, "2");
    assert!(vs.is_empty());
}

#[test]
fn infix_keeps_operators_and_operands() {
    let parser = infix(take_while(DigitTest), tag("+"));
    let (rem, (first, pairs)) = success(parser.parse(&input("1+1")));
    assert_eq!(rem, "");
    assert_eq!(text_of(&first), "1");
    assert_eq!(pairs.len(), 1);
    assert_eq!(text_of(&pairs[0].0), "+");
    assert_eq!(text_of(&pairs[0].1), "1");
    let (rem, (first, pairs)) = success(parser.parse(&input("1+1+2")));
    assert_eq!(rem, "");
    assert_eq!(text_of(&first), "1");
    assert_eq!(pairs.len(), 2);
    assert_eq!(text_of(&pairs[1].1), "2");
}

#[test]
fn prefix_collects_leading_operators() {
    let parser = prefix(tag("!"), take_while(DigitTest));
    let (rem, (ops, v)) = success(parser.parse(&input("!!!1")));
    assert_eq!(rem, "");
    assert_eq!(ops.len(), 3);
    for op in &ops {
        assert_eq!(text_of(op), "!");
    }
    assert_eq!(text_of(&v), "1");
}

#[test]
fn boxed_wraps_the_value() {
    let parser = boxed(tag("thing"));
    let (rem, v) = success(parser.parse(&input("thing")));
    assert_eq!(rem, "");
    assert_eq!(text_of(&v), "thing");
    assert_eq!(
        failure(parser.parse(&input("not thing"))),
        ("not thing".to_string(), ParserError::Tag)
    );
}

#[test]
fn eoi_accepts_only_empty_input() {
    let parser = eoi();
    let (rem, v) = success(parser.parse(&input("")));
    assert_eq!(rem, "");
    assert_eq!(text_of(&v), "");
    assert_eq!(
        failure(parser.parse(&input("not the end"))),
        ("not the end".to_string(), ParserError::Eof)
    );
}

#[test]
fn whitespace_eats_the_leading_run() {
    let parser1 = right(whitespace(), tag("hello"));
    let parser2 = left(tag("hello"), whitespace());
    let (rem, v) = success(parser1.parse(&input("    hello")));
    assert_eq!(rem, "");
    assert_eq!(text_of(&v), "hello");
    let (rem, v) = success(parser2.parse(&input("hello    ")));
    assert_eq!(rem, "");
    assert_eq!(text_of(&v), "hello");
    let (rem, v) = success(whitespace().parse(&input(" \t\r\n ")));
    assert_eq!(rem, "");
    assert_eq!(text_of(&v), " \t\r\n ");
}

#[test]
fn w_trims_leading_whitespace() {
    let parser = w(tag("tag"));
    let (rem, v) = success(parser.parse(&input("    tag")));
    assert_eq!(rem, "");
    assert_eq!(text_of(&v), "tag");
}

#[test]
fn input_views_compare_by_content() {
    let a = input("same text");
    let b = input("same text");
    let c = input("other");
    assert!(a.content_eq(&b));
    assert!(!a.content_eq(&c));
    assert_eq!(a.to_chars(), "same text".chars().collect::<Vec<char>>());
}

#[test]
fn many_stops_at_a_non_consuming_success() {
    let parser = many(take_until("@"));
    let (rem, vs) = success(parser.parse(&input("a@b")));
    assert_eq!(rem, "@b");
    assert_eq!(vs.len(), 1);
    assert_eq!(text_of(&vs[0]), "a");
}

#[test]
fn chain_consumes_a_lone_trailing_separator() {
    let parser = chain(tag(","), tag("1"));
    let (rem, vs) = success(parser.parse(&input("1,,")));
    assert_eq!(rem, ",");
    assert_eq!(vs.len(), 1);
}

#[test]
fn input_views_can_wrap_a_character_buffer() {
    let v = InputView::from_chars(vec!['h', 'i']);
    let (rem, m) = success(tag("hi").parse(&v));
    assert_eq!(rem, "");
    assert_eq!(text_of(&m), "hi");
}
