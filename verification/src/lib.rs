//! A parser-combinator library over character input, with verified behaviour.
//!
//! Parsers are values implementing the [`parse::Parse`] trait: each one turns
//! an [`input::InputView`] into an [`outcome::Outcome`], and its behaviour is
//! pinned down by a specification-level function of the input text alone.
//! Combinators consume parser values and return new parser values, so grammars
//! are assembled bottom-up and then run against arbitrarily many inputs.

pub mod alternate;
pub mod decimal;
pub mod input;
pub mod laws;
pub mod outcome;
pub mod parse;
pub mod primitive;
pub mod repeat;
pub mod structural;
pub mod transform;

pub use crate::alternate::choice;
pub use crate::alternate::either;
pub use crate::alternate::ChoiceOf;
pub use crate::alternate::EitherOf;
pub use crate::decimal::decimal;
pub use crate::decimal::decimal_spec;
pub use crate::decimal::lemma_decimal_spec;
pub use crate::decimal::DecimalForm;
pub use crate::input::InputView;
pub use crate::laws::lemma_chain_never_fails;
pub use crate::laws::lemma_choice_first_match;
pub use crate::laws::lemma_choice_no_match;
pub use crate::laws::lemma_many_never_fails;
pub use crate::laws::lemma_many_step;
pub use crate::laws::lemma_map_identity;
pub use crate::laws::lemma_opt_never_fails;
pub use crate::laws::lemma_recognize_span;
pub use crate::laws::lemma_remaining_is_suffix;
pub use crate::laws::lemma_tag_match;
pub use crate::laws::lemma_tag_reject;
pub use crate::laws::lemma_take_until_never_fails;
pub use crate::laws::lemma_whitespace_never_fails;
pub use crate::laws::starts_with;
pub use crate::outcome::Outcome;
pub use crate::outcome::ParserError;
pub use crate::outcome::SpecOutcome;
pub use crate::parse::Accept;
pub use crate::parse::CharTest;
pub use crate::parse::Parse;
pub use crate::parse::SpecParse;
pub use crate::parse::Transform;
pub use crate::parse::TryTransform;
pub use crate::primitive::eoi;
pub use crate::primitive::tag;
pub use crate::primitive::take_until;
pub use crate::primitive::take_while;
pub use crate::primitive::whitespace;
pub use crate::primitive::DigitTest;
pub use crate::primitive::Eoi;
pub use crate::primitive::Tag;
pub use crate::primitive::TakeUntil;
pub use crate::primitive::TakeWhile;
pub use crate::primitive::Whitespace;
pub use crate::primitive::WsTest;
pub use crate::repeat::chain;
pub use crate::repeat::infix;
pub use crate::repeat::many;
pub use crate::repeat::prefix;
pub use crate::repeat::w;
pub use crate::repeat::ChainOf;
pub use crate::repeat::InfixOf;
pub use crate::repeat::ManyOf;
pub use crate::repeat::PrefixOf;
pub use crate::structural::left;
pub use crate::structural::middle;
pub use crate::structural::outer;
pub use crate::structural::pair;
pub use crate::structural::right;
pub use crate::structural::trio;
pub use crate::structural::LeftOf;
pub use crate::structural::MiddleOf;
pub use crate::structural::OuterOf;
pub use crate::structural::PairOf;
pub use crate::structural::RightOf;
pub use crate::structural::TrioOf;
pub use crate::transform::boxed;
pub use crate::transform::check;
pub use crate::transform::identity;
pub use crate::transform::map_res;
pub use crate::transform::opt;
pub use crate::transform::peek;
pub use crate::transform::recognize;
pub use crate::transform::value;
pub use crate::transform::Boxed;
pub use crate::transform::Checked;
pub use crate::transform::Identity;
pub use crate::transform::LengthIs;
pub use crate::transform::Mapped;
pub use crate::transform::MappedRes;
pub use crate::transform::Optional;
pub use crate::transform::Peeked;
pub use crate::transform::Recognized;
pub use crate::transform::ToU32;
pub use crate::transform::Value;
