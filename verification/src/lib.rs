//! A small parser-combinator library over in-memory string input.
//!
//! A parser is a value implementing [`Parser`]: it takes a borrowed input
//! view (`&str`), consumes a prefix of it, and returns an [`IResult`] holding
//! the unconsumed remainder (a suffix view of the same buffer) together with
//! the parsed value, or a payload-free failure.  Combinators build new
//! parsers out of existing ones: sequencing, ordered choice, repetition,
//! transformation, lookahead, negation, conditional application, and
//! value-based dispatch.
//!
//! Every parser carries a mathematical description (`spec_parse`) of what it
//! consumes and what it yields, and every `parse` implementation is proved to
//! agree with that description.  In particular, a successful parse always
//! returns a remainder that is a suffix of the exact input it was given.
//!
//! Structured values are assembled by chaining the sequencing combinators
//! ([`sequence::Pair`], [`sequence::Preceded`], [`sequence::Terminated`],
//! [`sequence::Delimited`]) and mapping the collected tuple through a
//! [`parser::Transform`].

pub mod branch;
pub mod lookahead;
pub mod outcome;
pub mod parser;
pub mod primitive;
pub mod repeat;
pub mod sequence;
pub mod transform;

pub use outcome::IResult;
pub use parser::Parser;
