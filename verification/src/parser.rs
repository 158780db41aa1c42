//! The parser capability and the small helper traits that configure
//! combinators: character predicates and value transforms.

use vstd::prelude::*;

use crate::outcome::{obeys_spec, IResult};

verus! {

/// A stateless capability mapping an input view to an [`IResult`].
///
/// The lifetime `'a` is the lifetime of the input buffer; parsers whose
/// values are sub-views of the input (such as [`crate::primitive::Tag`])
/// tie their output to it.
///
/// `spec_parse` is the parser's mathematical meaning: `Some((n, v))` when
/// the parser succeeds on `input` consuming exactly its first `n`
/// characters and yielding a value whose view is `v`, or `None` when it
/// fails.  The executable `parse` is proved to agree with it, so calling
/// the same parser twice on identical input yields identical output, and a
/// successful parse always returns a remainder that is a suffix of the
/// exact input given.
pub trait Parser<'a> where Self: Sized {
    /// The type of the parsed value.
    type Output: DeepView;

    /// Well-formedness of this parser; combinators require it of their
    /// sub-parsers.
    open spec fn wf(&self) -> bool {
        true
    }

    /// The mathematical meaning of this parser.
    spec fn spec_parse(&self, input: Seq<char>) -> Option<
        (int, <Self::Output as DeepView>::V),
    >;

    /// Runs the parser on `input`.
    fn parse(&self, input: &'a str) -> (res: IResult<&'a str, Self::Output>)
        requires
            self.wf(),
        ensures
            obeys_spec(self.spec_parse(input@), input@, res),
    ;
}

/// A decidable predicate on a single character, used to configure the
/// maximal-run recognizers.
pub trait CharPred where Self: Sized {
    /// The predicate's meaning.
    spec fn spec_test(&self, c: char) -> bool;

    /// Decides the predicate on one character.
    fn test(&self, c: char) -> (b: bool)
        ensures
            b == self.spec_test(c),
    ;
}

/// A total function from parsed values to parsed values, used by
/// [`crate::transform::Mapped`].
pub trait Transform<'a> where Self: Sized {
    /// The argument type.
    type Input: DeepView;

    /// The result type.
    type Output: DeepView;

    /// The function's meaning on views.
    spec fn spec_apply(&self, v: <Self::Input as DeepView>::V) -> <Self::Output as DeepView>::V;

    /// Applies the function.
    fn apply(&self, v: Self::Input) -> (r: Self::Output)
        ensures
            r.deep_view() == self.spec_apply(v.deep_view()),
    ;
}

/// A fallible function from parsed values to parsed values, used by
/// [`crate::transform::MapRes`].  The error value is discarded by the
/// combinator, so nothing is required of it.
pub trait TryTransform<'a> where Self: Sized {
    /// The argument type.
    type Input: DeepView;

    /// The result type on success.
    type Output: DeepView;

    /// The error type; its value is never inspected.
    type Error;

    /// The function's meaning on views: `Some` exactly on the arguments it
    /// accepts.
    spec fn spec_apply(&self, v: <Self::Input as DeepView>::V) -> Option<
        <Self::Output as DeepView>::V,
    >;

    /// Applies the function, failing exactly where the meaning is `None`.
    fn apply(&self, v: Self::Input) -> (r: Result<Self::Output, Self::Error>)
        ensures
            (match r {
                Ok(out) => self.spec_apply(v.deep_view()) == Some(out.deep_view()),
                Err(_) => self.spec_apply(v.deep_view()) is None,
            }),
    ;
}

} // verus!
