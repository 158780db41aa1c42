//! Lookahead, negation and conditional application.

use vstd::prelude::*;

use crate::outcome::IResult;
use crate::parser::Parser;

verus! {

/// Runs the inner parser; on success returns its value but rewinds the
/// remainder back to the original input, so no consumption is observable.
/// Failure propagates.
pub struct Peek<P> {
    /// The parser whose value is taken without consuming input.
    pub inner: P,
}

impl<'a, P: Parser<'a>> Parser<'a> for Peek<P> {
    type Output = P::Output;

    open spec fn wf(&self) -> bool {
        self.inner.wf()
    }

    open spec fn spec_parse(&self, input: Seq<char>) -> Option<
        (int, <P::Output as DeepView>::V),
    > {
        match self.inner.spec_parse(input) {
            Option::None => Option::None,
            Option::Some((_, v)) => Option::Some((0, v)),
        }
    }

    fn parse(&self, input: &'a str) -> (res: IResult<&'a str, P::Output>) {
        match self.inner.parse(input) {
            IResult::Error => IResult::Error,
            IResult::Done(_, v) => {
                proof {
                    assert(input@ =~= input@.subrange(0, input@.len() as int));
                }
                IResult::Done(input, v)
            },
        }
    }
}

/// Lookahead never consumes: whenever `Peek` succeeds it consumes zero
/// characters, so the remainder it returns equals the input, regardless of
/// how much the inner parser would have consumed.
pub proof fn lemma_peek_consumes_nothing<'a, P: Parser<'a>>(peek: &Peek<P>, input: Seq<char>)
    ensures
        (peek.spec_parse(input) matches Some((n, _)) ==> n == 0),
{
}

/// Negative assertion: succeeds without consuming input exactly when the
/// inner parser fails on that input, yielding the empty prefix as its
/// value; fails exactly when the inner parser succeeds.
pub struct Not<P> {
    /// The parser that must fail.
    pub inner: P,
}

impl<'a, P: Parser<'a>> Parser<'a> for Not<P> {
    type Output = &'a str;

    open spec fn wf(&self) -> bool {
        self.inner.wf()
    }

    open spec fn spec_parse(&self, input: Seq<char>) -> Option<(int, Seq<char>)> {
        match self.inner.spec_parse(input) {
            Option::None => Option::Some((0, Seq::empty())),
            Option::Some(_) => Option::None,
        }
    }

    fn parse(&self, input: &'a str) -> (res: IResult<&'a str, &'a str>) {
        match self.inner.parse(input) {
            IResult::Error => {
                let val = input.substring_char(0, 0);
                proof {
                    assert(input@ =~= input@.subrange(0, input@.len() as int));
                    assert(val@ =~= Seq::<char>::empty());
                }
                IResult::Done(input, val)
            },
            IResult::Done(_, _) => IResult::Error,
        }
    }
}

/// Conditional application: when `active` is false, succeeds immediately
/// with an absent value and no consumption; when true, runs the inner
/// parser, wrapping its value as present on success and swallowing its
/// failure into an absent value with no consumption.  Never itself fails.
pub struct Cond<P> {
    /// Whether the inner parser is applied at all.
    pub active: bool,
    /// The parser applied when `active` holds.
    pub inner: P,
}

impl<'a, P: Parser<'a>> Parser<'a> for Cond<P> {
    type Output = Option<P::Output>;

    open spec fn wf(&self) -> bool {
        self.inner.wf()
    }

    open spec fn spec_parse(&self, input: Seq<char>) -> Option<
        (int, Option<<P::Output as DeepView>::V>),
    > {
        if !self.active {
            Option::Some((0, Option::None))
        } else {
            match self.inner.spec_parse(input) {
                Option::None => Option::Some((0, Option::None)),
                Option::Some((n, v)) => Option::Some((n, Option::Some(v))),
            }
        }
    }

    fn parse(&self, input: &'a str) -> (res: IResult<&'a str, Option<P::Output>>) {
        proof {
            assert(input@ =~= input@.subrange(0, input@.len() as int));
        }
        if !self.active {
            IResult::Done(input, Option::None)
        } else {
            match self.inner.parse(input) {
                IResult::Error => IResult::Done(input, Option::None),
                IResult::Done(rem, v) => IResult::Done(rem, Option::Some(v)),
            }
        }
    }
}

} // verus!
