//! Sequencing combinators: run parsers strictly left to right over
//! successively shorter remainders, failing as soon as any component fails.

use vstd::prelude::*;

use crate::outcome::IResult;
use crate::parser::Parser;

verus! {

/// Runs `first` then `second`; the value is the ordered pair of both
/// values.  Any single failure fails the whole chain, discarding all
/// partial progress.
pub struct Pair<P1, P2> {
    /// The parser run first.
    pub first: P1,
    /// The parser run on the first parser's remainder.
    pub second: P2,
}

impl<'a, P1: Parser<'a>, P2: Parser<'a>> Parser<'a> for Pair<P1, P2> {
    type Output = (P1::Output, P2::Output);

    open spec fn wf(&self) -> bool {
        self.first.wf() && self.second.wf()
    }

    open spec fn spec_parse(&self, input: Seq<char>) -> Option<
        (int, (<P1::Output as DeepView>::V, <P2::Output as DeepView>::V)),
    > {
        match self.first.spec_parse(input) {
            Option::None => Option::None,
            Option::Some((n1, v1)) => if !(0 <= n1 <= input.len()) {
                Option::None
            } else {
                match self.second.spec_parse(input.skip(n1)) {
                    Option::None => Option::None,
                    Option::Some((n2, v2)) => Option::Some((n1 + n2, (v1, v2))),
                }
            },
        }
    }

    fn parse(&self, input: &'a str) -> (res: IResult<&'a str, (P1::Output, P2::Output)>) {
        match self.first.parse(input) {
            IResult::Error => IResult::Error,
            IResult::Done(rem1, v1) => {
                proof {
                    assert(input@.skip(input@.len() - rem1@.len()) =~= rem1@);
                }
                match self.second.parse(rem1) {
                    IResult::Error => IResult::Error,
                    IResult::Done(rem2, v2) => {
                        proof {
                            assert(rem2@ =~= input@.subrange(
                                input@.len() - rem2@.len(),
                                input@.len() as int,
                            ));
                        }
                        IResult::Done(rem2, (v1, v2))
                    },
                }
            },
        }
    }
}

/// Runs three parsers in order; the value is the ordered triple of their
/// values.
pub struct Triple<P1, P2, P3> {
    /// The parser run first.
    pub first: P1,
    /// The parser run second.
    pub second: P2,
    /// The parser run third.
    pub third: P3,
}

impl<'a, P1: Parser<'a>, P2: Parser<'a>, P3: Parser<'a>> Parser<'a> for Triple<P1, P2, P3> {
    type Output = (P1::Output, P2::Output, P3::Output);

    open spec fn wf(&self) -> bool {
        self.first.wf() && self.second.wf() && self.third.wf()
    }

    open spec fn spec_parse(&self, input: Seq<char>) -> Option<
        (
            int,
            (
                <P1::Output as DeepView>::V,
                <P2::Output as DeepView>::V,
                <P3::Output as DeepView>::V,
            ),
        ),
    > {
        match self.first.spec_parse(input) {
            Option::None => Option::None,
            Option::Some((n1, v1)) => if !(0 <= n1 <= input.len()) {
                Option::None
            } else {
                match self.second.spec_parse(input.skip(n1)) {
                    Option::None => Option::None,
                    Option::Some((n2, v2)) => if !(0 <= n2 <= input.len() - n1) {
                        Option::None
                    } else {
                        match self.third.spec_parse(input.skip(n1 + n2)) {
                            Option::None => Option::None,
                            Option::Some((n3, v3)) => Option::Some((n1 + n2 + n3, (v1, v2, v3))),
                        }
                    },
                }
            },
        }
    }

    fn parse(&self, input: &'a str) -> (res: IResult<
        &'a str,
        (P1::Output, P2::Output, P3::Output),
    >) {
        match self.first.parse(input) {
            IResult::Error => IResult::Error,
            IResult::Done(rem1, v1) => {
                proof {
                    assert(input@.skip(input@.len() - rem1@.len()) =~= rem1@);
                }
                match self.second.parse(rem1) {
                    IResult::Error => IResult::Error,
                    IResult::Done(rem2, v2) => {
                        proof {
                            assert(input@.skip(input@.len() - rem2@.len()) =~= rem2@);
                        }
                        match self.third.parse(rem2) {
                            IResult::Error => IResult::Error,
                            IResult::Done(rem3, v3) => {
                                proof {
                                    assert(rem3@ =~= input@.subrange(
                                        input@.len() - rem3@.len(),
                                        input@.len() as int,
                                    ));
                                }
                                IResult::Done(rem3, (v1, v2, v3))
                            },
                        }
                    },
                }
            },
        }
    }
}

/// Runs `prefix` then `body`, keeping only the body's value.
pub struct Preceded<P1, P2> {
    /// The parser whose value is discarded.
    pub prefix: P1,
    /// The parser whose value is kept.
    pub body: P2,
}

impl<'a, P1: Parser<'a>, P2: Parser<'a>> Parser<'a> for Preceded<P1, P2> {
    type Output = P2::Output;

    open spec fn wf(&self) -> bool {
        self.prefix.wf() && self.body.wf()
    }

    open spec fn spec_parse(&self, input: Seq<char>) -> Option<
        (int, <P2::Output as DeepView>::V),
    > {
        match self.prefix.spec_parse(input) {
            Option::None => Option::None,
            Option::Some((n1, _)) => if !(0 <= n1 <= input.len()) {
                Option::None
            } else {
                match self.body.spec_parse(input.skip(n1)) {
                    Option::None => Option::None,
                    Option::Some((n2, v2)) => Option::Some((n1 + n2, v2)),
                }
            },
        }
    }

    fn parse(&self, input: &'a str) -> (res: IResult<&'a str, P2::Output>) {
        match self.prefix.parse(input) {
            IResult::Error => IResult::Error,
            IResult::Done(rem1, _) => {
                proof {
                    assert(input@.skip(input@.len() - rem1@.len()) =~= rem1@);
                }
                match self.body.parse(rem1) {
                    IResult::Error => IResult::Error,
                    IResult::Done(rem2, v2) => {
                        proof {
                            assert(rem2@ =~= input@.subrange(
                                input@.len() - rem2@.len(),
                                input@.len() as int,
                            ));
                        }
                        IResult::Done(rem2, v2)
                    },
                }
            },
        }
    }
}

/// Runs `body` then `suffix`, keeping only the body's value.
pub struct Terminated<P1, P2> {
    /// The parser whose value is kept.
    pub body: P1,
    /// The parser whose value is discarded.
    pub suffix: P2,
}

impl<'a, P1: Parser<'a>, P2: Parser<'a>> Parser<'a> for Terminated<P1, P2> {
    type Output = P1::Output;

    open spec fn wf(&self) -> bool {
        self.body.wf() && self.suffix.wf()
    }

    open spec fn spec_parse(&self, input: Seq<char>) -> Option<
        (int, <P1::Output as DeepView>::V),
    > {
        match self.body.spec_parse(input) {
            Option::None => Option::None,
            Option::Some((n1, v1)) => if !(0 <= n1 <= input.len()) {
                Option::None
            } else {
                match self.suffix.spec_parse(input.skip(n1)) {
                    Option::None => Option::None,
                    Option::Some((n2, _)) => Option::Some((n1 + n2, v1)),
                }
            },
        }
    }

    fn parse(&self, input: &'a str) -> (res: IResult<&'a str, P1::Output>) {
        match self.body.parse(input) {
            IResult::Error => IResult::Error,
            IResult::Done(rem1, v1) => {
                proof {
                    assert(input@.skip(input@.len() - rem1@.len()) =~= rem1@);
                }
                match self.suffix.parse(rem1) {
                    IResult::Error => IResult::Error,
                    IResult::Done(rem2, _) => {
                        proof {
                            assert(rem2@ =~= input@.subrange(
                                input@.len() - rem2@.len(),
                                input@.len() as int,
                            ));
                        }
                        IResult::Done(rem2, v1)
                    },
                }
            },
        }
    }
}

/// Runs `open`, `body`, `close` in order, keeping only the body's value.
pub struct Delimited<P1, P2, P3> {
    /// The opening parser, whose value is discarded.
    pub open_with: P1,
    /// The parser whose value is kept.
    pub body: P2,
    /// The closing parser, whose value is discarded.
    pub close_with: P3,
}

impl<'a, P1: Parser<'a>, P2: Parser<'a>, P3: Parser<'a>> Parser<'a> for Delimited<P1, P2, P3> {
    type Output = P2::Output;

    open spec fn wf(&self) -> bool {
        self.open_with.wf() && self.body.wf() && self.close_with.wf()
    }

    open spec fn spec_parse(&self, input: Seq<char>) -> Option<
        (int, <P2::Output as DeepView>::V),
    > {
        match self.open_with.spec_parse(input) {
            Option::None => Option::None,
            Option::Some((n1, _)) => if !(0 <= n1 <= input.len()) {
                Option::None
            } else {
                match self.body.spec_parse(input.skip(n1)) {
                    Option::None => Option::None,
                    Option::Some((n2, v2)) => if !(0 <= n2 <= input.len() - n1) {
                        Option::None
                    } else {
                        match self.close_with.spec_parse(input.skip(n1 + n2)) {
                            Option::None => Option::None,
                            Option::Some((n3, _)) => Option::Some((n1 + n2 + n3, v2)),
                        }
                    },
                }
            },
        }
    }

    fn parse(&self, input: &'a str) -> (res: IResult<&'a str, P2::Output>) {
        match self.open_with.parse(input) {
            IResult::Error => IResult::Error,
            IResult::Done(rem1, _) => {
                proof {
                    assert(input@.skip(input@.len() - rem1@.len()) =~= rem1@);
                }
                match self.body.parse(rem1) {
                    IResult::Error => IResult::Error,
                    IResult::Done(rem2, v2) => {
                        proof {
                            assert(input@.skip(input@.len() - rem2@.len()) =~= rem2@);
                        }
                        match self.close_with.parse(rem2) {
                            IResult::Error => IResult::Error,
                            IResult::Done(rem3, _) => {
                                proof {
                                    assert(rem3@ =~= input@.subrange(
                                        input@.len() - rem3@.len(),
                                        input@.len() as int,
                                    ));
                                }
                                IResult::Done(rem3, v2)
                            },
                        }
                    },
                }
            },
        }
    }
}

} // verus!
