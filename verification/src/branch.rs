//! Alternation and value-based dispatch.

use vstd::prelude::*;
use vstd::string::StrSliceExecFns;

use crate::outcome::IResult;
use crate::parser::Parser;

verus! {

/// Ordered choice between two parsers of the same output type: tries the
/// first against the original input, and only on its failure tries the
/// second against that same original input; fails only if both fail.
/// Wider choices are built by nesting, and a per-branch transform is a
/// [`crate::transform::Mapped`] around that branch.
pub struct Alt<P1, P2> {
    /// The branch tried first.
    pub first: P1,
    /// The branch tried on the first branch's failure.
    pub second: P2,
}

impl<'a, P1: Parser<'a>, P2: Parser<'a, Output = P1::Output>> Parser<'a> for Alt<P1, P2> {
    type Output = P1::Output;

    open spec fn wf(&self) -> bool {
        self.first.wf() && self.second.wf()
    }

    open spec fn spec_parse(&self, input: Seq<char>) -> Option<
        (int, <P1::Output as DeepView>::V),
    > {
        match self.first.spec_parse(input) {
            Option::Some(r) => Option::Some(r),
            Option::None => self.second.spec_parse(input),
        }
    }

    fn parse(&self, input: &'a str) -> (res: IResult<&'a str, P1::Output>) {
        match self.first.parse(input) {
            IResult::Done(rem, v) => IResult::Done(rem, v),
            IResult::Error => self.second.parse(input),
        }
    }
}

/// Character-for-character string equality.
fn str_eq(a: &str, b: &str) -> (r: bool)
    ensures
        r == (a@ == b@),
{
    let alen: usize = a.unicode_len();
    let blen: usize = b.unicode_len();
    if alen != blen {
        return false;
    }
    let mut i: usize = 0;
    while i < alen
        invariant
            0 <= i <= alen,
            alen == a@.len(),
            alen == b@.len(),
            forall|j: int| 0 <= j < i ==> a@[j] == b@[j],
        decreases alen - i,
    {
        if a.get_char(i) != b.get_char(i) {
            return false;
        }
        i = i + 1;
    }
    proof {
        assert(a@ =~= b@);
    }
    true
}

/// First match among the dispatch arms: the continuation of the first arm
/// whose key equals the selected value, applied to the remainder; the
/// explicit wildcard continuation when no key matches and one was
/// supplied; `None` otherwise.
pub open spec fn spec_switch_arms<'a, 'k, P: Parser<'a>>(
    arms: Seq<(&'k str, P)>,
    otherwise: Option<P>,
    selected: Seq<char>,
    input: Seq<char>,
) -> Option<(int, <P::Output as DeepView>::V)>
    decreases arms.len(),
{
    if arms.len() == 0 {
        match otherwise {
            Option::None => Option::None,
            Option::Some(d) => d.spec_parse(input),
        }
    } else if arms[0].0@ == selected {
        arms[0].1.spec_parse(input)
    } else {
        spec_switch_arms(arms.skip(1), otherwise, selected, input)
    }
}

/// Runs a selector to obtain a value and a remainder, matches that value
/// against an ordered list of keyed arms, and on the first match applies
/// the corresponding continuation parser to the remainder.  Fails if the
/// selector fails or if no key matches the selected value: there is no
/// implicit default, but a wildcard continuation run on any unmatched
/// value may be supplied explicitly as `otherwise`.
pub struct Switch<'k, S, P> {
    /// The parser whose value selects an arm.
    pub selector: S,
    /// The ordered `(key, continuation)` arms.
    pub arms: Vec<(&'k str, P)>,
    /// The explicit wildcard arm, if any.
    pub otherwise: Option<P>,
}

impl<'a, 'k, S: Parser<'a, Output = &'a str>, P: Parser<'a>> Parser<'a> for Switch<'k, S, P> {
    type Output = P::Output;

    open spec fn wf(&self) -> bool {
        &&& self.selector.wf()
        &&& forall|i: int| 0 <= i < self.arms@.len() ==> (#[trigger] self.arms@[i]).1.wf()
        &&& (self.otherwise matches Option::Some(d) ==> d.wf())
    }

    open spec fn spec_parse(&self, input: Seq<char>) -> Option<
        (int, <P::Output as DeepView>::V),
    > {
        match self.selector.spec_parse(input) {
            Option::None => Option::None,
            Option::Some((n, selected)) => if !(0 <= n <= input.len()) {
                Option::None
            } else {
                match spec_switch_arms(self.arms@, self.otherwise, selected, input.skip(n)) {
                    Option::None => Option::None,
                    Option::Some((m, v)) => Option::Some((n + m, v)),
                }
            },
        }
    }

    fn parse(&self, input: &'a str) -> (res: IResult<&'a str, P::Output>) {
        match self.selector.parse(input) {
            IResult::Error => IResult::Error,
            IResult::Done(rem, selected) => {
                proof {
                    assert(input@.skip(input@.len() - rem@.len()) =~= rem@);
                    assert(self.arms@.skip(0) =~= self.arms@);
                }
                let mut j: usize = 0;
                loop
                    invariant
                        self.wf(),
                        0 <= j <= self.arms.len(),
                        rem@.len() <= input@.len(),
                        rem@ == input@.subrange(input@.len() - rem@.len(), input@.len() as int),
                        self.selector.spec_parse(input@) == Option::Some(
                            (input@.len() - rem@.len(), selected@),
                        ),
                        spec_switch_arms(self.arms@, self.otherwise, selected@, rem@)
                            == spec_switch_arms(
                            self.arms@.skip(j as int),
                            self.otherwise,
                            selected@,
                            rem@,
                        ),
                    decreases self.arms@.len() - j,
                {
                    if j == self.arms.len() {
                        proof {
                            assert(self.arms@.skip(j as int).len() == 0);
                            assert(input@.skip(input@.len() - rem@.len()) =~= rem@);
                        }
                        match &self.otherwise {
                            Option::None => {
                                return IResult::Error;
                            },
                            Option::Some(d) => {
                                match d.parse(rem) {
                                    IResult::Error => {
                                        return IResult::Error;
                                    },
                                    IResult::Done(rem2, v) => {
                                        proof {
                                            assert(rem2@ =~= input@.subrange(
                                                input@.len() - rem2@.len(),
                                                input@.len() as int,
                                            ));
                                        }
                                        return IResult::Done(rem2, v);
                                    },
                                }
                            },
                        }
                    }
                    let arm = &self.arms[j];
                    proof {
                        assert(self.arms@.skip(j as int)[0] == self.arms@[j as int]);
                    }
                    if str_eq(arm.0, selected) {
                        proof {
                            assert(input@.skip(input@.len() - rem@.len()) =~= rem@);
                            assert(spec_switch_arms(
                                self.arms@.skip(j as int),
                                self.otherwise,
                                selected@,
                                rem@,
                            ) == self.arms@[j as int].1.spec_parse(rem@));
                        }
                        match arm.1.parse(rem) {
                            IResult::Error => {
                                return IResult::Error;
                            },
                            IResult::Done(rem2, v) => {
                                proof {
                                    assert(rem2@ =~= input@.subrange(
                                        input@.len() - rem2@.len(),
                                        input@.len() as int,
                                    ));
                                }
                                return IResult::Done(rem2, v);
                            },
                        }
                    } else {
                        proof {
                            assert(self.arms@.skip(j as int).skip(1) =~= self.arms@.skip(
                                j as int + 1,
                            ));
                        }
                        j = j + 1;
                    }
                }
            },
        }
    }
}

} // verus!
