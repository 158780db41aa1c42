//! Repetition combinators: apply a parser (and optionally a separator
//! parser) repeatedly, collecting an ordered sequence of values.
//!
//! A failing inner parser stops a loop gracefully, keeping what was
//! collected so far; a *succeeding, zero-width* inner parser instead fails
//! the whole combinator.  That guard is what keeps every loop here making
//! forward progress, and it is deliberately asymmetric: a zero-width match
//! is an error for the aggregate, not merely a stopping condition.

use vstd::prelude::*;
use vstd::string::StrSliceExecFns;

use crate::outcome::IResult;
use crate::parser::Parser;

verus! {

/// Meaning of [`Many0`]: apply the element parser repeatedly, collecting
/// values in parse order, until the input is exhausted or the element
/// parser fails; both endings succeed with what was collected.  A
/// zero-width element success fails the aggregate.
pub open spec fn spec_many0<'a, P: Parser<'a>>(p: &P, input: Seq<char>) -> Option<
    (int, Seq<<P::Output as DeepView>::V>),
>
    decreases input.len(),
{
    if input.len() == 0 {
        Option::Some((0, Seq::empty()))
    } else {
        match p.spec_parse(input) {
            Option::None => Option::Some((0, Seq::empty())),
            Option::Some((n, v)) => if n <= 0 || n > input.len() {
                Option::None
            } else {
                match spec_many0(p, input.skip(n)) {
                    Option::None => Option::None,
                    Option::Some((m, vs)) => Option::Some((n + m, seq![v] + vs)),
                }
            },
        }
    }
}

/// Repetition on empty input succeeds at once with the empty sequence of
/// values, without consulting the element parser.
pub proof fn lemma_many0_empty_input<'a, P: Parser<'a>>(p: &P)
    ensures
        spec_many0(p, Seq::empty()) == Option::Some(
            (0int, Seq::<<P::Output as DeepView>::V>::empty()),
        ),
{
}

/// The non-termination guard: if the element parser succeeds on nonempty
/// input while consuming zero characters, the whole repetition fails
/// rather than looping forever.
pub proof fn lemma_many0_zero_width_fails<'a, P: Parser<'a>>(
    p: &P,
    input: Seq<char>,
    v: <P::Output as DeepView>::V,
)
    requires
        input.len() > 0,
        p.spec_parse(input) == Option::Some((0int, v)),
    ensures
        spec_many0(p, input) is None,
{
}

/// Applies the element parser repeatedly to the remaining input, appending
/// each value to an ordered sequence, until the remaining input is empty
/// or the element parser fails; both cases succeed with everything
/// collected.  If the element parser succeeds while consuming zero
/// characters, the whole call fails.
pub struct Many0<P> {
    /// The parser applied repeatedly.
    pub element: P,
}

impl<'a, P: Parser<'a>> Parser<'a> for Many0<P> {
    type Output = Vec<P::Output>;

    open spec fn wf(&self) -> bool {
        self.element.wf()
    }

    open spec fn spec_parse(&self, input: Seq<char>) -> Option<
        (int, Seq<<P::Output as DeepView>::V>),
    > {
        spec_many0(&self.element, input)
    }

    fn parse(&self, input: &'a str) -> (res: IResult<&'a str, Vec<P::Output>>) {
        let mut values: Vec<P::Output> = Vec::new();
        let mut rest: &'a str = input;
        proof {
            assert(values.deep_view() =~= Seq::<<P::Output as DeepView>::V>::empty());
            assert(rest@ =~= input@.subrange(input@.len() - rest@.len(), input@.len() as int));
        }
        loop
            invariant
                self.element.wf(),
                rest@.len() <= input@.len(),
                rest@ == input@.subrange(input@.len() - rest@.len(), input@.len() as int),
                (match spec_many0(&self.element, rest@) {
                    Option::Some((m, vs)) => spec_many0(&self.element, input@) == Option::Some(
                        ((input@.len() - rest@.len()) + m, values.deep_view() + vs),
                    ),
                    Option::None => spec_many0(&self.element, input@) is None,
                }),
            decreases rest@.len(),
        {
            if rest.unicode_len() == 0 {
                proof {
                    assert(values.deep_view() + Seq::<<P::Output as DeepView>::V>::empty()
                        =~= values.deep_view());
                }
                return IResult::Done(rest, values);
            }
            match self.element.parse(rest) {
                IResult::Error => {
                    proof {
                        assert(values.deep_view() + Seq::<<P::Output as DeepView>::V>::empty()
                            =~= values.deep_view());
                    }
                    return IResult::Done(rest, values);
                },
                IResult::Done(r2, v) => {
                    if r2.unicode_len() == rest.unicode_len() {
                        return IResult::Error;
                    }
                    let ghost pre = values.deep_view();
                    let ghost n = rest@.len() - r2@.len();
                    proof {
                        assert(rest@.skip(n) =~= r2@);
                    }
                    values.push(v);
                    proof {
                        assert(values.deep_view() =~= pre + seq![v.deep_view()]);
                        match spec_many0(&self.element, r2@) {
                            Option::Some((m2, vs2)) => {
                                assert(spec_many0(&self.element, rest@) == Option::Some(
                                    (n + m2, seq![v.deep_view()] + vs2),
                                ));
                                assert(pre + (seq![v.deep_view()] + vs2) =~= (pre + seq![
                                    v.deep_view(),
                                ]) + vs2);
                            },
                            Option::None => {},
                        }
                    }
                    rest = r2;
                },
            }
        }
    }
}

/// Consumed length and collected values of the tail loop shared by the
/// separated-list combinators: repeatedly parse a separator then an
/// element, stopping gracefully (keeping what was collected, and
/// discarding a dangling separator) as soon as either fails or is
/// zero-width.
pub open spec fn spec_sep_tail<'a, S: Parser<'a>, E: Parser<'a>>(
    sep: &S,
    elem: &E,
    input: Seq<char>,
) -> (int, Seq<<E::Output as DeepView>::V>)
    decreases input.len(),
{
    match sep.spec_parse(input) {
        Option::None => (0, Seq::empty()),
        Option::Some((ns, _)) => if ns <= 0 || ns > input.len() {
            (0, Seq::empty())
        } else {
            match elem.spec_parse(input.skip(ns)) {
                Option::None => (0, Seq::empty()),
                Option::Some((ne, v)) => if ne <= 0 || ne > input.len() - ns {
                    (0, Seq::empty())
                } else {
                    let r = spec_sep_tail(sep, elem, input.skip(ns + ne));
                    (ns + ne + r.0, seq![v] + r.1)
                },
            }
        },
    }
}

/// The tail loop behind the separated-list combinators.
fn parse_sep_tail<'a, S: Parser<'a>, E: Parser<'a>>(
    sep: &S,
    elem: &E,
    input: &'a str,
    values: &mut Vec<E::Output>,
) -> (rem: &'a str)
    requires
        sep.wf(),
        elem.wf(),
    ensures
        rem@.len() <= input@.len(),
        rem@ == input@.subrange(input@.len() - rem@.len(), input@.len() as int),
        input@.len() - rem@.len() == spec_sep_tail(sep, elem, input@).0,
        final(values).deep_view() == old(values).deep_view() + spec_sep_tail(sep, elem, input@).1,
{
    let mut rest: &'a str = input;
    let ghost mut acc: Seq<<E::Output as DeepView>::V> = Seq::empty();
    proof {
        assert(rest@ =~= input@.subrange(input@.len() - rest@.len(), input@.len() as int));
        assert(values.deep_view() =~= old(values).deep_view() + acc);
        assert(acc + spec_sep_tail(sep, elem, rest@).1 =~= spec_sep_tail(sep, elem, rest@).1);
    }
    loop
        invariant
            sep.wf(),
            elem.wf(),
            rest@.len() <= input@.len(),
            rest@ == input@.subrange(input@.len() - rest@.len(), input@.len() as int),
            values.deep_view() == old(values).deep_view() + acc,
            spec_sep_tail(sep, elem, input@).0 == (input@.len() - rest@.len()) + spec_sep_tail(
                sep,
                elem,
                rest@,
            ).0,
            spec_sep_tail(sep, elem, input@).1 == acc + spec_sep_tail(sep, elem, rest@).1,
        decreases rest@.len(),
    {
        let ghost tail_here = spec_sep_tail(sep, elem, rest@);
        match sep.parse(rest) {
            IResult::Error => {
                proof {
                    assert(acc + Seq::<<E::Output as DeepView>::V>::empty() =~= acc);
                }
                return rest;
            },
            IResult::Done(r2, _) => {
                if r2.unicode_len() == rest.unicode_len() {
                    proof {
                        assert(acc + Seq::<<E::Output as DeepView>::V>::empty() =~= acc);
                    }
                    return rest;
                }
                let ghost ns = rest@.len() - r2@.len();
                proof {
                    assert(rest@.skip(ns) =~= r2@);
                }
                match elem.parse(r2) {
                    IResult::Error => {
                        proof {
                            assert(acc + Seq::<<E::Output as DeepView>::V>::empty() =~= acc);
                        }
                        return rest;
                    },
                    IResult::Done(r3, v) => {
                        if r3.unicode_len() == r2.unicode_len() {
                            proof {
                                assert(acc + Seq::<<E::Output as DeepView>::V>::empty() =~= acc);
                            }
                            return rest;
                        }
                        let ghost ne = r2@.len() - r3@.len();
                        let ghost pre = values.deep_view();
                        proof {
                            assert(rest@.skip(ns + ne) =~= r3@);
                            let r = spec_sep_tail(sep, elem, r3@);
                            assert(tail_here == (ns + ne + r.0, seq![v.deep_view()] + r.1));
                        }
                        values.push(v);
                        proof {
                            assert(values.deep_view() =~= pre + seq![v.deep_view()]);
                            let r = spec_sep_tail(sep, elem, r3@);
                            assert(acc + (seq![v.deep_view()] + r.1) =~= (acc + seq![
                                v.deep_view(),
                            ]) + r.1);
                            acc = acc + seq![v.deep_view()];
                        }
                        rest = r3;
                    },
                }
            },
        }
    }
}

/// Meaning of [`SeparatedList`]: an optional first element (whose failure
/// yields an empty list), then the graceful separator-element tail loop.
/// A zero-width first element fails the whole combinator.
pub open spec fn spec_separated_list<'a, S: Parser<'a>, E: Parser<'a>>(
    sep: &S,
    elem: &E,
    input: Seq<char>,
) -> Option<(int, Seq<<E::Output as DeepView>::V>)> {
    match elem.spec_parse(input) {
        Option::None => Option::Some((0, Seq::empty())),
        Option::Some((n, v)) => if n <= 0 || n > input.len() {
            Option::None
        } else {
            let r = spec_sep_tail(sep, elem, input.skip(n));
            Option::Some((n + r.0, seq![v] + r.1))
        },
    }
}

/// Meaning of [`SeparatedNonemptyList`]: as [`spec_separated_list`], except
/// that a failing first element fails the whole combinator.
pub open spec fn spec_separated_nonempty_list<'a, S: Parser<'a>, E: Parser<'a>>(
    sep: &S,
    elem: &E,
    input: Seq<char>,
) -> Option<(int, Seq<<E::Output as DeepView>::V>)> {
    match elem.spec_parse(input) {
        Option::None => Option::None,
        Option::Some(_) => spec_separated_list(sep, elem, input),
    }
}

/// When the first element fails, the separated list succeeds gracefully
/// with the empty sequence and no consumption.
pub proof fn lemma_separated_list_graceful_empty<'a, S: Parser<'a>, E: Parser<'a>>(
    sep: &S,
    elem: &E,
    input: Seq<char>,
)
    requires
        elem.spec_parse(input) is None,
    ensures
        spec_separated_list(sep, elem, input) == Option::Some(
            (0int, Seq::<<E::Output as DeepView>::V>::empty()),
        ),
{
}

/// When the first element fails, the nonempty variant fails outright: it
/// has no empty-sequence fallback.
pub proof fn lemma_separated_nonempty_needs_element<'a, S: Parser<'a>, E: Parser<'a>>(
    sep: &S,
    elem: &E,
    input: Seq<char>,
)
    requires
        elem.spec_parse(input) is None,
    ensures
        spec_separated_nonempty_list(sep, elem, input) is None,
{
}

/// Parses an optional first element; if that first attempt fails, the
/// whole combinator succeeds with an empty sequence.  After a successful
/// nonzero-width first element, repeatedly tries the separator then the
/// element, stopping gracefully as soon as either fails or is zero-width:
/// trailing separators and malformed tails are tolerated by truncation,
/// not rejected.  A zero-width first element fails the whole combinator.
pub struct SeparatedList<S, E> {
    /// The parser run between elements, its value discarded.
    pub separator: S,
    /// The parser for the collected elements.
    pub element: E,
}

impl<'a, S: Parser<'a>, E: Parser<'a>> Parser<'a> for SeparatedList<S, E> {
    type Output = Vec<E::Output>;

    open spec fn wf(&self) -> bool {
        self.separator.wf() && self.element.wf()
    }

    open spec fn spec_parse(&self, input: Seq<char>) -> Option<
        (int, Seq<<E::Output as DeepView>::V>),
    > {
        spec_separated_list(&self.separator, &self.element, input)
    }

    fn parse(&self, input: &'a str) -> (res: IResult<&'a str, Vec<E::Output>>) {
        match self.element.parse(input) {
            IResult::Error => {
                let values: Vec<E::Output> = Vec::new();
                proof {
                    assert(input@ =~= input@.subrange(0, input@.len() as int));
                    assert(values.deep_view() =~= Seq::<<E::Output as DeepView>::V>::empty());
                }
                IResult::Done(input, values)
            },
            IResult::Done(r1, v1) => {
                if r1.unicode_len() == input.unicode_len() {
                    return IResult::Error;
                }
                let ghost n1 = input@.len() - r1@.len();
                let mut values: Vec<E::Output> = Vec::new();
                values.push(v1);
                proof {
                    assert(input@.skip(n1) =~= r1@);
                    assert(values.deep_view() =~= seq![v1.deep_view()]);
                }
                let rem = parse_sep_tail(&self.separator, &self.element, r1, &mut values);
                proof {
                    let r = spec_sep_tail(&self.separator, &self.element, r1@);
                    assert(rem@ =~= input@.subrange(
                        input@.len() - rem@.len(),
                        input@.len() as int,
                    ));
                    assert(values.deep_view() =~= seq![v1.deep_view()] + r.1);
                }
                IResult::Done(rem, values)
            },
        }
    }
}

/// As [`SeparatedList`], except that the first element's failure makes the
/// entire combinator fail instead of yielding an empty sequence.
pub struct SeparatedNonemptyList<S, E> {
    /// The parser run between elements, its value discarded.
    pub separator: S,
    /// The parser for the collected elements.
    pub element: E,
}

impl<'a, S: Parser<'a>, E: Parser<'a>> Parser<'a> for SeparatedNonemptyList<S, E> {
    type Output = Vec<E::Output>;

    open spec fn wf(&self) -> bool {
        self.separator.wf() && self.element.wf()
    }

    open spec fn spec_parse(&self, input: Seq<char>) -> Option<
        (int, Seq<<E::Output as DeepView>::V>),
    > {
        spec_separated_nonempty_list(&self.separator, &self.element, input)
    }

    fn parse(&self, input: &'a str) -> (res: IResult<&'a str, Vec<E::Output>>) {
        match self.element.parse(input) {
            IResult::Error => IResult::Error,
            IResult::Done(r1, v1) => {
                if r1.unicode_len() == input.unicode_len() {
                    return IResult::Error;
                }
                let ghost n1 = input@.len() - r1@.len();
                let mut values: Vec<E::Output> = Vec::new();
                values.push(v1);
                proof {
                    assert(input@.skip(n1) =~= r1@);
                    assert(values.deep_view() =~= seq![v1.deep_view()]);
                }
                let rem = parse_sep_tail(&self.separator, &self.element, r1, &mut values);
                proof {
                    let r = spec_sep_tail(&self.separator, &self.element, r1@);
                    assert(rem@ =~= input@.subrange(
                        input@.len() - rem@.len(),
                        input@.len() as int,
                    ));
                    assert(values.deep_view() =~= seq![v1.deep_view()] + r.1);
                }
                IResult::Done(rem, values)
            },
        }
    }
}

} // verus!
