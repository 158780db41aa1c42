//! The two-variant outcome type that every parser produces.

use vstd::prelude::*;

verus! {

/// Outcome of running a parser on an input view.
///
/// `Done(remainder, value)` indicates a correct parse: `remainder` is the
/// unconsumed suffix of the input and `value` is the parsed result.
/// `Error` indicates failure and carries no payload: no position, no message,
/// no partial value.
#[derive(Debug, PartialEq, Eq, Clone)]
pub enum IResult<I, O> {
    /// A correct parse: the rest of the unparsed data, then the parsed value.
    Done(I, O),
    /// A failed parse.
    Error,
}

/// `sfx` is the run of the last `sfx.len()` characters of `full`.
pub open spec fn is_suffix_of(sfx: Seq<char>, full: Seq<char>) -> bool {
    &&& sfx.len() <= full.len()
    &&& sfx == full.subrange(full.len() - sfx.len(), full.len() as int)
}

/// Relates an executable outcome to a parser's mathematical description.
///
/// The description `sp` is `Some((n, v))` when the parse succeeds consuming
/// exactly `n` leading characters and yielding a value whose view is `v`,
/// and `None` when it fails.  A `Done(rem, val)` outcome obeys `sp` when
/// `rem` is the suffix of `input` past the consumed prefix and `val` views
/// to the described value; an `Error` outcome obeys `sp` when `sp` is `None`.
pub open spec fn obeys_spec<Out: DeepView>(
    sp: Option<(int, <Out as DeepView>::V)>,
    input: Seq<char>,
    res: IResult<&str, Out>,
) -> bool {
    match res {
        IResult::Done(rem, val) => {
            &&& rem@.len() <= input.len()
            &&& rem@ == input.subrange(input.len() - rem@.len(), input.len() as int)
            &&& sp == Some((input.len() - rem@.len(), val.deep_view()))
        },
        IResult::Error => sp is None,
    }
}

/// Parsers are referentially transparent: two outcomes of the same
/// description on the same input agree — they succeed or fail together,
/// and on success their remainders and their values' views are equal.
pub proof fn lemma_parse_deterministic<Out: DeepView>(
    sp: Option<(int, <Out as DeepView>::V)>,
    input: Seq<char>,
    res1: IResult<&str, Out>,
    res2: IResult<&str, Out>,
)
    requires
        obeys_spec(sp, input, res1),
        obeys_spec(sp, input, res2),
    ensures
        res1 is Done <==> res2 is Done,
        (res1 matches IResult::Done(rem1, val1) ==> res2 matches IResult::Done(rem2, val2)
            && rem1@ == rem2@ && val1.deep_view() == val2.deep_view()),
{
}

/// Whenever a parse that obeys its description succeeds, the remainder it
/// returns is a suffix of the exact input it was given, never longer than
/// that input and never a different buffer's contents.
pub proof fn lemma_remainder_is_suffix<Out: DeepView>(
    sp: Option<(int, <Out as DeepView>::V)>,
    input: Seq<char>,
    res: IResult<&str, Out>,
)
    requires
        obeys_spec(sp, input, res),
    ensures
        (res matches IResult::Done(rem, _) ==> is_suffix_of(rem@, input)),
{
}

} // verus!
