//! Transformation combinators: map a successful value through a pure or
//! fallible function, or inject a constant.

use vstd::prelude::*;
use vstd::string::StrSliceExecFns;

use crate::outcome::IResult;
use crate::parser::{Parser, Transform, TryTransform};
use crate::primitive::is_digit_char;

verus! {

/// Runs the inner parser; on success passes the value through a total
/// function; failure propagates unchanged.
pub struct Mapped<P, F> {
    /// The parser whose value is transformed.
    pub inner: P,
    /// The total function applied to the value.
    pub func: F,
}

impl<'a, P: Parser<'a>, F: Transform<'a, Input = P::Output>> Parser<'a> for Mapped<P, F> {
    type Output = F::Output;

    open spec fn wf(&self) -> bool {
        self.inner.wf()
    }

    open spec fn spec_parse(&self, input: Seq<char>) -> Option<
        (int, <F::Output as DeepView>::V),
    > {
        match self.inner.spec_parse(input) {
            Option::None => Option::None,
            Option::Some((n, v)) => Option::Some((n, self.func.spec_apply(v))),
        }
    }

    fn parse(&self, input: &'a str) -> (res: IResult<&'a str, F::Output>) {
        match self.inner.parse(input) {
            IResult::Error => IResult::Error,
            IResult::Done(rem, v) => IResult::Done(rem, self.func.apply(v)),
        }
    }
}

/// Runs the inner parser; on success passes the value through a fallible
/// function, converting an error from the function into a payload-free
/// parse failure; the inner parser's failure propagates unchanged.
pub struct MapRes<P, F> {
    /// The parser whose value is transformed.
    pub inner: P,
    /// The fallible function applied to the value.
    pub func: F,
}

impl<'a, P: Parser<'a>, F: TryTransform<'a, Input = P::Output>> Parser<'a> for MapRes<P, F> {
    type Output = F::Output;

    open spec fn wf(&self) -> bool {
        self.inner.wf()
    }

    open spec fn spec_parse(&self, input: Seq<char>) -> Option<
        (int, <F::Output as DeepView>::V),
    > {
        match self.inner.spec_parse(input) {
            Option::None => Option::None,
            Option::Some((n, v)) => match self.func.spec_apply(v) {
                Option::None => Option::None,
                Option::Some(out) => Option::Some((n, out)),
            },
        }
    }

    fn parse(&self, input: &'a str) -> (res: IResult<&'a str, F::Output>) {
        match self.inner.parse(input) {
            IResult::Error => IResult::Error,
            IResult::Done(rem, v) => match self.func.apply(v) {
                Result::Err(_) => IResult::Error,
                Result::Ok(out) => IResult::Done(rem, out),
            },
        }
    }
}

/// Unconditionally succeeds, consumes nothing, and returns a copy of the
/// stored constant.  Used to inject literal values into a sequence.
pub struct ValueOf<T> {
    /// The constant returned on every parse.
    pub constant: T,
}

impl<'a, T: Copy + DeepView> Parser<'a> for ValueOf<T> {
    type Output = T;

    open spec fn spec_parse(&self, input: Seq<char>) -> Option<(int, <T as DeepView>::V)> {
        Option::Some((0, self.constant.deep_view()))
    }

    fn parse(&self, input: &'a str) -> (res: IResult<&'a str, T>) {
        proof {
            assert(input@ =~= input@.subrange(0, input@.len() as int));
        }
        IResult::Done(input, self.constant)
    }
}

/// Counts the characters of a recognized span.
pub struct CharCount;

impl<'a> Transform<'a> for CharCount {
    type Input = &'a str;

    type Output = usize;

    open spec fn spec_apply(&self, v: Seq<char>) -> usize {
        v.len() as usize
    }

    fn apply(&self, v: &'a str) -> (r: usize) {
        v.unicode_len()
    }
}

/// Every character of `s` is a decimal digit.
pub open spec fn all_digits(s: Seq<char>) -> bool {
    forall|j: int| 0 <= j < s.len() ==> is_digit_char(s[j])
}

/// Numeric value of one decimal digit character.
pub open spec fn digit_val(c: char) -> int {
    c as u32 - 48
}

/// Value of a run of decimal digit characters, most significant first.
pub open spec fn spec_decimal(s: Seq<char>) -> int
    decreases s.len(),
{
    if s.len() == 0 {
        0
    } else {
        spec_decimal(s.drop_last()) * 10 + digit_val(s.last())
    }
}

/// The value of a digit run is nonnegative and no smaller than the value
/// of any of its prefixes.
proof fn lemma_decimal_prefix_le(s: Seq<char>, j: int)
    requires
        all_digits(s),
        0 <= j <= s.len(),
    ensures
        0 <= spec_decimal(s.take(j)) <= spec_decimal(s),
    decreases s.len(),
{
    if s.len() == 0 {
        assert(s.take(j) =~= s);
    } else if j == s.len() {
        assert(s.take(j) =~= s);
        assert(all_digits(s.drop_last()));
        lemma_decimal_prefix_le(s.drop_last(), s.len() - 1);
        assert(s.drop_last().take(s.len() - 1) =~= s.drop_last());
        assert(is_digit_char(s.last()));
    } else {
        assert(all_digits(s.drop_last()));
        assert(s.take(j) =~= s.drop_last().take(j));
        lemma_decimal_prefix_le(s.drop_last(), j);
        assert(is_digit_char(s.last()));
    }
}

/// Reads a nonempty run of decimal digits as an unsigned number, failing on
/// the empty string, on any non-digit character, and on overflow.  The
/// natural companion of [`crate::primitive::digit`] under [`MapRes`].
pub struct DecimalU64;

impl<'a> TryTransform<'a> for DecimalU64 {
    type Input = &'a str;

    type Output = u64;

    type Error = ();

    open spec fn spec_apply(&self, v: Seq<char>) -> Option<u64> {
        if v.len() > 0 && all_digits(v) && spec_decimal(v) <= u64::MAX {
            Option::Some(spec_decimal(v) as u64)
        } else {
            Option::None
        }
    }

    fn apply(&self, v: &'a str) -> (r: Result<u64, ()>) {
        let len: usize = v.unicode_len();
        if len == 0 {
            return Result::Err(());
        }
        let mut acc: u64 = 0;
        let mut i: usize = 0;
        while i < len
            invariant
                0 <= i <= len,
                len == v@.len(),
                all_digits(v@.take(i as int)),
                acc == spec_decimal(v@.take(i as int)),
            decreases len - i,
        {
            let c = v.get_char(i);
            if !('0' <= c && c <= '9') {
                proof {
                    assert(!is_digit_char(v@[i as int]));
                }
                return Result::Err(());
            }
            let d: u64 = (c as u32 - 48) as u64;
            proof {
                assert(v@.take(i + 1).drop_last() =~= v@.take(i as int));
                assert(v@.take(i + 1).last() == v@[i as int]);
                assert(all_digits(v@.take(i + 1)));
            }
            if acc > u64::MAX / 10 || 10 * acc > u64::MAX - d {
                proof {
                    if all_digits(v@) {
                        lemma_decimal_prefix_le(v@, i + 1);
                    }
                }
                return Result::Err(());
            }
            acc = 10 * acc + d;
            i = i + 1;
        }
        proof {
            assert(v@.take(len as int) =~= v@);
        }
        Result::Ok(acc)
    }
}

} // verus!
