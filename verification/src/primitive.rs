//! Primitive recognizers: character-class scanners and literal/substring
//! matchers.

use vstd::prelude::*;
use vstd::string::StrSliceExecFns;

use crate::outcome::{obeys_spec, IResult};
use crate::parser::{CharPred, Parser};

verus! {

/// A space, tab, carriage return or line feed.
pub open spec fn is_space_char(c: char) -> bool {
    c == ' ' || c == '\t' || c == '\r' || c == '\n'
}

/// A decimal digit, `'0'` through `'9'`.
pub open spec fn is_digit_char(c: char) -> bool {
    '0' <= c && c <= '9'
}

/// The predicate recognized by [`multispace`].
pub struct IsSpace;

impl CharPred for IsSpace {
    open spec fn spec_test(&self, c: char) -> bool {
        is_space_char(c)
    }

    fn test(&self, c: char) -> (b: bool) {
        c == ' ' || c == '\t' || c == '\r' || c == '\n'
    }
}

/// The predicate recognized by [`digit`].
pub struct IsDigit;

impl CharPred for IsDigit {
    open spec fn spec_test(&self, c: char) -> bool {
        is_digit_char(c)
    }

    fn test(&self, c: char) -> (b: bool) {
        '0' <= c && c <= '9'
    }
}

/// Length of the maximal leading run of characters of `s` satisfying `pred`.
pub open spec fn spec_run_len<P: CharPred>(pred: &P, s: Seq<char>) -> int
    decreases s.len(),
{
    if s.len() == 0 || !pred.spec_test(s[0]) {
        0
    } else {
        1 + spec_run_len(pred, s.skip(1))
    }
}

/// The maximal leading run is in bounds, satisfies the predicate throughout,
/// and is ended by a failing character unless it covers the whole input.
pub proof fn lemma_run_len_bounds<P: CharPred>(pred: &P, s: Seq<char>)
    ensures
        0 <= spec_run_len(pred, s) <= s.len(),
        forall|j: int| 0 <= j < spec_run_len(pred, s) ==> pred.spec_test(s[j]),
        spec_run_len(pred, s) < s.len() ==> !pred.spec_test(s[spec_run_len(pred, s)]),
    decreases s.len(),
{
    if s.len() == 0 || !pred.spec_test(s[0]) {
    } else {
        lemma_run_len_bounds(pred, s.skip(1));
        let n = spec_run_len(pred, s);
        assert forall|j: int| 0 <= j < n implies pred.spec_test(s[j]) by {
            if j > 0 {
                assert(s.skip(1)[j - 1] == s[j]);
            }
        }
        if n < s.len() {
            assert(s.skip(1)[n - 1] == s[n]);
        }
    }
}

/// Any index with the three properties of [`lemma_run_len_bounds`] is the
/// run length.
proof fn lemma_run_len_agrees<P: CharPred>(pred: &P, s: Seq<char>, n: int)
    requires
        0 <= n <= s.len(),
        forall|j: int| 0 <= j < n ==> pred.spec_test(s[j]),
        n < s.len() ==> !pred.spec_test(s[n]),
    ensures
        spec_run_len(pred, s) == n,
    decreases s.len(),
{
    if n == 0 {
    } else {
        assert(pred.spec_test(s[0]));
        assert forall|j: int| 0 <= j < n - 1 implies pred.spec_test(s.skip(1)[j]) by {
            assert(s.skip(1)[j] == s[j + 1]);
        }
        if n - 1 < s.skip(1).len() {
            assert(s.skip(1)[n - 1] == s[n]);
        }
        lemma_run_len_agrees(pred, s.skip(1), n - 1);
    }
}

/// Index of the first character of `input` failing `pred`, or the length of
/// `input` if every character satisfies it.
fn scan_while<P: CharPred>(pred: &P, input: &str) -> (n: usize)
    ensures
        n == spec_run_len(pred, input@),
{
    let len: usize = input.unicode_len();
    let mut i: usize = 0;
    while i < len && pred.test(input.get_char(i))
        invariant
            0 <= i <= len,
            len == input@.len(),
            forall|j: int| 0 <= j < i ==> pred.spec_test(input@[j]),
        decreases len - i,
    {
        i = i + 1;
    }
    proof {
        lemma_run_len_agrees(pred, input@, i as int);
    }
    i
}

/// Meaning of the maximal-nonempty-run recognizers: consume the maximal
/// leading run of characters satisfying `pred`, failing if that run is
/// empty.
pub open spec fn spec_take_while1<P: CharPred>(pred: &P, input: Seq<char>) -> Option<
    (int, Seq<char>),
> {
    let n = spec_run_len(pred, input);
    if n == 0 {
        None
    } else {
        Some((n, input.take(n)))
    }
}

/// Shared scanner behind the maximal-nonempty-run recognizers.
fn parse_while1<'a, P: CharPred>(pred: &P, input: &'a str) -> (res: IResult<&'a str, &'a str>)
    ensures
        obeys_spec(spec_take_while1(pred, input@), input@, res),
{
    let len: usize = input.unicode_len();
    let n: usize = scan_while(pred, input);
    proof {
        lemma_run_len_bounds(pred, input@);
    }
    if n == 0 {
        IResult::Error
    } else {
        let rem = input.substring_char(n, len);
        let val = input.substring_char(0, n);
        proof {
            assert(val@ =~= input@.take(n as int));
            assert(rem@ =~= input@.subrange(input@.len() - rem@.len(), input@.len() as int));
        }
        IResult::Done(rem, val)
    }
}

/// Meaning of [`multispace`].
pub open spec fn spec_multispace(input: Seq<char>) -> Option<(int, Seq<char>)> {
    spec_take_while1(&IsSpace, input)
}

/// Meaning of [`digit`].
pub open spec fn spec_digit(input: Seq<char>) -> Option<(int, Seq<char>)> {
    spec_take_while1(&IsDigit, input)
}

/// Recognizes the maximal nonempty leading run of spaces, tabs, carriage
/// returns and line feeds; fails on empty input or if the first character
/// is not one of those.
pub fn multispace(input: &str) -> (res: IResult<&str, &str>)
    ensures
        obeys_spec(spec_multispace(input@), input@, res),
{
    parse_while1(&IsSpace, input)
}

/// Recognizes the maximal nonempty leading run of decimal digits `0-9`;
/// fails on empty input or if the first character is not a digit.
pub fn digit(input: &str) -> (res: IResult<&str, &str>)
    ensures
        obeys_spec(spec_digit(input@), input@, res),
{
    parse_while1(&IsDigit, input)
}

/// [`multispace`] as a parser value, for use with combinators.
pub struct Multispace;

impl<'a> Parser<'a> for Multispace {
    type Output = &'a str;

    open spec fn spec_parse(&self, input: Seq<char>) -> Option<(int, Seq<char>)> {
        spec_multispace(input)
    }

    fn parse(&self, input: &'a str) -> (res: IResult<&'a str, &'a str>) {
        multispace(input)
    }
}

/// [`digit`] as a parser value, for use with combinators.
pub struct Digit;

impl<'a> Parser<'a> for Digit {
    type Output = &'a str;

    open spec fn spec_parse(&self, input: Seq<char>) -> Option<(int, Seq<char>)> {
        spec_digit(input)
    }

    fn parse(&self, input: &'a str) -> (res: IResult<&'a str, &'a str>) {
        digit(input)
    }
}

/// True exactly when the first `expected@.len()` characters of `input`
/// are `expected`.
fn has_prefix(input: &str, expected: &str) -> (b: bool)
    ensures
        b == (expected@.len() <= input@.len() && input@.take(expected@.len() as int)
            == expected@),
{
    let n: usize = expected.unicode_len();
    let len: usize = input.unicode_len();
    if n > len {
        return false;
    }
    let mut i: usize = 0;
    while i < n
        invariant
            0 <= i <= n,
            n == expected@.len(),
            len == input@.len(),
            n <= len,
            forall|j: int| 0 <= j < i ==> input@[j] == expected@[j],
        decreases n - i,
    {
        if input.get_char(i) != expected.get_char(i) {
            proof {
                assert(input@.take(n as int)[i as int] != expected@[i as int]);
            }
            return false;
        }
        i = i + 1;
    }
    proof {
        assert(input@.take(n as int) =~= expected@);
    }
    true
}

/// Meaning of [`Tag`]: succeed exactly when the input is at least as long
/// as the expected literal and starts with it, consuming exactly the
/// literal's length.
pub open spec fn spec_tag(expected: Seq<char>, input: Seq<char>) -> Option<(int, Seq<char>)> {
    if expected.len() <= input.len() && input.take(expected.len() as int) == expected {
        Some((expected.len() as int, expected))
    } else {
        None
    }
}

/// Succeeds exactly when the input starts with the expected literal,
/// compared character for character; consumes exactly the literal.
pub struct Tag<'t> {
    /// The literal the input must start with.
    pub expected: &'t str,
}

impl<'a, 't> Parser<'a> for Tag<'t> {
    type Output = &'a str;

    open spec fn spec_parse(&self, input: Seq<char>) -> Option<(int, Seq<char>)> {
        spec_tag(self.expected@, input)
    }

    fn parse(&self, input: &'a str) -> (res: IResult<&'a str, &'a str>) {
        let n: usize = self.expected.unicode_len();
        let len: usize = input.unicode_len();
        if has_prefix(input, self.expected) {
            let rem = input.substring_char(n, len);
            let val = input.substring_char(0, n);
            proof {
                assert(val@ =~= self.expected@);
                assert(rem@ =~= input@.subrange(
                    input@.len() - rem@.len(),
                    input@.len() as int,
                ));
            }
            IResult::Done(rem, val)
        } else {
            IResult::Error
        }
    }
}

/// Consumes the maximal leading run of characters satisfying `pred`; fails
/// if that run is empty, so a success always consumes at least one
/// character.
pub struct TakeWhile1<P> {
    /// The character predicate defining the run.
    pub pred: P,
}

impl<'a, P: CharPred> Parser<'a> for TakeWhile1<P> {
    type Output = &'a str;

    open spec fn spec_parse(&self, input: Seq<char>) -> Option<(int, Seq<char>)> {
        spec_take_while1(&self.pred, input)
    }

    fn parse(&self, input: &'a str) -> (res: IResult<&'a str, &'a str>) {
        parse_while1(&self.pred, input)
    }
}

/// The needle occurs in `input` as the contiguous run starting at index `i`.
pub open spec fn occurs_at(needle: Seq<char>, input: Seq<char>, i: int) -> bool {
    &&& 0 <= i
    &&& i + needle.len() <= input.len()
    &&& input.subrange(i, i + needle.len()) == needle
}

/// Meaning of [`TakeUntil`]: find the first contiguous occurrence of the
/// needle and consume everything strictly before it, leaving the needle in
/// the remainder; fail if the input is empty, shorter than the needle, or
/// does not contain it.
pub open spec fn spec_take_until(needle: Seq<char>, input: Seq<char>) -> Option<(int, Seq<char>)>
    decreases input.len(),
{
    if input.len() == 0 || needle.len() > input.len() {
        None
    } else if input.take(needle.len() as int) == needle {
        Some((0, Seq::empty()))
    } else {
        match spec_take_until(needle, input.skip(1)) {
            None => None,
            Some((i, pre)) => Some((i + 1, seq![input[0]] + pre)),
        }
    }
}

/// At the first occurrence of the needle, [`spec_take_until`] succeeds,
/// consuming exactly the characters before that occurrence.
proof fn lemma_take_until_found(needle: Seq<char>, input: Seq<char>, i: int)
    requires
        input.len() > 0,
        occurs_at(needle, input, i),
        forall|j: int| 0 <= j < i ==> !occurs_at(needle, input, j),
    ensures
        spec_take_until(needle, input) == Some((i, input.take(i))),
    decreases input.len(),
{
    let nlen = needle.len() as int;
    if i == 0 {
        assert(input.take(nlen) == input.subrange(0, nlen));
        assert(input.take(0) =~= Seq::<char>::empty());
    } else {
        if nlen == 0 {
            assert(input.subrange(0, 0) =~= needle);
            assert(occurs_at(needle, input, 0));
        }
        assert(input.take(nlen) == input.subrange(0, nlen));
        assert(!occurs_at(needle, input, 0));
        assert(input.skip(1).subrange(i - 1, i - 1 + nlen) =~= input.subrange(i, i + nlen));
        assert(occurs_at(needle, input.skip(1), i - 1));
        assert forall|j: int| 0 <= j < i - 1 implies !occurs_at(needle, input.skip(1), j) by {
            if occurs_at(needle, input.skip(1), j) {
                assert(input.subrange(j + 1, j + 1 + nlen) =~= input.skip(1).subrange(
                    j,
                    j + nlen,
                ));
                assert(occurs_at(needle, input, j + 1));
            }
        }
        lemma_take_until_found(needle, input.skip(1), i - 1);
        assert(seq![input[0]] + input.skip(1).take(i - 1) =~= input.take(i));
    }
}

/// When the needle occurs nowhere in `input`, [`spec_take_until`] fails.
proof fn lemma_take_until_absent(needle: Seq<char>, input: Seq<char>)
    requires
        forall|j: int| !occurs_at(needle, input, j),
    ensures
        spec_take_until(needle, input) is None,
    decreases input.len(),
{
    let nlen = needle.len() as int;
    if input.len() == 0 || nlen > input.len() {
    } else {
        if input.take(nlen) == needle {
            assert(input.subrange(0, nlen) == input.take(nlen));
            assert(occurs_at(needle, input, 0));
        }
        assert forall|j: int| !occurs_at(needle, input.skip(1), j) by {
            if occurs_at(needle, input.skip(1), j) {
                assert(input.subrange(j + 1, j + 1 + nlen) =~= input.skip(1).subrange(
                    j,
                    j + nlen,
                ));
                assert(occurs_at(needle, input, j + 1));
            }
        }
        lemma_take_until_absent(needle, input.skip(1));
    }
}

/// True exactly when the needle occurs in `input` starting at index `i`.
fn matches_at(needle: &str, input: &str, i: usize, nlen: usize, len: usize) -> (b: bool)
    requires
        nlen == needle@.len(),
        len == input@.len(),
        i + nlen <= len,
    ensures
        b == occurs_at(needle@, input@, i as int),
{
    let mut j: usize = 0;
    while j < nlen
        invariant
            0 <= j <= nlen,
            nlen == needle@.len(),
            len == input@.len(),
            i + nlen <= len,
            forall|k: int| 0 <= k < j ==> input@[i + k] == needle@[k],
        decreases nlen - j,
    {
        if input.get_char(i + j) != needle.get_char(j) {
            proof {
                assert(input@.subrange(i as int, i + nlen as int)[j as int] != needle@[j as int]);
            }
            return false;
        }
        j = j + 1;
    }
    proof {
        assert(input@.subrange(i as int, i + nlen as int) =~= needle@);
    }
    true
}

/// Scans forward for the first contiguous occurrence of the needle; on
/// success consumes everything strictly before it (the needle itself stays
/// in the remainder); fails if the needle is longer than the input or never
/// occurs.  Matching is on the character sequence, not on bytes.
pub struct TakeUntil<'t> {
    /// The substring scanned for.
    pub needle: &'t str,
}

impl<'a, 't> Parser<'a> for TakeUntil<'t> {
    type Output = &'a str;

    open spec fn spec_parse(&self, input: Seq<char>) -> Option<(int, Seq<char>)> {
        spec_take_until(self.needle@, input)
    }

    fn parse(&self, input: &'a str) -> (res: IResult<&'a str, &'a str>) {
        let len: usize = input.unicode_len();
        let nlen: usize = self.needle.unicode_len();
        if len == 0 || nlen > len {
            return IResult::Error;
        }
        let mut i: usize = 0;
        let mut found: bool = matches_at(self.needle, input, 0, nlen, len);
        if nlen == 0 {
            proof {
                assert(input@.subrange(0, 0) =~= self.needle@);
                assert(occurs_at(self.needle@, input@, 0));
            }
        }
        while !found && i < len - nlen
            invariant
                1 <= nlen || found,
                nlen <= len,
                len == input@.len(),
                nlen == self.needle@.len(),
                0 <= i <= len - nlen,
                forall|j: int| 0 <= j < i ==> !occurs_at(self.needle@, input@, j),
                found == occurs_at(self.needle@, input@, i as int),
            decreases len - i,
        {
            i = i + 1;
            found = matches_at(self.needle, input, i, nlen, len);
        }
        if found {
            proof {
                lemma_take_until_found(self.needle@, input@, i as int);
            }
            let rem = input.substring_char(i, len);
            let val = input.substring_char(0, i);
            proof {
                assert(val@ =~= input@.take(i as int));
                assert(rem@ =~= input@.subrange(
                    input@.len() - rem@.len(),
                    input@.len() as int,
                ));
            }
            IResult::Done(rem, val)
        } else {
            proof {
                assert forall|j: int| !occurs_at(self.needle@, input@, j) by {
                    if occurs_at(self.needle@, input@, j) {
                        assert(0 <= j && j + nlen <= len);
                        assert(j <= i);
                    }
                }
                lemma_take_until_absent(self.needle@, input@);
            }
            IResult::Error
        }
    }
}

} // verus!
