//! Version numbers: whether the version that a script asks for is the one
//! that runs it.
//!
//! A script asks for `major.minor.patch`, or for `major.minor` or
//! `major.minor.*` where any patch will do.

use crate::text::{digit_char, digits_of, same_text};
use vstd::prelude::*;

verus! {

/// The version of this library.
pub const VERSION: &'static str = "0.1.0";

/// What is wrong with a version number.
#[derive(Clone, Copy, Debug, PartialEq, Eq, Structural)]
pub enum VersionError {
    /// The version asked for has fewer than two parts, or more than three.
    MalformedRequest,
    /// The running version has fewer than three parts.
    MalformedCurrent,
}

/// The index of the first `sep` in `text`, or the length where there is
/// none.
pub open spec fn first_index_of(text: Seq<char>, sep: char) -> int
    decreases text.len(),
{
    if text.len() == 0 {
        0
    } else if text[0] == sep {
        0
    } else {
        1 + first_index_of(text.drop_first(), sep)
    }
}

/// The parts of `text` between the occurrences of `sep`. There is one part
/// more than there are separators; a part may be empty.
pub open spec fn split_on(text: Seq<char>, sep: char) -> Seq<Seq<char>>
    decreases text.len(),
{
    let at = first_index_of(text, sep);
    if 0 <= at < text.len() {
        seq![text.subrange(0, at)] + split_on(text.subrange(at + 1, text.len() as int), sep)
    } else {
        seq![text]
    }
}

/// [`first_index_of`] is the first index of `sep`.
pub proof fn lemma_first_index_of(text: Seq<char>, sep: char)
    ensures
        0 <= first_index_of(text, sep) <= text.len(),
        first_index_of(text, sep) < text.len() ==> text[first_index_of(text, sep)] == sep,
        forall|k: int| 0 <= k < first_index_of(text, sep) ==> text[k] != sep,
    decreases text.len(),
{
    if text.len() > 0 && text[0] != sep {
        let rest = text.drop_first();
        lemma_first_index_of(rest, sep);
        assert forall|k: int| 0 <= k < first_index_of(text, sep) implies text[k] != sep by {
            if k > 0 {
                assert(rest[k - 1] == text[k]);
            }
        }
    }
}

/// Where `sep` stands at `at` and nowhere before, that is its first index.
pub proof fn lemma_first_index_is(text: Seq<char>, sep: char, at: int)
    requires
        0 <= at <= text.len(),
        at < text.len() ==> text[at] == sep,
        forall|k: int| 0 <= k < at ==> text[k] != sep,
    ensures
        first_index_of(text, sep) == at,
{
    lemma_first_index_of(text, sep);
    let found = first_index_of(text, sep);
    if found < at {
        assert(text[found] != sep);
    }
}

/// The value of a decimal digit, or `None` for another character.
pub open spec fn digit_value(c: char) -> Option<nat> {
    if '0' <= c <= '9' {
        Some((c as u32 - '0' as u32) as nat)
    } else {
        None
    }
}

/// Every character of `text` is a decimal digit.
pub open spec fn all_digits(text: Seq<char>) -> bool {
    forall|i: int| 0 <= i < text.len() ==> digit_value(#[trigger] text[i]) is Some
}

/// The number that the digits `text` write in decimal.
pub open spec fn decimal(text: Seq<char>) -> nat
    decreases text.len(),
{
    if text.len() == 0 {
        0
    } else {
        decimal(text.drop_last()) * 10 + match digit_value(text.last()) {
            Some(value) => value,
            None => 0,
        }
    }
}

/// `text` without a plus sign in front, if it has one.
pub open spec fn unsigned_digits(text: Seq<char>) -> Seq<char> {
    if text.len() > 0 && text[0] == '+' {
        text.subrange(1, text.len() as int)
    } else {
        text
    }
}

/// The number that `text` writes: decimal digits, at least one, with or
/// without a plus sign in front, and no more than 32 bits can hold.
pub open spec fn parsed_u32(text: Seq<char>) -> Option<u32> {
    let digits = unsigned_digits(text);
    if digits.len() > 0 && all_digits(digits) && decimal(digits) <= u32::MAX {
        Some(decimal(digits) as u32)
    } else {
        None
    }
}

/// The number of a version part: what it writes, or zero where it writes
/// no number.
pub open spec fn part_number(text: Seq<char>) -> u32 {
    match parsed_u32(text) {
        Some(number) => number,
        None => 0,
    }
}

/// A number written with more digits is no smaller.
pub proof fn lemma_decimal_grows(text: Seq<char>, upto: int)
    requires
        0 <= upto <= text.len(),
    ensures
        decimal(text.take(upto)) <= decimal(text),
    decreases text.len() - upto,
{
    if upto < text.len() {
        lemma_decimal_grows(text, upto + 1);
        assert(text.take(upto + 1).drop_last() =~= text.take(upto));
    } else {
        assert(text.take(upto) =~= text);
    }
}

/// The digits of a number write that number.
pub proof fn lemma_digits_write_number(n: nat)
    ensures
        digits_of(n).len() > 0,
        all_digits(digits_of(n)),
        decimal(digits_of(n)) == n,
        digits_of(n)[0] != '+',
    decreases n,
{
    if n < 10 {
        let one = digits_of(n);
        assert(one.drop_last() =~= Seq::<char>::empty());
        assert(decimal(Seq::<char>::empty()) == 0);
        assert(one.last() == digit_char(n));
        assert(digit_value(digit_char(n)) == Some(n));
        assert(decimal(one) == decimal(one.drop_last()) * 10 + n);
    } else {
        lemma_digits_write_number(n / 10);
        let front = digits_of(n / 10);
        let all = digits_of(n);
        assert(all.drop_last() =~= front);
        assert(all.last() == digit_char(n % 10));
        assert(digit_value(digit_char(n % 10)) == Some(n % 10));
        assert(decimal(all) == decimal(front) * 10 + n % 10);
        assert forall|i: int| 0 <= i < all.len() implies digit_value(#[trigger] all[i])
            is Some by {
            if i < front.len() {
                assert(all[i] == front[i]);
            }
        }
        assert(all[0] == front[0]);
    }
}

/// A number that 32 bits can hold is read back from its own digits.
pub proof fn law_number_round_trip(n: u32)
    ensures
        parsed_u32(digits_of(n as nat)) == Some(n),
{
    lemma_digits_write_number(n as nat);
}

/// Whether the version asked for matches the running one. Major and minor
/// number must be equal; the patch number too, where one is asked for.
pub open spec fn versions_match(current: Seq<Seq<char>>, asked: Seq<Seq<char>>) -> bool {
    &&& part_number(asked[0]) == part_number(current[0])
    &&& part_number(asked[1]) == part_number(current[1])
    &&& (asked.len() == 3 && asked[2] != "*"@ ==> part_number(asked[2]) == part_number(
        current[2],
    ))
}

/// What [`check_version_matches`] returns for the two versions.
pub open spec fn version_check(current: Seq<char>, asked: Seq<char>) -> Result<
    bool,
    VersionError,
> {
    let asked_parts = split_on(asked, '.');
    let current_parts = split_on(current, '.');
    if asked_parts.len() < 2 || asked_parts.len() > 3 {
        Err(VersionError::MalformedRequest)
    } else if current_parts.len() < 3 {
        Err(VersionError::MalformedCurrent)
    } else {
        Ok(versions_match(current_parts, asked_parts))
    }
}

/// Splits `text` at every `sep`: see [`split_on`].
pub fn split(text: &str, sep: char) -> (parts: Vec<String>)
    ensures
        crate::text::texts_view(parts@) == split_on(text@, sep),
        parts.len() >= 1,
{
    let len = text.unicode_len();
    let mut parts: Vec<String> = Vec::new();
    let mut start: usize = 0;
    let mut i: usize = 0;
    assert(text@.subrange(0, len as int) =~= text@);
    while i < len
        invariant
            len == text@.len(),
            start <= i <= len,
            forall|k: int| start <= k < i ==> text@[k] != sep,
            split_on(text@, sep) == crate::text::texts_view(parts@) + split_on(
                text@.subrange(start as int, len as int),
                sep,
            ),
        decreases len - i,
    {
        if text.get_char(i) == sep {
            let part = String::from_str(text.substring_char(start, i));
            proof {
                let rest = text@.subrange(start as int, len as int);
                lemma_first_index_is(rest, sep, i - start);
                assert(rest.subrange(0, i - start) =~= text@.subrange(start as int, i as int));
                assert(rest.subrange(i - start + 1, rest.len() as int) =~= text@.subrange(
                    i + 1,
                    len as int,
                ));
                assert(crate::text::texts_view(parts@.push(part)) =~= crate::text::texts_view(
                    parts@,
                ) + seq![part@]);
            }
            parts.push(part);
            start = i + 1;
        }
        i += 1;
    }
    let last = String::from_str(text.substring_char(start, len));
    proof {
        let rest = text@.subrange(start as int, len as int);
        lemma_first_index_is(rest, sep, rest.len() as int);
        assert(crate::text::texts_view(parts@.push(last)) =~= crate::text::texts_view(parts@)
            + seq![last@]);
    }
    parts.push(last);
    parts
}

/// Reads a number: see [`parsed_u32`].
pub fn parse_u32(text: &str) -> (r: Option<u32>)
    ensures
        r == parsed_u32(text@),
{
    let len = text.unicode_len();
    let first: usize = if len > 0 && text.get_char(0) == '+' {
        1
    } else {
        0
    };
    let ghost digits = unsigned_digits(text@);
    if first == len {
        return None;
    }
    let mut value: u64 = 0;
    let mut i: usize = first;
    assert(digits.take(0) =~= Seq::<char>::empty());
    while i < len
        invariant
            len == text@.len(),
            first <= i <= len,
            first <= 1,
            digits == unsigned_digits(text@),
            digits.len() == len - first,
            forall|k: int| 0 <= k < digits.len() ==> digits[k] == text@[k + first],
            all_digits(digits.take(i - first)),
            value == decimal(digits.take(i - first)),
            value <= u32::MAX,
        decreases len - i,
    {
        let c = text.get_char(i);
        let ghost seen = digits.take(i - first);
        let ghost now = digits.take(i - first + 1);
        proof {
            assert(now.drop_last() =~= seen);
            assert(now.last() == c);
        }
        if !(c >= '0' && c <= '9') {
            assert(digit_value(digits[i - first]) is None);
            return None;
        }
        let digit = (c as u32 - '0' as u32) as u64;
        value = value * 10 + digit;
        if value > u32::MAX as u64 {
            proof {
                lemma_decimal_grows(digits, i - first + 1);
            }
            return None;
        }
        proof {
            assert forall|k: int| 0 <= k < now.len() implies digit_value(#[trigger] now[k])
                is Some by {
                if k < seen.len() {
                    assert(seen[k] == now[k]);
                }
            }
        }
        i += 1;
    }
    assert(digits.take(len - first) =~= digits);
    Some(value as u32)
}

/// The number of a version part: see [`part_number`].
fn number_of(part: &String) -> (r: u32)
    ensures
        r == part_number(part@),
{
    match parse_u32(part.as_str()) {
        Some(number) => number,
        None => 0,
    }
}

/// Whether the version that a script asks for, `version`, is matched by the
/// running version `current_version`.
pub fn check_version_matches(current_version: String, version: String) -> (r: Result<
    bool,
    VersionError,
>)
    ensures
        r == version_check(current_version@, version@),
{
    let asked = split(version.as_str(), '.');
    if asked.len() < 2 || asked.len() > 3 {
        return Err(VersionError::MalformedRequest);
    }
    let current = split(current_version.as_str(), '.');
    if current.len() < 3 {
        return Err(VersionError::MalformedCurrent);
    }
    proof {
        let asked_parts = split_on(version@, '.');
        let current_parts = split_on(current_version@, '.');
        assert(forall|k: int| 0 <= k < asked.len() ==> asked[k]@ == asked_parts[k]);
        assert(forall|k: int| 0 <= k < current.len() ==> current[k]@ == current_parts[k]);
    }
    if number_of(&asked[0]) != number_of(&current[0]) {
        return Ok(false);
    }
    if number_of(&asked[1]) != number_of(&current[1]) {
        return Ok(false);
    }
    if asked.len() == 3 && !same_text(asked[2].as_str(), "*") {
        return Ok(number_of(&asked[2]) == number_of(&current[2]));
    }
    Ok(true)
}

/// Whether `requested` is this very version, letter for letter.
pub fn check_version(requested: &str) -> (r: bool)
    ensures
        r == (requested@ == VERSION@),
{
    same_text(requested, VERSION)
}

} // verus!
