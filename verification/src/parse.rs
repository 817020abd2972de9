//! Deadlines written as whitespace-separated numbers: `day month year`, then
//! optionally `hour`, `minute` and `second`.

use crate::timestamp::{calendar_date, is_date, is_time, time_of_day, Moment, Timestamp};
use vstd::prelude::*;

verus! {

broadcast use vstd::string::group_string_axioms;

/// Why a deadline could not be read.
#[derive(Clone, Copy, Debug, PartialEq, Eq, Structural)]
pub enum ParseError {
    /// A token is not a number that fits 32 bits.
    InvalidNumber,
    /// Fewer than three numbers were given.
    MissingDateComponents,
    /// Day, month and year name no calendar date.
    InvalidDate,
    /// Hour, minute and second name no time of day.
    InvalidTime,
}

/// The characters that separate tokens: those with the Unicode property
/// `White_Space`.
pub open spec fn is_space(c: char) -> bool {
    let code = c as u32;
    ||| 0x09 <= code <= 0x0D
    ||| code == 0x20
    ||| code == 0x85
    ||| code == 0xA0
    ||| code == 0x1680
    ||| 0x2000 <= code <= 0x200A
    ||| code == 0x2028
    ||| code == 0x2029
    ||| code == 0x202F
    ||| code == 0x205F
    ||| code == 0x3000
}

/// The decimal digits `0` to `9`.
pub open spec fn is_digit(c: char) -> bool {
    0x30 <= c as u32 <= 0x39
}

/// The length of the run of characters at the start of `s` that are no
/// separators.
pub open spec fn run_length(s: Seq<char>) -> int
    decreases s.len(),
{
    if s.len() == 0 || is_space(s.first()) {
        0
    } else {
        1 + run_length(s.drop_first())
    }
}

/// The tokens of `s`: its maximal runs of characters that are no separators,
/// from left to right.
pub open spec fn tokens(s: Seq<char>) -> Seq<Seq<char>>
    decreases s.len(),
    via tokens_terminates
{
    if s.len() == 0 {
        Seq::empty()
    } else if is_space(s.first()) {
        tokens(s.drop_first())
    } else {
        seq![s.take(run_length(s))] + tokens(s.skip(run_length(s)))
    }
}

#[via_fn]
proof fn tokens_terminates(s: Seq<char>) {
    lemma_run_length_bounds(s);
    if s.len() > 0 {
        lemma_run_length_bounds(s.drop_first());
    }
}

/// A run is no longer than the text it starts.
pub proof fn lemma_run_length_bounds(s: Seq<char>)
    ensures
        0 <= run_length(s) <= s.len(),
    decreases s.len(),
{
    if s.len() > 0 && !is_space(s.first()) {
        lemma_run_length_bounds(s.drop_first());
    }
}

/// The number that a string of digits writes in base ten.
pub open spec fn digits_value(digits: Seq<char>) -> nat
    decreases digits.len(),
{
    if digits.len() == 0 {
        0
    } else {
        (digits_value(digits.drop_last()) * 10 + (digits.last() as u32 - 0x30)) as nat
    }
}

/// A token without the plus sign that may stand before its digits.
pub open spec fn unsigned_part(token: Seq<char>) -> Seq<char> {
    if token.len() > 0 && token[0] == '+' {
        token.skip(1)
    } else {
        token
    }
}

/// The number that a token writes: one or more decimal digits, with or
/// without a plus sign before them, whose value fits 32 bits.
pub open spec fn number_of(token: Seq<char>) -> Option<u32> {
    let digits = unsigned_part(token);
    if digits.len() > 0 && (forall|k: int| 0 <= k < digits.len() ==> is_digit(digits[k]))
        && digits_value(digits) <= u32::MAX {
        Some(digits_value(digits) as u32)
    } else {
        None
    }
}

/// The numbers that the tokens write, if every token writes one.
pub open spec fn numbers_of(tokens: Seq<Seq<char>>) -> Option<Seq<u32>> {
    if forall|k: int| 0 <= k < tokens.len() ==> (#[trigger] number_of(tokens[k])) is Some {
        Some(Seq::new(tokens.len(), |k: int| number_of(tokens[k])->0))
    } else {
        None
    }
}

/// The year that the third number stands for. The number is read as a signed
/// 32-bit value, so the upper half of the range stands for the years before 0.
pub open spec fn year_of(field: u32) -> int {
    if field <= i32::MAX {
        field as int
    } else {
        field - 0x1_0000_0000
    }
}

/// The deadline that the numbers name. They are day, month and year, then
/// hour, minute and second. A time field that is left out takes its largest
/// value, so that the deadline is the last second of the period that was
/// given. Numbers after the sixth are not looked at.
pub open spec fn deadline_of(fields: Seq<u32>) -> Result<Moment, ParseError> {
    if fields.len() < 3 {
        Err(ParseError::MissingDateComponents)
    } else if !is_date(year_of(fields[2]), fields[1] as int, fields[0] as int) {
        Err(ParseError::InvalidDate)
    } else {
        let hour = if fields.len() > 3 { fields[3] as int } else { 23 };
        let minute = if fields.len() > 4 { fields[4] as int } else { 59 };
        let second = if fields.len() > 5 { fields[5] as int } else { 59 };
        if !is_time(hour, minute, second, 0) {
            Err(ParseError::InvalidTime)
        } else {
            Ok(
                Moment {
                    year: year_of(fields[2]),
                    month: fields[1] as int,
                    day: fields[0] as int,
                    hour,
                    minute,
                    second,
                    nanosecond: 0,
                },
            )
        }
    }
}

/// The deadline that a text names: its tokens are read as numbers, and the
/// numbers as a deadline. A token that writes no number makes the whole text
/// invalid, wherever it stands.
pub open spec fn date_of(text: Seq<char>) -> Result<Moment, ParseError> {
    match numbers_of(tokens(text)) {
        None => Err(ParseError::InvalidNumber),
        Some(fields) => deadline_of(fields),
    }
}

/// What a parse returned, with the timestamp taken as the moment it stands
/// for.
pub open spec fn outcome(r: Result<Timestamp, ParseError>) -> Result<Moment, ParseError> {
    match r {
        Ok(t) => Ok(t@),
        Err(e) => Err(e),
    }
}

/// Whether `c` separates tokens.
fn is_space_char(c: char) -> (space: bool)
    ensures
        space == is_space(c),
{
    let code: u32 = c as u32;
    (0x09 <= code && code <= 0x0D) || code == 0x20 || code == 0x85 || code == 0xA0 || code
        == 0x1680 || (0x2000 <= code && code <= 0x200A) || code == 0x2028 || code == 0x2029
        || code == 0x202F || code == 0x205F || code == 0x3000
}

/// A prefix of a string of digits writes a number that is no larger than the
/// number of the whole string.
proof fn lemma_prefix_value(digits: Seq<char>, n: int)
    requires
        0 <= n <= digits.len(),
        forall|k: int| 0 <= k < digits.len() ==> is_digit(digits[k]),
    ensures
        digits_value(digits.take(n)) <= digits_value(digits),
    decreases digits.len() - n,
{
    if n == digits.len() {
        assert(digits.take(n) =~= digits);
    } else {
        lemma_prefix_value(digits, n + 1);
        assert(digits.take(n + 1).drop_last() =~= digits.take(n));
    }
}

/// Reads one token as a number.
fn parse_number(token: &Vec<char>) -> (number: Option<u32>)
    ensures
        number == number_of(token@),
{
    let n: usize = token.len();
    let start: usize = if n > 0 && token[0] == '+' { 1 } else { 0 };
    let ghost digits = unsigned_part(token@);
    assert(digits =~= token@.skip(start as int));
    if start == n {
        return None;
    }
    let mut value: u32 = 0;
    let mut i: usize = start;
    while i < n
        invariant
            start <= i <= n,
            n == token.len(),
            digits == unsigned_part(token@),
            digits == token@.skip(start as int),
            forall|k: int| 0 <= k < i - start ==> is_digit(digits[k]),
            value == digits_value(digits.take(i - start)),
        decreases n - i,
    {
        let code: u32 = token[i] as u32;
        if code < 0x30 || code > 0x39 {
            assert(!is_digit(digits[i - start]));
            return None;
        }
        let digit: u32 = code - 0x30;
        proof {
            assert(digits.take(i - start + 1).drop_last() =~= digits.take(i - start));
            assert(digits.take(i - start + 1).last() == token@[i as int]);
        }
        if value > (u32::MAX - digit) / 10 {
            proof {
                if forall|k: int| 0 <= k < digits.len() ==> is_digit(digits[k]) {
                    lemma_prefix_value(digits, i - start + 1);
                }
            }
            return None;
        }
        value = value * 10 + digit;
        i += 1;
    }
    assert(digits.take(i - start) =~= digits);
    Some(value)
}

/// Characters that are no separators, ended by a separator or by the end of
/// the text, are the whole run that starts where they start.
proof fn lemma_run(s: Seq<char>, from: int, to: int)
    requires
        0 <= from <= to <= s.len(),
        forall|k: int| from <= k < to ==> !is_space(s[k]),
        to == s.len() || is_space(s[to]),
    ensures
        run_length(s.skip(from)) == to - from,
    decreases to - from,
{
    if from < to {
        lemma_run(s, from + 1, to);
        assert(s.skip(from).drop_first() =~= s.skip(from + 1));
    }
}

/// Such a run is the first token of what starts with it, and the other
/// tokens are those of what follows it.
proof fn lemma_token(s: Seq<char>, from: int, to: int)
    requires
        0 <= from < to <= s.len(),
        forall|k: int| from <= k < to ==> !is_space(s[k]),
        to == s.len() || is_space(s[to]),
    ensures
        tokens(s.skip(from)) == seq![s.subrange(from, to)] + tokens(s.skip(to)),
{
    lemma_run(s, from, to);
    assert(s.skip(from).take(to - from) =~= s.subrange(from, to));
    assert(s.skip(from).skip(to - from) =~= s.skip(to));
}

/// A separator at the start adds no token.
proof fn lemma_separator(s: Seq<char>, at: int)
    requires
        0 <= at < s.len(),
        is_space(s[at]),
    ensures
        tokens(s.skip(at)) == tokens(s.skip(at + 1)),
{
    assert(s.skip(at).drop_first() =~= s.skip(at + 1));
}

/// The numbers of one more token, when it writes one.
proof fn lemma_numbers_push(done: Seq<Seq<char>>, fields: Seq<u32>, token: Seq<char>)
    requires
        numbers_of(done) == Some(fields),
        number_of(token) is Some,
    ensures
        numbers_of(done.push(token)) == Some(fields.push(number_of(token)->0)),
{
    let more = done.push(token);
    assert forall|k: int| 0 <= k < more.len() implies (#[trigger] number_of(more[k])) is Some by {
        if k < done.len() {
            assert(more[k] == done[k]);
        }
    }
    assert(numbers_of(more)->0 =~= fields.push(number_of(token)->0));
}

/// A token that writes no number leaves no numbers for any list of tokens
/// that holds it.
proof fn lemma_numbers_none(done: Seq<Seq<char>>, token: Seq<char>, rest: Seq<Seq<char>>)
    requires
        number_of(token) is None,
    ensures
        numbers_of(done.push(token) + rest) is None,
{
    let all = done.push(token) + rest;
    assert(all[done.len() as int] == token);
}

/// Reads the tokens of `text` as numbers. There are numbers exactly when
/// every token writes one.
pub fn parse_fields(text: &str) -> (fields: Option<Vec<u32>>)
    ensures
        match fields {
            Some(v) => numbers_of(tokens(text@)) == Some(v@),
            None => numbers_of(tokens(text@)) is None,
        },
{
    let mut fields: Vec<u32> = Vec::new();
    let mut token: Vec<char> = Vec::new();
    let ghost s = text@;
    let ghost mut done: Seq<Seq<char>> = Seq::empty();
    assert(s.skip(0) =~= s);
    for c in it: text.chars()
        invariant
            s == text@,
            it.seq() == s,
            token.len() <= it.index(),
            token@ == s.subrange(it.index() - token.len(), it.index()),
            forall|k: int| 0 <= k < token.len() ==> !is_space(token@[k]),
            tokens(s) == done + tokens(s.skip(it.index() - token.len())),
            numbers_of(done) == Some(fields@),
    {
        let ghost at = it.index();
        if is_space_char(c) {
            proof {
                lemma_separator(s, at);
            }
            if token.len() > 0 {
                proof {
                    let from = at - token.len();
                    assert forall|k: int| from <= k < at implies !is_space(s[k]) by {
                        assert(s[k] == token@[k - from]);
                    }
                    lemma_token(s, from, at);
                }
                match parse_number(&token) {
                    None => {
                        proof {
                            lemma_numbers_none(done, token@, tokens(s.skip(at + 1)));
                            assert(tokens(s) =~= done.push(token@) + tokens(s.skip(at + 1)));
                        }
                        return None;
                    },
                    Some(number) => {
                        proof {
                            lemma_numbers_push(done, fields@, token@);
                            assert(tokens(s) =~= done.push(token@) + tokens(s.skip(at + 1)));
                            done = done.push(token@);
                        }
                        fields.push(number);
                    },
                }
                token = Vec::new();
            }
            assert(s.subrange(at + 1, at + 1) =~= Seq::<char>::empty());
        } else {
            token.push(c);
            assert(token@ =~= s.subrange(at + 1 - token.len(), at + 1));
        }
    }
    let ghost end = s.len() as int;
    if token.len() > 0 {
        proof {
            let from = end - token.len();
            assert forall|k: int| from <= k < end implies !is_space(s[k]) by {
                assert(s[k] == token@[k - from]);
            }
            lemma_token(s, from, end);
            assert(s.skip(end) =~= Seq::<char>::empty());
            assert(tokens(s) =~= done.push(token@));
        }
        match parse_number(&token) {
            None => {
                proof {
                    lemma_numbers_none(done, token@, Seq::empty());
                    assert(done.push(token@) + Seq::<Seq<char>>::empty() =~= done.push(token@));
                }
                return None;
            },
            Some(number) => {
                proof {
                    lemma_numbers_push(done, fields@, token@);
                }
                fields.push(number);
            },
        }
    } else {
        assert(s.skip(end) =~= Seq::<char>::empty());
        assert(tokens(s) =~= done);
    }
    Some(fields)
}

/// Makes the deadline that the numbers name: day, month, year, and as far as
/// they are given hour, minute and second.
pub fn deadline_from_fields(fields: &Vec<u32>) -> (r: Result<Timestamp, ParseError>)
    ensures
        outcome(r) == deadline_of(fields@),
{
    if fields.len() < 3 {
        return Err(ParseError::MissingDateComponents);
    }
    let raw: u32 = fields[2];
    let year: i32 = if raw <= 0x7fff_ffff {
        raw as i32
    } else {
        (raw as i64 - 0x1_0000_0000i64) as i32
    };
    let (y, m, d) = match calendar_date(year, fields[1], fields[0]) {
        None => {
            return Err(ParseError::InvalidDate);
        },
        Some(date) => date,
    };
    let hour: u32 = if fields.len() > 3 { fields[3] } else { 23 };
    let minute: u32 = if fields.len() > 4 { fields[4] } else { 59 };
    let second: u32 = if fields.len() > 5 { fields[5] } else { 59 };
    match time_of_day(hour, minute, second) {
        None => Err(ParseError::InvalidTime),
        Some((h, mi, s)) => Ok(Timestamp::from_date_and_time(y, m, d, h, mi, s)),
    }
}

/// Reads a deadline from text.
pub fn parse_date(date: &str) -> (r: Result<Timestamp, ParseError>)
    ensures
        outcome(r) == date_of(date@),
{
    match parse_fields(date) {
        None => Err(ParseError::InvalidNumber),
        Some(fields) => deadline_from_fields(&fields),
    }
}

} // verus!
