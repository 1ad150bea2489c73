//! The text form of numbers: decimal numerals, and lines of numerals
//! separated by commas.
//!
//! A numeral is an optional sign, digits, and optionally a point followed by
//! more digits; at least one digit must be present. Digits after the ninth
//! decimal place do not change the value. A line is split at every comma and
//! blanks around each field are ignored.
use vstd::prelude::*;
use vstd::slice::slice_subrange;
use crate::fixed::{in_range, Fixed, LIMIT, SCALE};

verus! {

/// The byte `,`, which separates the fields of a line.
pub const COMMA: u8 = 44;

/// The byte `.`, which separates whole digits from decimal places.
pub const POINT: u8 = 46;

/// The byte `+`.
pub const PLUS: u8 = 43;

/// The byte `-`.
pub const MINUS: u8 = 45;

/// The byte `0`; the other digits follow it in order.
pub const ZERO: u8 = 48;

/// Why a token is not a number of this library.
#[derive(Clone, Copy, Debug, PartialEq, Eq, Structural)]
pub enum ParseError {
    /// The token is not a numeral.
    Malformed,
    /// The token is a numeral whose value is beyond the representable range.
    OutOfRange,
}

/// Why a line could not be read.
#[derive(Clone, Copy, Debug, PartialEq, Eq, Structural)]
pub struct LineError {
    /// Position of the first field that could not be read, counted from zero.
    pub field: usize,
    /// What is wrong with that field.
    pub kind: ParseError,
}

/// Whether `c` is one of the ten digits.
pub open spec fn is_digit(c: u8) -> bool {
    ZERO <= c <= ZERO + 9
}

/// Whether `c` is a blank: a space, a tab, a line feed, a vertical tab, a
/// form feed or a carriage return.
pub open spec fn is_blank(c: u8) -> bool {
    c == 32 || 9 <= c <= 13
}

/// Whether `s` holds digits only.
pub open spec fn all_digits(s: Seq<u8>) -> bool {
    forall|i: int| 0 <= i < s.len() ==> is_digit(#[trigger] s[i])
}

/// The number that a string of digits denotes, read in base ten.
pub open spec fn digits_value(s: Seq<u8>) -> nat
    decreases s.len(),
{
    if s.len() == 0 {
        0
    } else {
        (digits_value(s.drop_last()) * 10 + (s.last() - ZERO)) as nat
    }
}

/// The first nine decimal places, with zeros where the string has none.
pub open spec fn nine_places(s: Seq<u8>) -> Seq<u8> {
    Seq::new(
        9,
        |i: int|
            if i < s.len() {
                s[i]
            } else {
                ZERO
            },
    )
}

/// Position of the first occurrence of `c` in `s`, or the length of `s` if
/// there is none.
pub open spec fn first_index_of(s: Seq<u8>, c: u8) -> int
    decreases s.len(),
{
    if s.len() == 0 || s[0] == c {
        0
    } else {
        1 + first_index_of(s.drop_first(), c)
    }
}

/// Number of blanks at the start of `s`.
pub open spec fn leading_blanks(s: Seq<u8>) -> int
    decreases s.len(),
{
    if s.len() == 0 || !is_blank(s[0]) {
        0
    } else {
        1 + leading_blanks(s.drop_first())
    }
}

/// Number of blanks at the end of `s`.
pub open spec fn trailing_blanks(s: Seq<u8>) -> int
    decreases s.len(),
{
    if s.len() == 0 || !is_blank(s.last()) {
        0
    } else {
        1 + trailing_blanks(s.drop_last())
    }
}

/// `s` without the blanks at its start and at its end.
pub open spec fn trimmed(s: Seq<u8>) -> Seq<u8> {
    let rest = s.skip(leading_blanks(s));
    rest.take(rest.len() - trailing_blanks(rest))
}

/// Whether `s` starts with a sign.
pub open spec fn has_sign(s: Seq<u8>) -> bool {
    s.len() > 0 && (s[0] == PLUS || s[0] == MINUS)
}

/// The numeral without its sign.
pub open spec fn unsigned_part(s: Seq<u8>) -> Seq<u8> {
    if has_sign(s) {
        s.drop_first()
    } else {
        s
    }
}

/// The digits before the point of an unsigned numeral.
pub open spec fn whole_digits(s: Seq<u8>) -> Seq<u8> {
    s.take(first_index_of(s, POINT))
}

/// The digits after the point of an unsigned numeral; none if it has no
/// point.
pub open spec fn decimal_digits(s: Seq<u8>) -> Seq<u8> {
    let p = first_index_of(s, POINT);
    if p < s.len() {
        s.skip(p + 1)
    } else {
        Seq::empty()
    }
}

/// Whether `s` is a numeral: an optional sign, then digits with at most one
/// point among them, and at least one digit.
pub open spec fn is_numeral(s: Seq<u8>) -> bool {
    let u = unsigned_part(s);
    &&& all_digits(whole_digits(u))
    &&& all_digits(decimal_digits(u))
    &&& whole_digits(u).len() + decimal_digits(u).len() >= 1
}

/// The raw count that an unsigned numeral denotes.
pub open spec fn unsigned_value(u: Seq<u8>) -> nat {
    digits_value(whole_digits(u)) * (SCALE as nat) + digits_value(nine_places(decimal_digits(u)))
}

/// The raw count that a numeral denotes.
pub open spec fn numeral_value(s: Seq<u8>) -> int {
    if s.len() > 0 && s[0] == MINUS {
        -(unsigned_value(unsigned_part(s)) as int)
    } else {
        unsigned_value(unsigned_part(s)) as int
    }
}

/// What reading one token gives: its raw count, or the reason it has none.
pub open spec fn read_token(s: Seq<u8>) -> Result<int, ParseError> {
    if !is_numeral(s) {
        Err(ParseError::Malformed)
    } else if !in_range(numeral_value(s)) {
        Err(ParseError::OutOfRange)
    } else {
        Ok(numeral_value(s))
    }
}

/// The fields of a line: the stretches between its commas.
pub open spec fn fields(line: Seq<u8>) -> Seq<Seq<u8>>
    decreases line.len(),
    via fields_terminates
{
    let p = first_index_of(line, COMMA);
    if p >= line.len() {
        seq![line]
    } else {
        seq![line.take(p)] + fields(line.skip(p + 1))
    }
}

#[via_fn]
proof fn fields_terminates(line: Seq<u8>) {
    lemma_first_index_bounds(line, COMMA);
}

proof fn lemma_first_index_bounds(s: Seq<u8>, c: u8)
    ensures
        0 <= first_index_of(s, c) <= s.len(),
        first_index_of(s, c) < s.len() ==> s[first_index_of(s, c)] == c,
        forall|i: int| 0 <= i < first_index_of(s, c) ==> s[i] != c,
    decreases s.len(),
{
    if s.len() > 0 && s[0] != c {
        let t = s.drop_first();
        lemma_first_index_bounds(t, c);
        assert forall|i: int| 0 <= i < first_index_of(s, c) implies s[i] != c by {
            if i > 0 {
                assert(s[i] == t[i - 1]);
            }
        }
    }
}

proof fn lemma_first_index_is(s: Seq<u8>, c: u8, p: int)
    requires
        0 <= p <= s.len(),
        forall|i: int| 0 <= i < p ==> s[i] != c,
        p < s.len() ==> s[p] == c,
    ensures
        first_index_of(s, c) == p,
    decreases s.len(),
{
    if s.len() > 0 && s[0] != c {
        lemma_first_index_is(s.drop_first(), c, p - 1);
    }
}

/// Position of the first `c` in `s`, or the length of `s`.
fn find_byte(s: &[u8], c: u8) -> (p: usize)
    ensures
        p == first_index_of(s@, c),
        p <= s@.len(),
{
    let mut p: usize = 0;
    while p < s.len() && s[p] != c
        invariant
            p <= s@.len(),
            forall|i: int| 0 <= i < p ==> s@[i] != c,
        decreases s@.len() - p,
    {
        p += 1;
    }
    proof {
        lemma_first_index_is(s@, c, p as int);
    }
    p
}

/// Ten to the power `k`.
spec fn pow10(k: nat) -> nat
    decreases k,
{
    if k == 0 {
        1
    } else {
        10 * pow10((k - 1) as nat)
    }
}

proof fn lemma_pow10_increases(a: nat, b: nat)
    requires
        a <= b,
    ensures
        pow10(a) <= pow10(b),
    decreases b,
{
    if a < b {
        lemma_pow10_increases(a, (b - 1) as nat);
    }
}

proof fn lemma_pow10_nine()
    ensures
        pow10(8) == 100_000_000,
        pow10(9) == SCALE,
{
    reveal_with_fuel(pow10, 10);
}

proof fn lemma_leading_is(s: Seq<u8>, p: int)
    requires
        0 <= p <= s.len(),
        forall|i: int| 0 <= i < p ==> is_blank(s[i]),
        p < s.len() ==> !is_blank(s[p]),
    ensures
        leading_blanks(s) == p,
    decreases s.len(),
{
    if s.len() > 0 && is_blank(s[0]) {
        lemma_leading_is(s.drop_first(), p - 1);
    }
}

proof fn lemma_trailing_is(s: Seq<u8>, k: int)
    requires
        0 <= k <= s.len(),
        forall|i: int| s.len() - k <= i < s.len() ==> is_blank(s[i]),
        k < s.len() ==> !is_blank(s[s.len() - k - 1]),
    ensures
        trailing_blanks(s) == k,
    decreases s.len(),
{
    if s.len() > 0 && is_blank(s.last()) {
        lemma_trailing_is(s.drop_last(), k - 1);
    }
}

fn byte_is_blank(c: u8) -> (r: bool)
    ensures
        r == is_blank(c),
{
    c == 32 || (9 <= c && c <= 13)
}

fn byte_is_digit(c: u8) -> (r: bool)
    ensures
        r == is_digit(c),
{
    ZERO <= c && c <= ZERO + 9
}

/// The part of `s` between its leading and its trailing blanks.
pub fn trim(s: &[u8]) -> (t: &[u8])
    ensures
        t@ == trimmed(s@),
{
    let mut lo: usize = 0;
    while lo < s.len() && byte_is_blank(s[lo])
        invariant
            lo <= s@.len(),
            forall|i: int| 0 <= i < lo ==> is_blank(s@[i]),
        decreases s@.len() - lo,
    {
        lo += 1;
    }
    proof {
        lemma_leading_is(s@, lo as int);
    }
    let rest = slice_subrange(s, lo, s.len());
    let mut hi: usize = rest.len();
    while hi > 0 && byte_is_blank(rest[hi - 1])
        invariant
            hi <= rest@.len(),
            forall|i: int| hi <= i < rest@.len() ==> is_blank(rest@[i]),
        decreases hi,
    {
        hi -= 1;
    }
    proof {
        lemma_trailing_is(rest@, rest@.len() - hi);
    }
    slice_subrange(rest, 0, hi)
}

fn only_digits(s: &[u8]) -> (r: bool)
    ensures
        r == all_digits(s@),
{
    let mut i: usize = 0;
    while i < s.len()
        invariant
            i <= s@.len(),
            forall|j: int| 0 <= j < i ==> is_digit(#[trigger] s@[j]),
        decreases s@.len() - i,
    {
        if !byte_is_digit(s[i]) {
            return false;
        }
        i += 1;
    }
    true
}

/// The value of the digits before the point, unless it exceeds one billion.
fn whole_value(s: &[u8]) -> (r: Option<u64>)
    requires
        all_digits(s@),
    ensures
        match r {
            Some(v) => v == digits_value(s@) && v <= SCALE,
            None => digits_value(s@) > SCALE,
        },
{
    let mut acc: u64 = 0;
    let mut i: usize = 0;
    while i < s.len()
        invariant
            i <= s@.len(),
            all_digits(s@),
            acc == digits_value(s@.take(i as int)),
            acc <= SCALE,
        decreases s@.len() - i,
    {
        let d: u64 = (s[i] - ZERO) as u64;
        assert(s@.take(i + 1).drop_last() =~= s@.take(i as int));
        acc = acc * 10 + d;
        i += 1;
        if acc > SCALE as u64 {
            proof {
                lemma_digits_value_grows(s@, i as int);
            }
            return None;
        }
    }
    assert(s@.take(i as int) =~= s@);
    Some(acc)
}

/// Further digits never make the value of a digit string smaller.
proof fn lemma_digits_value_grows(s: Seq<u8>, k: int)
    requires
        0 <= k <= s.len(),
        all_digits(s),
    ensures
        digits_value(s.take(k)) <= digits_value(s),
    decreases s.len() - k,
{
    if k < s.len() {
        assert(s.take(k + 1).drop_last() =~= s.take(k));
        lemma_digits_value_grows(s, k + 1);
    } else {
        assert(s.take(k) =~= s);
    }
}

/// The value of the first nine decimal places.
fn places_value(s: &[u8]) -> (r: u64)
    requires
        all_digits(s@),
    ensures
        r == digits_value(nine_places(s@)),
        r < SCALE,
{
    let ghost places = nine_places(s@);
    let mut acc: u64 = 0;
    let mut k: usize = 0;
    while k < 9
        invariant
            k <= 9,
            all_digits(s@),
            places == nine_places(s@),
            all_digits(places),
            acc == digits_value(places.take(k as int)),
            acc < pow10(k as nat),
        decreases 9 - k,
    {
        let d: u64 = if k < s.len() {
            (s[k] - ZERO) as u64
        } else {
            0
        };
        proof {
            assert(places.take(k + 1).drop_last() =~= places.take(k as int));
            lemma_pow10_increases(k as nat, 8);
            lemma_pow10_nine();
        }
        acc = acc * 10 + d;
        k += 1;
    }
    proof {
        assert(places.take(9) =~= places);
        lemma_pow10_nine();
    }
    acc
}

/// Reads one numeral.
///
/// Succeeds exactly on the numerals whose value is in range, and says of any
/// other token whether it is no numeral or a numeral too large.
pub fn parse_number(token: &[u8]) -> (r: Result<Fixed, ParseError>)
    ensures
        match r {
            Ok(v) => read_token(token@) == Ok::<int, ParseError>(v@),
            Err(e) => read_token(token@) == Err::<int, ParseError>(e),
        },
{
    let len = token.len();
    let signed = len > 0 && (token[0] == PLUS || token[0] == MINUS);
    let negative = len > 0 && token[0] == MINUS;
    let start: usize = if signed {
        1
    } else {
        0
    };
    let body = slice_subrange(token, start, len);
    assert(body@ =~= unsigned_part(token@));
    let p = find_byte(body, POINT);
    let whole = slice_subrange(body, 0, p);
    let places = if p < body.len() {
        slice_subrange(body, p + 1, body.len())
    } else {
        slice_subrange(body, p, p)
    };
    assert(places@ =~= decimal_digits(body@));
    if whole.len() == 0 && places.len() == 0 {
        return Err(ParseError::Malformed);
    }
    if !only_digits(whole) || !only_digits(places) {
        return Err(ParseError::Malformed);
    }
    let fraction = places_value(places);
    match whole_value(whole) {
        None => Err(ParseError::OutOfRange),
        Some(units) => {
            let total: u64 = units * (SCALE as u64) + fraction;
            if total > LIMIT as u64 {
                Err(ParseError::OutOfRange)
            } else if negative {
                Ok(Fixed::from_bounded(-(total as i64)))
            } else {
                Ok(Fixed::from_bounded(total as i64))
            }
        },
    }
}

/// What reading the field at position `i` of a line gives.
pub open spec fn read_field(line: Seq<u8>, i: int) -> Result<int, ParseError> {
    read_token(trimmed(fields(line)[i]))
}

/// Reads a line of numerals separated by commas.
///
/// Succeeds exactly when every field, without the blanks around it, is a
/// numeral in range, and then gives the numbers in the order of the fields.
/// Otherwise names the first field that could not be read; nothing of such a
/// line is accepted.
pub fn parse_line(line: &[u8]) -> (r: Result<Vec<Fixed>, LineError>)
    ensures
        match r {
            Ok(v) => {
                &&& v@.len() == fields(line@).len()
                &&& forall|i: int|
                    0 <= i < v@.len() ==> read_field(line@, i) == Ok::<int, ParseError>(
                        #[trigger] v@[i]@,
                    )
            },
            Err(e) => {
                &&& e.field < fields(line@).len()
                &&& read_field(line@, e.field as int) == Err::<int, ParseError>(e.kind)
                &&& forall|j: int| 0 <= j < e.field ==> (#[trigger] read_field(line@, j)) is Ok
            },
        },
{
    let mut out: Vec<Fixed> = Vec::new();
    let mut start: usize = 0;
    let ghost mut done: Seq<Seq<u8>> = Seq::empty();
    assert(line@.skip(0) =~= line@);
    loop
        invariant
            start <= line@.len(),
            done.len() == out@.len(),
            fields(line@) =~= done + fields(line@.skip(start as int)),
            forall|i: int|
                0 <= i < out@.len() ==> read_token(trimmed(#[trigger] done[i])) == Ok::<
                    int,
                    ParseError,
                >(out@[i]@),
        decreases line@.len() - start,
    {
        let rest = slice_subrange(line, start, line.len());
        let p = find_byte(rest, COMMA);
        let field = slice_subrange(rest, 0, p);
        assert(fields(rest@)[0] == field@);
        match parse_number(trim(field)) {
            Err(kind) => {
                return Err(LineError { field: out.len(), kind });
            },
            Ok(v) => {
                out.push(v);
                proof {
                    done = done.push(field@);
                }
            },
        }
        if p >= rest.len() {
            return Ok(out);
        }
        assert(rest@.skip(p + 1) =~= line@.skip(start + p + 1));
        start = start + p + 1;
    }
}

} // verus!
