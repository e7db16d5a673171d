//! Exact fixed-point decimals.
//!
//! A [`Decimal`] counts billionths of a unit: a billionth of a degree for a
//! coordinate (about a tenth of a millimetre on the ground), a billionth of a
//! metre for a height or a radius. Decimal text is read and written without
//! any rounding but the cut after the ninth fractional digit.
//!
//! Decimal text is what is commonly written for a number: a sign, digits with
//! or without a decimal point, and an exponent of ten. What a `Decimal` cannot
//! hold is refused: a number beyond about nine thousand million, and the
//! spellings of infinity and of "not a number".

use vstd::prelude::*;
use crate::text::{chars_of, find, lemma_find, lemma_find_is, string_of};

verus! {

/// Billionths in one unit.
pub const NANOS: i64 = 1_000_000_000;

/// A fixed-point number: `nanos` billionths of a unit.
#[derive(Clone, Copy, Debug, PartialEq, Eq, Structural)]
pub struct Decimal {
    pub nanos: i64,
}

/// Whether `c` is one of the ten ASCII digits.
pub open spec fn is_digit(c: char) -> bool {
    '0' <= c <= '9'
}

/// The number that a digit stands for.
pub open spec fn digit_value(c: char) -> int {
    c as int - 48
}

/// The digit that stands for a number from zero to nine.
pub open spec fn digit_char(d: int) -> char {
    ((d + 48) as u8) as char
}

/// Whether `s` holds digits only.
pub open spec fn all_digits(s: Seq<char>) -> bool {
    forall|i: int| 0 <= i < s.len() ==> is_digit(s[i])
}

/// The number that a run of digits writes in base ten; zero for no digits.
pub open spec fn digits_value(s: Seq<char>) -> int
    decreases s.len(),
{
    if s.len() == 0 {
        0
    } else {
        digits_value(s.drop_last()) * 10 + digit_value(s.last())
    }
}

/// The first `n` of the digits, zeros standing for those that are not there;
/// no digits where `n` is not positive.
pub open spec fn shifted(digits: Seq<char>, n: int) -> Seq<char> {
    if n <= 0 {
        Seq::empty()
    } else {
        Seq::new(
            n as nat,
            |i: int|
                if i < digits.len() {
                    digits[i]
                } else {
                    '0'
                },
        )
    }
}

/// Whether `s` begins with a plus or minus sign.
pub open spec fn has_sign(s: Seq<char>) -> bool {
    s.len() > 0 && (s[0] == '-' || s[0] == '+')
}

/// Whether `s` begins with a minus sign.
pub open spec fn is_negative(s: Seq<char>) -> bool {
    s.len() > 0 && s[0] == '-'
}

/// The text after the sign, if there is one.
pub open spec fn unsigned_part(s: Seq<char>) -> Seq<char> {
    if has_sign(s) {
        s.skip(1)
    } else {
        s
    }
}

/// Index of the first `e` or `E` in `body`, or its length where there is
/// none.
pub open spec fn mark_index(body: Seq<char>) -> int {
    if find(body, 'e') <= find(body, 'E') {
        find(body, 'e')
    } else {
        find(body, 'E')
    }
}

/// Whether the text has an exponent: an `e` or `E` after the sign.
pub open spec fn has_exponent(s: Seq<char>) -> bool {
    mark_index(unsigned_part(s)) < unsigned_part(s).len()
}

/// The text between the sign and the exponent.
pub open spec fn mantissa_part(s: Seq<char>) -> Seq<char> {
    unsigned_part(s).take(mark_index(unsigned_part(s)))
}

/// The text after the `e` or `E` of the exponent.
pub open spec fn exponent_part(s: Seq<char>) -> Seq<char> {
    unsigned_part(s).skip(mark_index(unsigned_part(s)) + 1)
}

/// The digits before the decimal point.
pub open spec fn whole_part(s: Seq<char>) -> Seq<char> {
    mantissa_part(s).take(find(mantissa_part(s), '.'))
}

/// The digits after the decimal point; none where there is no point.
pub open spec fn fraction_part(s: Seq<char>) -> Seq<char> {
    let mantissa = mantissa_part(s);
    let dot = find(mantissa, '.');
    if dot < mantissa.len() {
        mantissa.skip(dot + 1)
    } else {
        Seq::empty()
    }
}

/// What may follow the `e` of an exponent: an optional sign and at least one
/// digit, digits only.
pub open spec fn is_exponent_text(e: Seq<char>) -> bool {
    unsigned_part(e).len() > 0 && all_digits(unsigned_part(e))
}

/// The whole number that the text of an exponent writes.
pub open spec fn signed_digits_value(e: Seq<char>) -> int {
    if is_negative(e) {
        -digits_value(unsigned_part(e))
    } else {
        digits_value(unsigned_part(e))
    }
}

/// The exponent of ten; zero where the text has none.
pub open spec fn exponent_value(s: Seq<char>) -> int {
    if has_exponent(s) {
        signed_digits_value(exponent_part(s))
    } else {
        0
    }
}

/// Decimal text is an optional sign; digits, with or without a point among
/// them, before them or after them, at least one digit in all; and
/// optionally an exponent: `e` or `E`, an optional sign, and digits. There is
/// no spelling of infinity.
pub open spec fn is_decimal_text(s: Seq<char>) -> bool {
    &&& all_digits(whole_part(s))
    &&& all_digits(fraction_part(s))
    &&& whole_part(s).len() + fraction_part(s).len() > 0
    &&& has_exponent(s) ==> is_exponent_text(exponent_part(s))
}

/// The billionths that decimal text denotes, the sign set aside: the number
/// that its digits write with the point moved nine places to the right and
/// as many more as the exponent says, or to the left for a negative one.
/// Digits that then still stand after the point are cut off.
pub open spec fn magnitude(s: Seq<char>) -> int {
    digits_value(
        shifted(
            whole_part(s) + fraction_part(s),
            whole_part(s).len() + 9 + exponent_value(s),
        ),
    )
}

/// The billionths that decimal text denotes, with their sign.
pub open spec fn signed_value(s: Seq<char>) -> int {
    if is_negative(s) {
        -magnitude(s)
    } else {
        magnitude(s)
    }
}

/// The billionths that `s` denotes, where `s` is decimal text whose value a
/// `Decimal` can hold.
pub open spec fn parse_decimal(s: Seq<char>) -> Option<int> {
    if is_decimal_text(s) && i64::MIN <= signed_value(s) <= i64::MAX {
        Some(signed_value(s))
    } else {
        None
    }
}

/// Ten to the power `n`.
pub open spec fn pow10(n: nat) -> int
    decreases n,
{
    if n == 0 {
        1
    } else {
        10 * pow10((n - 1) as nat)
    }
}

/// A run of digits denotes a natural number.
pub proof fn lemma_digits_value_bounds(s: Seq<char>)
    requires
        all_digits(s),
    ensures
        0 <= digits_value(s),
    decreases s.len(),
{
    if s.len() > 0 {
        assert(is_digit(s.last()));
        lemma_digits_value_bounds(s.drop_last());
    }
}

/// One more place: the number is ten times as large, and the next digit, or
/// zero where the digits have run out, is added.
pub proof fn lemma_shifted_step(digits: Seq<char>, n: int)
    requires
        0 <= n,
    ensures
        digits_value(shifted(digits, n + 1)) == digits_value(shifted(digits, n)) * 10 + if n
            < digits.len() {
            digit_value(digits[n])
        } else {
            0
        },
{
    let longer = shifted(digits, n + 1);
    assert(longer.drop_last() =~= shifted(digits, n));
}

/// More places denote no smaller a number.
pub proof fn lemma_shifted_grows(digits: Seq<char>, a: int, b: int)
    requires
        all_digits(digits),
        0 <= a <= b,
    ensures
        0 <= digits_value(shifted(digits, a)) <= digits_value(shifted(digits, b)),
    decreases b - a,
{
    if a == b {
        assert forall|i: int| 0 <= i < shifted(digits, a).len() implies is_digit(
            shifted(digits, a)[i],
        ) by {
            if i < digits.len() {
                assert(is_digit(digits[i]));
            }
        }
        lemma_digits_value_bounds(shifted(digits, a));
    } else {
        lemma_shifted_grows(digits, a + 1, b);
        lemma_shifted_grows(digits, a, a);
        lemma_shifted_step(digits, a);
        if a < digits.len() {
            assert(is_digit(digits[a]));
        }
    }
}

/// Where the digits have run out and denote zero, more places denote zero.
pub proof fn lemma_shifted_zero(digits: Seq<char>, a: int, b: int)
    requires
        digits.len() <= a <= b,
        digits_value(shifted(digits, a)) == 0,
    ensures
        digits_value(shifted(digits, b)) == 0,
    decreases b - a,
{
    if a < b {
        lemma_shifted_step(digits, a);
        lemma_shifted_zero(digits, a + 1, b);
    }
}

fn digit_of(c: char) -> (d: Option<u8>)
    ensures
        d is Some == is_digit(c),
        d is Some ==> d->0 == digit_value(c) && d->0 <= 9,
{
    if '0' <= c && c <= '9' {
        let code: u8 = c as u8;
        Some(code - 48)
    } else {
        None
    }
}

fn digits_in(s: &Vec<char>, from: usize, to: usize) -> (ok: bool)
    requires
        from <= to <= s.len(),
    ensures
        ok == all_digits(s@.subrange(from as int, to as int)),
{
    let mut i: usize = from;
    while i < to
        invariant
            from <= i <= to <= s.len(),
            forall|j: int| from <= j < i ==> is_digit(s@[j]),
        decreases to - i,
    {
        if digit_of(s[i]).is_none() {
            assert(!is_digit(s@.subrange(from as int, to as int)[i - from]));
            return false;
        }
        i += 1;
    }
    assert forall|j: int| 0 <= j < to - from implies is_digit(
        #[trigger] s@.subrange(from as int, to as int)[j],
    ) by {
        assert(is_digit(s@[from + j]));
    }
    true
}

/// `v`, or the nearest of `-limit` and `limit` where `v` lies beyond them.
pub open spec fn clamped(v: int, limit: int) -> int {
    if v > limit {
        limit
    } else if v < -limit {
        -limit
    } else {
        v
    }
}

/// The whole number that the text in `from..` writes as an exponent, brought
/// within a million million million million millions of zero; nothing where
/// the text is no exponent.
fn read_exponent(s: &Vec<char>, from: usize) -> (exponent: Option<i128>)
    requires
        from <= s.len(),
    ensures
        exponent is Some == is_exponent_text(s@.subrange(from as int, s.len() as int)),
        exponent is Some ==> exponent->0 == clamped(
            signed_digits_value(s@.subrange(from as int, s.len() as int)),
            1_000_000_000_000_000_000_000_000_000_000,
        ),
{
    let n = s.len();
    let ghost text = s@.subrange(from as int, n as int);
    let signed = from < n && (s[from] == '-' || s[from] == '+');
    let negative = from < n && s[from] == '-';
    let begin: usize = if signed {
        from + 1
    } else {
        from
    };
    assert(unsigned_part(text) =~= s@.subrange(begin as int, n as int));
    assert(is_negative(text) == negative);
    if begin == n || !digits_in(s, begin, n) {
        return None;
    }
    let ghost run = s@.subrange(begin as int, n as int);
    let mut acc: i128 = 0;
    let mut i: usize = begin;
    assert(s@.subrange(begin as int, begin as int) =~= Seq::<char>::empty());
    while i < n
        invariant
            begin <= i <= n,
            n == s.len(),
            run == s@.subrange(begin as int, n as int),
            all_digits(run),
            0 <= digits_value(s@.subrange(begin as int, i as int)),
            acc == clamped(
                digits_value(s@.subrange(begin as int, i as int)),
                1_000_000_000_000_000_000_000_000_000_000,
            ),
        decreases n - i,
    {
        let ghost shorter = s@.subrange(begin as int, i as int);
        let ghost longer = s@.subrange(begin as int, i + 1);
        assert(is_digit(run[i - begin]));
        let d = digit_of(s[i]).unwrap();
        proof {
            assert(longer.drop_last() =~= shorter);
            assert(longer.last() == s@[i as int]);
            assert(digits_value(longer) == digits_value(shorter) * 10 + d);
        }
        let next: i128 = acc * 10 + d as i128;
        acc = if next > 1_000_000_000_000_000_000_000_000_000_000 {
            1_000_000_000_000_000_000_000_000_000_000
        } else {
            next
        };
        i += 1;
    }
    assert(s@.subrange(begin as int, i as int) =~= run);
    if negative {
        Some(-acc)
    } else {
        Some(acc)
    }
}

/// The number that the digits in `begin..dot` and `rest..mark` write, one
/// run after the other, cut or filled up with zeros to `places` places;
/// nothing where that is more than ten million million millions. `places`
/// may stand for a number of places that is still larger, or still further
/// below zero, than itself.
fn shifted_value(
    s: &Vec<char>,
    begin: usize,
    dot: usize,
    rest: usize,
    mark: usize,
    places: i128,
    Ghost(wanted): Ghost<int>,
) -> (value: Option<u128>)
    requires
        begin <= dot <= rest <= mark <= s.len(),
        all_digits(s@.subrange(begin as int, dot as int)),
        all_digits(s@.subrange(rest as int, mark as int)),
        -2_000_000_000_000_000_000_000_000_000_000 <= places
            <= 2_000_000_000_000_000_000_000_000_000_000,
        places == wanted || (places <= 0 && wanted <= 0) || (
        1_000_000_000_000_000_000_000_000_000_000 <= places <= wanted),
    ensures
        match value {
            Some(v) => v == digits_value(
                shifted(
                    s@.subrange(begin as int, dot as int) + s@.subrange(rest as int, mark as int),
                    wanted,
                ),
            ) && v <= 10_000_000_000_000_000_000,
            None => digits_value(
                shifted(
                    s@.subrange(begin as int, dot as int) + s@.subrange(rest as int, mark as int),
                    wanted,
                ),
            ) > 10_000_000_000_000_000_000,
        },
{
    let ghost digits = s@.subrange(begin as int, dot as int) + s@.subrange(
        rest as int,
        mark as int,
    );
    assert forall|j: int| 0 <= j < digits.len() implies is_digit(digits[j]) by {
        if j < dot - begin {
            assert(is_digit(s@.subrange(begin as int, dot as int)[j]));
        } else {
            assert(is_digit(s@.subrange(rest as int, mark as int)[j - (dot - begin)]));
        }
    }
    if places <= 0 {
        return Some(0);
    }
    let whole: usize = dot - begin;
    let count: usize = whole + (mark - rest);
    let mut acc: u128 = 0;
    let mut i: usize = 0;
    while i < count && (i as i128) < places
        invariant
            i <= count,
            i <= places,
            begin <= dot <= rest <= mark <= s.len(),
            whole == dot - begin,
            count == whole + (mark - rest),
            digits == s@.subrange(begin as int, dot as int) + s@.subrange(
                rest as int,
                mark as int,
            ),
            all_digits(digits),
            places <= wanted,
            acc == digits_value(shifted(digits, i as int)),
            acc <= 10_000_000_000_000_000_000,
        decreases count - i,
    {
        let c = if i < whole {
            s[begin + i]
        } else {
            s[rest + (i - whole)]
        };
        assert(c == digits[i as int]);
        assert(is_digit(digits[i as int]));
        let d = digit_of(c).unwrap();
        proof {
            lemma_shifted_step(digits, i as int);
        }
        let next: u128 = acc * 10 + d as u128;
        if next > 10_000_000_000_000_000_000 {
            proof {
                lemma_shifted_grows(digits, i + 1, wanted);
            }
            return None;
        }
        acc = next;
        i += 1;
    }
    if (i as i128) == places {
        return Some(acc);
    }
    if acc == 0 {
        proof {
            lemma_shifted_zero(digits, count as int, wanted);
        }
        return Some(0);
    }
    let mut more: u8 = 0;
    let mut floor: u128 = 1;
    while (count as i128) + (more as i128) < places
        invariant
            more <= 20,
            begin <= dot <= rest <= mark <= s.len(),
            digits == s@.subrange(begin as int, dot as int) + s@.subrange(
                rest as int,
                mark as int,
            ),
            count == digits.len(),
            all_digits(digits),
            count + more <= places <= wanted,
            places == wanted || 1_000_000_000_000_000_000_000_000_000_000 <= places,
            acc == digits_value(shifted(digits, count + more)),
            floor == pow10(more as nat),
            floor <= acc <= 10_000_000_000_000_000_000,
        decreases 20 - more,
    {
        proof {
            lemma_shifted_step(digits, count + more);
            reveal_with_fuel(pow10, 22);
        }
        let next: u128 = acc * 10;
        if next > 10_000_000_000_000_000_000 {
            proof {
                lemma_shifted_grows(digits, count + more + 1, wanted);
            }
            return None;
        }
        acc = next;
        floor = floor * 10;
        more = more + 1;
    }
    Some(acc)
}

/// Where the parts of decimal text lie: the sign, if any, stands before
/// `begin`, the first `e` or `E` after it at `mark`, and the first point
/// between them at `dot`, each at the end of its stretch where there is none.
proof fn lemma_parts(s: Seq<char>, begin: int, mark: int, dot: int)
    requires
        begin == if has_sign(s) {
            1int
        } else {
            0int
        },
        begin <= dot <= mark <= s.len(),
        forall|j: int| begin <= j < mark ==> s[j] != 'e' && s[j] != 'E',
        mark < s.len() ==> s[mark] == 'e' || s[mark] == 'E',
        forall|j: int| begin <= j < dot ==> s[j] != '.',
        dot < mark ==> s[dot] == '.',
    ensures
        whole_part(s) == s.subrange(begin, dot),
        fraction_part(s) == if dot < mark {
            s.subrange(dot + 1, mark)
        } else {
            s.subrange(mark, mark)
        },
        has_exponent(s) == (mark < s.len()),
        mark < s.len() ==> exponent_part(s) == s.subrange(mark + 1, s.len() as int),
{
    let body = unsigned_part(s);
    assert(body =~= s.skip(begin));
    lemma_find(body, 'e');
    lemma_find(body, 'E');
    if mark < s.len() {
        if s[mark] == 'e' {
            lemma_find_is(body, 'e', mark - begin);
            if find(body, 'E') < mark - begin {
                assert(body[find(body, 'E')] == 'E');
            }
        } else {
            lemma_find_is(body, 'E', mark - begin);
            if find(body, 'e') < mark - begin {
                assert(body[find(body, 'e')] == 'e');
            }
        }
    } else {
        lemma_find_is(body, 'e', mark - begin);
        lemma_find_is(body, 'E', mark - begin);
    }
    assert(mark_index(body) == mark - begin);
    let mantissa = mantissa_part(s);
    assert(mantissa =~= s.subrange(begin, mark));
    lemma_find_is(mantissa, '.', dot - begin);
    assert(whole_part(s) =~= s.subrange(begin, dot));
    if dot < mark {
        assert(fraction_part(s) =~= s.subrange(dot + 1, mark));
    } else {
        assert(fraction_part(s) =~= s.subrange(mark, mark));
    }
    if mark < s.len() {
        assert(exponent_part(s) =~= s.subrange(mark + 1, s.len() as int));
    }
}

impl Decimal {
    /// What reading `s` gives: the decimal that `s` denotes, or nothing where
    /// `s` is not decimal text or denotes more than a `Decimal` can hold.
    pub open spec fn parsed(s: Seq<char>) -> Option<Decimal> {
        match parse_decimal(s) {
            Some(v) => Some(Decimal { nanos: v as i64 }),
            None => None,
        }
    }

    /// Reads decimal text.
    pub fn parse(text: &str) -> (r: Option<Decimal>)
        ensures
            r == Decimal::parsed(text@),
    {
        let s = chars_of(text);
        Decimal::parse_chars(&s)
    }

    /// Reads decimal text given as characters.
    pub fn parse_chars(s: &Vec<char>) -> (r: Option<Decimal>)
        ensures
            r == Decimal::parsed(s@),
    {
        let n = s.len();
        let signed = n > 0 && (s[0] == '-' || s[0] == '+');
        let negative = n > 0 && s[0] == '-';
        let begin: usize = if signed {
            1
        } else {
            0
        };
        let mut mark: usize = begin;
        while mark < n && s[mark] != 'e' && s[mark] != 'E'
            invariant
                begin <= mark <= n,
                n == s.len(),
                forall|j: int| begin <= j < mark ==> s@[j] != 'e' && s@[j] != 'E',
            decreases n - mark,
        {
            mark += 1;
        }
        let mut dot: usize = begin;
        while dot < mark && s[dot] != '.'
            invariant
                begin <= dot <= mark <= n,
                n == s.len(),
                forall|j: int| begin <= j < dot ==> s@[j] != '.',
            decreases mark - dot,
        {
            dot += 1;
        }
        let rest: usize = if dot < mark {
            dot + 1
        } else {
            mark
        };
        proof {
            lemma_parts(s@, begin as int, mark as int, dot as int);
        }
        if !digits_in(s, begin, dot) || !digits_in(s, rest, mark) || (dot - begin) + (mark - rest)
            == 0 {
            return None;
        }
        let exponent: i128 = if mark < n {
            match read_exponent(s, mark + 1) {
                None => {
                    return None;
                },
                Some(exponent) => exponent,
            }
        } else {
            0
        };
        let places: i128 = (dot - begin) as i128 + 9 + exponent;
        let ghost wanted = whole_part(s@).len() + 9 + exponent_value(s@);
        let size: i128 = match shifted_value(s, begin, dot, rest, mark, places, Ghost(wanted)) {
            None => {
                return None;
            },
            Some(size) => size as i128,
        };
        let value: i128 = if negative {
            -size
        } else {
            size
        };
        if value < i64::MIN as i128 || value > i64::MAX as i128 {
            None
        } else {
            Some(Decimal { nanos: value as i64 })
        }
    }
}

/// The digits of `n` in base ten, without leading zeros; `0` for zero.
pub open spec fn digits_of(n: nat) -> Seq<char>
    decreases n,
{
    if n < 10 {
        seq![digit_char(n as int)]
    } else {
        digits_of(n / 10).push(digit_char((n % 10) as int))
    }
}

/// The last `width` digits of `n` in base ten, leading zeros included.
pub open spec fn fixed_digits(n: nat, width: nat) -> Seq<char>
    decreases width,
{
    if width == 0 {
        Seq::empty()
    } else {
        fixed_digits(n / 10, (width - 1) as nat).push(digit_char((n % 10) as int))
    }
}

/// `s` without the zeros at its end.
pub open spec fn trim_zeros(s: Seq<char>) -> Seq<char>
    decreases s.len(),
{
    if s.len() > 0 && s.last() == '0' {
        trim_zeros(s.drop_last())
    } else {
        s
    }
}

/// The shortest decimal text of `nanos` billionths: a minus sign for a
/// negative number, the whole part, and, unless the fraction is zero, a point
/// and the fraction up to its last digit that is not zero.
pub open spec fn decimal_text(nanos: int) -> Seq<char> {
    let size = if nanos < 0 {
        -nanos
    } else {
        nanos
    };
    let sign = if nanos < 0 {
        seq!['-']
    } else {
        Seq::<char>::empty()
    };
    let fraction = size % (NANOS as int);
    let tail = if fraction == 0 {
        Seq::<char>::empty()
    } else {
        seq!['.'] + trim_zeros(fixed_digits(fraction as nat, 9))
    };
    sign + digits_of((size / (NANOS as int)) as nat) + tail
}

fn char_of_digit(d: u64) -> (c: char)
    requires
        d <= 9,
    ensures
        c == digit_char(d as int),
{
    let code: u8 = d as u8 + 48;
    code as char
}

fn push_digits(out: &mut Vec<char>, n: u128)
    ensures
        final(out)@ == old(out)@ + digits_of(n as nat),
    decreases n,
{
    if n >= 10 {
        push_digits(out, n / 10);
    }
    out.push(char_of_digit((n % 10) as u64));
    assert(out@ =~= old(out)@ + digits_of(n as nat));
}

fn push_fixed_digits(out: &mut Vec<char>, n: u64, width: usize)
    ensures
        final(out)@ == old(out)@ + fixed_digits(n as nat, width as nat),
    decreases width,
{
    if width > 0 {
        push_fixed_digits(out, n / 10, width - 1);
        out.push(char_of_digit(n % 10));
    }
    assert(out@ =~= old(out)@ + fixed_digits(n as nat, width as nat));
}

fn pop_zeros(digits: &mut Vec<char>)
    ensures
        final(digits)@ == trim_zeros(old(digits)@),
    decreases old(digits).len(),
{
    if digits.len() > 0 && digits[digits.len() - 1] == '0' {
        digits.pop();
        assert(digits@ =~= old(digits)@.drop_last());
        pop_zeros(digits);
    }
}

fn append_chars(out: &mut Vec<char>, more: &Vec<char>)
    ensures
        final(out)@ == old(out)@ + more@,
{
    let mut i: usize = 0;
    assert(out@ =~= old(out)@ + more@.take(0));
    while i < more.len()
        invariant
            i <= more.len(),
            out@ == old(out)@ + more@.take(i as int),
        decreases more.len() - i,
    {
        out.push(more[i]);
        i += 1;
        assert(out@ =~= old(out)@ + more@.take(i as int));
    }
    assert(more@.take(more.len() as int) =~= more@);
}

/// The digits of `n` in base ten.
pub fn u128_text(n: u128) -> (text: String)
    ensures
        text@ == digits_of(n as nat),
{
    let mut out: Vec<char> = Vec::new();
    push_digits(&mut out, n);
    assert(out@ =~= digits_of(n as nat));
    string_of(&out)
}

impl Decimal {
    /// The shortest decimal text of this number.
    pub fn to_text(&self) -> (text: String)
        ensures
            text@ == decimal_text(self.nanos as int),
    {
        let mut out: Vec<char> = Vec::new();
        let size: u64 = if self.nanos < 0 {
            out.push('-');
            if self.nanos == i64::MIN {
                9_223_372_036_854_775_808
            } else {
                (-self.nanos) as u64
            }
        } else {
            self.nanos as u64
        };
        let ghost sign = out@;
        push_digits(&mut out, (size / 1_000_000_000) as u128);
        let fraction = size % 1_000_000_000;
        if fraction != 0 {
            out.push('.');
            let mut digits: Vec<char> = Vec::new();
            push_fixed_digits(&mut digits, fraction, 9);
            assert(digits@ =~= fixed_digits(fraction as nat, 9));
            pop_zeros(&mut digits);
            append_chars(&mut out, &digits);
        }
        assert(out@ =~= decimal_text(self.nanos as int));
        string_of(&out)
    }
}

/// The digits of a number are digits, at least one, and write that number.
pub proof fn lemma_digits_of(n: nat)
    ensures
        all_digits(digits_of(n)),
        digits_of(n).len() >= 1,
        digits_value(digits_of(n)) == n,
    decreases n,
{
    if n < 10 {
        let one = digits_of(n);
        assert(one.drop_last() =~= Seq::<char>::empty());
        assert(digits_value(one.drop_last()) == 0);
    } else {
        lemma_digits_of(n / 10);
        let all = digits_of(n);
        assert(all.drop_last() =~= digits_of(n / 10));
        assert forall|i: int| 0 <= i < all.len() implies is_digit(all[i]) by {
            if i < all.len() - 1 {
                assert(all[i] == digits_of(n / 10)[i]);
            }
        }
    }
}

/// The last `width` digits of a number are digits, `width` of them, and
/// write the number itself where it is below ten to the `width`.
pub proof fn lemma_fixed_digits(n: nat, width: nat)
    ensures
        all_digits(fixed_digits(n, width)),
        fixed_digits(n, width).len() == width,
        n < pow10(width) ==> digits_value(fixed_digits(n, width)) == n,
    decreases width,
{
    if width > 0 {
        lemma_fixed_digits(n / 10, (width - 1) as nat);
        let all = fixed_digits(n, width);
        let before = fixed_digits(n / 10, (width - 1) as nat);
        assert(all.drop_last() =~= before);
        assert forall|i: int| 0 <= i < all.len() implies is_digit(all[i]) by {
            if i < all.len() - 1 {
                assert(all[i] == before[i]);
            }
        }
    }
}

/// Cutting the zeros off the end leaves a beginning of the digits, and what
/// was cut off are zeros.
pub proof fn lemma_trim_zeros(s: Seq<char>)
    ensures
        trim_zeros(s).len() <= s.len(),
        forall|i: int| 0 <= i < trim_zeros(s).len() ==> trim_zeros(s)[i] == s[i],
        forall|i: int| trim_zeros(s).len() <= i < s.len() ==> s[i] == '0',
    decreases s.len(),
{
    if s.len() > 0 && s.last() == '0' {
        let shorter = s.drop_last();
        lemma_trim_zeros(shorter);
        let cut = trim_zeros(s);
        assert(cut == trim_zeros(shorter));
        assert forall|i: int| 0 <= i < cut.len() implies cut[i] == s[i] by {
            assert(cut[i] == shorter[i]);
            assert(shorter[i] == s[i]);
        }
        assert forall|i: int| cut.len() <= i < s.len() implies s[i] == '0' by {
            if i < shorter.len() {
                assert(shorter[i] == s[i]);
            }
        }
    }
}

/// Digits one run after another write the number of the first run, moved up
/// by as many places as the second has, plus the number of the second.
pub proof fn lemma_digits_value_concat(a: Seq<char>, b: Seq<char>)
    ensures
        digits_value(a + b) == digits_value(a) * pow10(b.len()) + digits_value(b),
    decreases b.len(),
{
    if b.len() == 0 {
        assert(a + b =~= a);
    } else {
        lemma_digits_value_concat(a, b.drop_last());
        assert((a + b).drop_last() =~= a + b.drop_last());
        assert((a + b).last() == b.last());
        let x = digits_value(a);
        let p = pow10(b.drop_last().len());
        assert(pow10(b.len()) == 10 * p);
        assert((x * p) * 10 == x * (10 * p)) by (nonlinear_arith);
    }
}

/// The text of a decimal reads back as the same decimal.
pub proof fn lemma_text_reads_back(nanos: int)
    requires
        i64::MIN <= nanos <= i64::MAX,
    ensures
        parse_decimal(decimal_text(nanos)) == Some(nanos),
{
    let size = if nanos < 0 {
        -nanos
    } else {
        nanos
    };
    let sign = if nanos < 0 {
        seq!['-']
    } else {
        Seq::<char>::empty()
    };
    let whole = digits_of((size / 1_000_000_000) as nat);
    let fraction = size % 1_000_000_000;
    let nine = fixed_digits(fraction as nat, 9);
    let cut = trim_zeros(nine);
    let tail = if fraction == 0 {
        Seq::<char>::empty()
    } else {
        seq!['.'] + cut
    };
    let text = decimal_text(nanos);
    assert(text == sign + whole + tail);
    lemma_digits_of((size / 1_000_000_000) as nat);
    assert(pow10(9) == 1_000_000_000) by {
        reveal_with_fuel(pow10, 10);
    }
    lemma_fixed_digits(fraction as nat, 9);
    lemma_trim_zeros(nine);
    assert(is_digit(whole[0]));
    let body = whole + tail;
    if nanos < 0 {
        assert(text[0] == '-');
        assert(text.skip(1) =~= body);
    } else {
        assert(text =~= body);
        assert(text[0] == whole[0]);
    }
    assert(unsigned_part(text) == body);
    assert(is_negative(text) == (nanos < 0));
    assert forall|j: int| 0 <= j < body.len() implies body[j] != 'e' && body[j] != 'E' by {
        if j < whole.len() {
            assert(is_digit(whole[j]));
        } else if j > whole.len() {
            assert(body[j] == cut[j - whole.len() - 1]);
            assert(is_digit(nine[j - whole.len() - 1]));
        }
    }
    lemma_find_is(body, 'e', body.len() as int);
    lemma_find_is(body, 'E', body.len() as int);
    assert(mantissa_part(text) =~= body);
    assert(!has_exponent(text));
    assert forall|j: int| 0 <= j < whole.len() implies body[j] != '.' by {
        assert(is_digit(whole[j]));
    }
    if fraction != 0 {
        assert(body[whole.len() as int] == '.');
    }
    lemma_find_is(body, '.', whole.len() as int);
    assert(whole_part(text) =~= whole);
    let after = fraction_part(text);
    if fraction == 0 {
        assert(after =~= Seq::<char>::empty());
        assert(digits_value(nine) == 0);
        assert(cut.len() == 0) by {
            lemma_nothing_but_zeros(nine);
        }
    } else {
        assert(after =~= cut);
    }
    assert(after =~= cut);
    assert forall|i: int| 0 <= i < after.len() implies is_digit(after[i]) by {
        assert(is_digit(nine[i]));
    }
    assert(shifted(whole + after, (whole.len() + 9) as int) =~= whole + nine);
    lemma_digits_value_concat(whole, nine);
    assert(magnitude(text) == size);
}

/// Digits that write zero are zeros, and nothing is left of them when the
/// zeros at their end are cut off.
pub proof fn lemma_nothing_but_zeros(s: Seq<char>)
    requires
        all_digits(s),
        digits_value(s) == 0,
    ensures
        trim_zeros(s).len() == 0,
    decreases s.len(),
{
    if s.len() > 0 {
        assert(is_digit(s.last()));
        assert forall|i: int| 0 <= i < s.drop_last().len() implies is_digit(s.drop_last()[i]) by {
            assert(s.drop_last()[i] == s[i]);
        }
        lemma_digits_value_bounds(s.drop_last());
        lemma_nothing_but_zeros(s.drop_last());
    }
}

} // verus!
