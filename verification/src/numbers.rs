//! Reading whole numbers.

use vstd::prelude::*;

use crate::text::{all_digits, are_digits, chars_of, decimal, decimal_reads_back, is_digit, number_of, signed_decimal};

verus! {

/// The digits of a number: what stands behind a sign, or everything.
pub open spec fn behind_sign(s: Seq<char>, sign: char) -> Seq<char> {
    if s.len() > 0 && s[0] == sign {
        s.skip(1)
    } else {
        s
    }
}

/// The number that a text stands for, where it is one from zero to `max`: an
/// optional plus sign, then digits and nothing else.
pub open spec fn unsigned_of(s: Seq<char>, max: nat) -> Option<nat> {
    let d = behind_sign(s, '+');
    if d.len() > 0 && all_digits(d) && number_of(d) <= max {
        Some(number_of(d))
    } else {
        None
    }
}

/// The number that a text stands for, where it is one of 64 bits: an optional
/// sign, then digits and nothing else.
pub open spec fn signed_of(s: Seq<char>) -> Option<int> {
    if s.len() > 0 && s[0] == '-' {
        let d = s.skip(1);
        if d.len() > 0 && all_digits(d) && number_of(d) <= 0x8000_0000_0000_0000nat {
            Some(-(number_of(d) as int))
        } else {
            None
        }
    } else {
        match unsigned_of(s, 0x7fff_ffff_ffff_ffffnat) {
            Some(n) => Some(n as int),
            None => None,
        }
    }
}

proof fn number_of_grows(s: Seq<char>, i: int)
    requires
        0 <= i <= s.len(),
        all_digits(s),
    ensures
        number_of(s.take(i)) <= number_of(s),
    decreases s.len(),
{
    if i < s.len() {
        let t = s.drop_last();
        assert forall|k: int| 0 <= k < t.len() implies is_digit(#[trigger] t[k]) by {
            assert(t[k] == s[k]);
        }
        number_of_grows(t, i);
        assert(t.take(i) =~= s.take(i));
        assert(is_digit(s[s.len() - 1]));
    } else {
        assert(s.take(i) =~= s);
    }
}

/// The number that digits stand for, where it is at most `max`.
fn read_digits(v: &Vec<char>, max: u64) -> (r: Option<u64>)
    requires
        all_digits(v@),
    ensures
        match r {
            Some(n) => number_of(v@) == n && n <= max,
            None => number_of(v@) > max,
        },
{
    let mut n: u64 = 0;
    let mut i: usize = 0;
    assert(v@.take(0) =~= Seq::<char>::empty());
    while i < v.len()
        invariant
            i <= v@.len(),
            all_digits(v@),
            n == number_of(v@.take(i as int)),
            n <= max,
        decreases v@.len() - i,
    {
        let c = v[i];
        assert(is_digit(v@[i as int]));
        assert(v@.take(i + 1).drop_last() =~= v@.take(i as int));
        assert(v@.take(i + 1).last() == c);
        let d: u128 = (c as u32 - 48) as u128;
        let next: u128 = n as u128 * 10 + d;
        assert(next == number_of(v@.take(i + 1)));
        if next > max as u128 {
            proof {
                number_of_grows(v@, i + 1);
            }
            return None;
        }
        n = next as u64;
        i = i + 1;
    }
    assert(v@.take(i as int) =~= v@);
    Some(n)
}

fn without_first(v: &Vec<char>) -> (r: Vec<char>)
    requires
        v@.len() > 0,
    ensures
        r@ == v@.skip(1),
{
    let mut out: Vec<char> = Vec::new();
    let mut i: usize = 1;
    while i < v.len()
        invariant
            1 <= i <= v@.len(),
            out@ == v@.subrange(1, i as int),
        decreases v@.len() - i,
    {
        out.push(v[i]);
        assert(out@ =~= v@.subrange(1, i + 1));
        i = i + 1;
    }
    assert(out@ =~= v@.skip(1));
    out
}

fn read_unsigned_chars(v: &Vec<char>, max: u64) -> (r: Option<u64>)
    ensures
        match r {
            Some(n) => unsigned_of(v@, max as nat) == Some(n as nat),
            None => unsigned_of(v@, max as nat) is None,
        },
{
    if v.len() > 0 && v[0] == '+' {
        let d = without_first(v);
        if d.len() == 0 || !are_digits(&d) {
            return None;
        }
        read_digits(&d, max)
    } else {
        if v.len() == 0 || !are_digits(v) {
            return None;
        }
        read_digits(v, max)
    }
}

/// Reads a whole number from zero to `max`.
pub fn read_unsigned(s: &str, max: u64) -> (r: Option<u64>)
    ensures
        match r {
            Some(n) => unsigned_of(s@, max as nat) == Some(n as nat) && n <= max,
            None => unsigned_of(s@, max as nat) is None,
        },
{
    let v = chars_of(s);
    read_unsigned_chars(&v, max)
}

/// Why a text is no whole number.
#[derive(Debug, Clone, Copy, PartialEq, Eq, Structural)]
pub enum NumberFault {
    /// There is nothing to read.
    Empty,
    /// A character is no digit.
    Digit,
    /// The number is too large.
    TooLarge,
}

/// What is said of a text that is no whole number.
pub open spec fn fault_text(fault: NumberFault) -> Seq<char> {
    match fault {
        NumberFault::Empty => "cannot parse integer from empty string"@,
        NumberFault::Digit => "invalid digit found in string"@,
        NumberFault::TooLarge => "number too large to fit in target type"@,
    }
}

impl NumberFault {
    /// What is said of the fault.
    pub fn message(&self) -> (r: &'static str)
        ensures
            r@ == fault_text(*self),
    {
        match self {
            NumberFault::Empty => "cannot parse integer from empty string",
            NumberFault::Digit => "invalid digit found in string",
            NumberFault::TooLarge => "number too large to fit in target type",
        }
    }
}

/// The first fault of digits from the `i`-th on: a character that is no digit,
/// or a number that has grown too large by then.
pub open spec fn digit_fault(d: Seq<char>, max: nat, i: int) -> Option<NumberFault>
    decreases d.len() - i,
{
    if i >= d.len() {
        None
    } else if !is_digit(d[i]) {
        Some(NumberFault::Digit)
    } else if number_of(d.take(i + 1)) > max {
        Some(NumberFault::TooLarge)
    } else {
        digit_fault(d, max, i + 1)
    }
}

/// What is wrong with a text that has to be a whole number from zero to `max`.
pub open spec fn number_fault(s: Seq<char>, max: nat) -> Option<NumberFault> {
    let d = behind_sign(s, '+');
    if s.len() == 0 {
        Some(NumberFault::Empty)
    } else if d.len() == 0 {
        Some(NumberFault::Digit)
    } else {
        digit_fault(d, max, 0)
    }
}

/// Reads a whole number from zero to `max`, or says what is wrong with it.
pub fn parse_unsigned(s: &str, max: u64) -> (r: Result<u64, NumberFault>)
    ensures
        match r {
            Ok(n) => number_fault(s@, max as nat) is None && number_of(behind_sign(s@, '+')) == n
                && n <= max,
            Err(e) => number_fault(s@, max as nat) == Some(e),
        },
{
    let v = chars_of(s);
    if v.len() == 0 {
        return Err(NumberFault::Empty);
    }
    let from: usize = if v[0] == '+' {
        1
    } else {
        0
    };
    let ghost d = behind_sign(s@, '+');
    assert(d =~= v@.skip(from as int));
    if from == v.len() {
        return Err(NumberFault::Digit);
    }
    let mut n: u64 = 0;
    let mut i: usize = from;
    assert(d.take(0) =~= Seq::<char>::empty());
    while i < v.len()
        invariant
            from <= i <= v@.len(),
            from <= 1,
            d == v@.skip(from as int),
            d == behind_sign(s@, '+'),
            s@.len() > 0,
            d.len() > 0,
            n == number_of(d.take(i - from)),
            n <= max,
            digit_fault(d, max as nat, 0) == digit_fault(d, max as nat, i - from),
        decreases v@.len() - i,
    {
        let c = v[i];
        assert(d[i - from] == c);
        if c < '0' || c > '9' {
            return Err(NumberFault::Digit);
        }
        assert(d.take(i - from + 1).drop_last() =~= d.take(i - from));
        assert(d.take(i - from + 1).last() == c);
        let x: u128 = (c as u32 - 48) as u128;
        let next: u128 = n as u128 * 10 + x;
        assert(next == number_of(d.take(i - from + 1)));
        if next > max as u128 {
            return Err(NumberFault::TooLarge);
        }
        n = next as u64;
        i = i + 1;
    }
    assert(d.take(i - from) =~= d);
    Ok(n)
}

/// Reads a whole number of 64 bits.
pub fn read_signed(s: &str) -> (r: Option<i64>)
    ensures
        match r {
            Some(n) => signed_of(s@) == Some(n as int),
            None => signed_of(s@) is None,
        },
{
    let v = chars_of(s);
    if v.len() > 0 && v[0] == '-' {
        let d = without_first(&v);
        if d.len() == 0 || !are_digits(&d) {
            return None;
        }
        match read_digits(&d, 0x8000_0000_0000_0000u64) {
            Some(n) => if n == 0x8000_0000_0000_0000u64 {
                Some(i64::MIN)
            } else {
                Some(-(n as i64))
            },
            None => None,
        }
    } else {
        match read_unsigned_chars(&v, 0x7fff_ffff_ffff_ffffu64) {
            Some(n) => Some(n as i64),
            None => None,
        }
    }
}

// ---------------------------------------------------------------------------
// What is written is read back
// ---------------------------------------------------------------------------

/// A number up to the greatest that was written in decimal is read back, with
/// and without a plus sign before it, and a greater one is refused.
pub proof fn a_written_number_is_read_back(n: nat, max: nat)
    ensures
        n <= max ==> unsigned_of(decimal(n), max) == Some(n),
        n <= max ==> unsigned_of(seq!['+'] + decimal(n), max) == Some(n),
        n > max ==> unsigned_of(decimal(n), max) is None,
{
    decimal_reads_back(n);
    let d = decimal(n);
    assert((seq!['+'] + d).skip(1) =~= d);
    assert(is_digit(d[0]));
}

/// A number of 64 bits that was written in decimal is read back, with its sign.
pub proof fn a_signed_number_is_read_back(n: int)
    requires
        -0x8000_0000_0000_0000int <= n <= 0x7fff_ffff_ffff_ffff,
    ensures
        n >= 0 ==> signed_of(decimal(n as nat)) == Some(n),
        n < 0 ==> signed_of(seq!['-'] + decimal((-n) as nat)) == Some(n),
{
    if n >= 0 {
        decimal_reads_back(n as nat);
        assert(is_digit(decimal(n as nat)[0]));
    } else {
        let d = decimal((-n) as nat);
        decimal_reads_back((-n) as nat);
        assert((seq!['-'] + d).skip(1) =~= d);
    }
}

/// A further digit makes a number ten times as large and adds itself; leading
/// zeros add nothing.
pub proof fn digits_are_read_by_place(s: Seq<char>, c: char)
    requires
        is_digit(c),
    ensures
        number_of(s.push(c)) == 10 * number_of(s) + (c as u32 - '0' as u32),
        number_of(Seq::empty()) == 0,
{
    assert(s.push(c).drop_last() =~= s);
}

/// A text is a number, and then the same one, exactly where nothing is wrong
/// with it. What is wrong is that it is empty, that it holds something that is
/// no digit, or that it is too large.
pub proof fn a_text_is_a_number_or_has_a_fault(s: Seq<char>, max: nat)
    ensures
        number_fault(s, max) is None <==> unsigned_of(s, max) is Some,
        number_fault(s, max) == Some(NumberFault::Empty) <==> s.len() == 0,
        number_fault(s, max) == Some(NumberFault::TooLarge) && all_digits(behind_sign(s, '+'))
            ==> number_of(behind_sign(s, '+')) > max,
        s.len() > 0 && all_digits(behind_sign(s, '+')) && behind_sign(s, '+').len() > 0
            && number_of(behind_sign(s, '+')) > max ==> number_fault(s, max) == Some(
            NumberFault::TooLarge,
        ),
        number_fault(s, max) == Some(NumberFault::Digit) ==> !all_digits(behind_sign(s, '+'))
            || behind_sign(s, '+').len() == 0,
{
    let d = behind_sign(s, '+');
    if s.len() > 0 && d.len() > 0 {
        digits_without_fault(d, max, 0);
    }
}

proof fn digits_without_fault(d: Seq<char>, max: nat, i: int)
    requires
        0 <= i <= d.len(),
        d.len() > 0,
        forall|k: int| 0 <= k < i ==> is_digit(#[trigger] d[k]),
        i > 0 ==> number_of(d.take(i)) <= max,
    ensures
        digit_fault(d, max, i) is None <==> all_digits(d) && number_of(d) <= max,
        digit_fault(d, max, i) != Some(NumberFault::Empty),
        digit_fault(d, max, i) == Some(NumberFault::TooLarge) && all_digits(d) ==> number_of(d)
            > max,
        digit_fault(d, max, i) == Some(NumberFault::Digit) ==> !all_digits(d),
    decreases d.len() - i,
{
    if i == d.len() {
        assert(d.take(i) =~= d);
    } else if is_digit(d[i]) {
        if number_of(d.take(i + 1)) > max {
            if all_digits(d) {
                number_of_grows(d, i + 1);
            }
        } else {
            digits_without_fault(d, max, i + 1);
        }
    }
}

/// A number of 64 bits in writing is read back as itself, whatever its sign.
pub proof fn a_number_in_writing_is_read_back(n: int)
    requires
        -0x8000_0000_0000_0000int <= n <= 0x7fff_ffff_ffff_ffff,
    ensures
        signed_of(signed_decimal(n)) == Some(n),
{
    a_signed_number_is_read_back(n);
    if n < 0 {
        assert(signed_decimal(n) =~= seq!['-'] + decimal((-n) as nat));
    }
}

} // verus!
