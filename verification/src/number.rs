//! Decimal integers as text: reading a signed integer of a given width out
//! of a run of characters, and writing one.

use vstd::prelude::*;
use vstd::string::StringExecFns;

verus! {

/// Why a run of characters is not an integer of the width asked for.
#[derive(Clone, Copy, Debug, PartialEq, Eq, Structural)]
pub enum NumberError {
    /// There are no characters at all.
    Empty,
    /// A character is not a decimal digit, or a sign stands alone.
    InvalidDigit,
    /// The digits go above the largest value of the width.
    PosOverflow,
    /// The digits go below the smallest value of the width.
    NegOverflow,
}

impl NumberError {
    /// The message of the error.
    pub open spec fn text(self) -> Seq<char> {
        match self {
            NumberError::Empty => "cannot parse integer from empty string"@,
            NumberError::InvalidDigit => "invalid digit found in string"@,
            NumberError::PosOverflow => "number too large to fit in target type"@,
            NumberError::NegOverflow => "number too small to fit in target type"@,
        }
    }

    /// The message of the error.
    pub fn message(&self) -> (s: String)
        ensures
            s@ == self.text(),
    {
        match self {
            NumberError::Empty => String::from_str("cannot parse integer from empty string"),
            NumberError::InvalidDigit => String::from_str("invalid digit found in string"),
            NumberError::PosOverflow => String::from_str("number too large to fit in target type"),
            NumberError::NegOverflow => String::from_str("number too small to fit in target type"),
        }
    }
}

/// The decimal digits `0` to `9`.
pub open spec fn is_digit(c: char) -> bool {
    48 <= c as u32 <= 57
}

/// The number that a decimal digit stands for.
pub open spec fn digit_value(c: char) -> int {
    c as u32 - 48
}

/// The number that a run of decimal digits stands for; 0 for the empty run.
pub open spec fn digits_value(s: Seq<char>) -> int
    decreases s.len(),
{
    if s.len() == 0 {
        0
    } else {
        10 * digits_value(s.drop_last()) + digit_value(s.last())
    }
}

/// How many decimal digits `s` begins with.
pub open spec fn digit_run(s: Seq<char>) -> nat
    decreases s.len(),
{
    if s.len() > 0 && is_digit(s[0]) {
        1 + digit_run(s.skip(1))
    } else {
        0
    }
}

/// What `s` is as a signed decimal integer between `min` and `max`.
///
/// The text is an optional `+` or `-` and then one or more decimal digits,
/// nothing else. Reading goes from left to right and stops at the first
/// fault: digits that have left the range give an overflow even where a
/// character that is no digit follows them.
pub open spec fn parsed(s: Seq<char>, min: int, max: int) -> Result<int, NumberError> {
    if s.len() == 0 {
        Err(NumberError::Empty)
    } else {
        let negative = s[0] == '-';
        let body = if s[0] == '+' || s[0] == '-' {
            s.skip(1)
        } else {
            s
        };
        let run = digit_run(body) as int;
        let magnitude = digits_value(body.take(run));
        if body.len() == 0 {
            Err(NumberError::InvalidDigit)
        } else if !negative && magnitude > max {
            Err(NumberError::PosOverflow)
        } else if negative && -magnitude < min {
            Err(NumberError::NegOverflow)
        } else if run < body.len() {
            Err(NumberError::InvalidDigit)
        } else if negative {
            Ok(-magnitude)
        } else {
            Ok(magnitude)
        }
    }
}

/// The run of leading digits lies within the sequence and holds digits only;
/// it ends at the end of the sequence or before a character that is no digit.
pub proof fn lemma_digit_run(s: Seq<char>)
    ensures
        digit_run(s) <= s.len(),
        forall|i: int| 0 <= i < digit_run(s) ==> is_digit(s[i]),
        digit_run(s) < s.len() ==> !is_digit(s[digit_run(s) as int]),
    decreases s.len(),
{
    if s.len() > 0 && is_digit(s[0]) {
        lemma_digit_run(s.skip(1));
        assert forall|i: int| 0 <= i < digit_run(s) implies is_digit(s[i]) by {
            if i > 0 {
                assert(s.skip(1)[i - 1] == s[i]);
            }
        }
        assert(digit_run(s) < s.len() ==> s.skip(1)[digit_run(s.skip(1)) as int] == s[digit_run(
            s,
        ) as int]);
    }
}

/// A run of digits is worth at least as much as any of its beginnings.
pub proof fn lemma_digits_value_grows(s: Seq<char>, j: int)
    requires
        0 <= j <= s.len(),
        forall|i: int| 0 <= i < s.len() ==> is_digit(s[i]),
    ensures
        0 <= digits_value(s.take(j)) <= digits_value(s),
    decreases s.len() - j,
{
    lemma_digits_value_nonnegative(s.take(j));
    if j == s.len() {
        assert(s.take(j) =~= s);
    } else {
        lemma_digits_value_grows(s, j + 1);
        assert(s.take(j + 1).drop_last() =~= s.take(j));
    }
}

/// A run of digits stands for a number that is not negative.
pub proof fn lemma_digits_value_nonnegative(s: Seq<char>)
    requires
        forall|i: int| 0 <= i < s.len() ==> is_digit(s[i]),
    ensures
        0 <= digits_value(s),
    decreases s.len(),
{
    if s.len() > 0 {
        lemma_digits_value_nonnegative(s.drop_last());
    }
}

/// Tells whether `c` is a decimal digit.
pub fn is_decimal_digit(c: char) -> (b: bool)
    ensures
        b == is_digit(c),
{
    let u: u32 = c as u32;
    48 <= u && u <= 57
}

/// Reads `s` as a signed decimal integer between `min` and `max`.
#[verifier::loop_isolation(false)]
fn parse_bounded(s: &[char], min: i64, max: i64) -> (r: Result<i64, NumberError>)
    requires
        -0x8000_0000 <= min <= 0 <= max <= 0x7fff_ffff,
    ensures
        match r {
            Ok(v) => parsed(s@, min as int, max as int) == Ok::<int, NumberError>(v as int),
            Err(e) => parsed(s@, min as int, max as int) == Err::<int, NumberError>(e),
        },
{
    let n = s.len();
    if n == 0 {
        return Err(NumberError::Empty);
    }
    let negative = s[0] == '-';
    let start: usize = if s[0] == '+' || s[0] == '-' {
        1
    } else {
        0
    };
    let ghost body = s@.skip(start as int);
    assert(s@.skip(0) =~= s@);
    if start == n {
        return Err(NumberError::InvalidDigit);
    }
    let limit: i64 = if negative {
        -min
    } else {
        max
    };
    let mut acc: i64 = 0;
    let mut i: usize = start;
    assert(body.take(0) =~= Seq::<char>::empty());
    while i < n
        invariant
            start <= i <= n == s@.len(),
            body == s@.skip(start as int),
            forall|j: int| 0 <= j < i - start ==> is_digit(body[j]),
            acc == digits_value(body.take(i - start)),
            0 <= acc <= limit <= 0x8000_0000,
        decreases n - i,
    {
        let c = s[i];
        assert(c == body[i - start]);
        if !is_decimal_digit(c) {
            proof {
                lemma_digit_run(body);
                let run = digit_run(body) as int;
                if run < i - start {
                    assert(!is_digit(body[run]));
                }
                if run > i - start {
                    assert(is_digit(body[i - start]));
                }
                assert(run == i - start);
            }
            return Err(NumberError::InvalidDigit);
        }
        let d: i64 = (c as u32 - 48) as i64;
        assert(d == digit_value(c));
        assert(body.take(i - start + 1).drop_last() =~= body.take(i - start));
        acc = acc * 10 + d;
        if acc > limit {
            proof {
                lemma_digit_run(body);
                let run = digit_run(body) as int;
                if run < i - start + 1 {
                    assert(is_digit(body[run]));
                }
                lemma_digits_value_grows(body.take(run), i - start + 1);
                assert(body.take(run).take(i - start + 1) =~= body.take(i - start + 1));
            }
            return Err(
                if negative {
                    NumberError::NegOverflow
                } else {
                    NumberError::PosOverflow
                },
            );
        }
        i += 1;
    }
    proof {
        lemma_digit_run(body);
        let run = digit_run(body) as int;
        if run < n - start {
            assert(is_digit(body[run]));
        }
        assert(body.take(n - start) =~= body);
    }
    if negative {
        Ok(-acc)
    } else {
        Ok(acc)
    }
}

/// Reads `s` as an integer of eight bits.
pub fn parse_i8(s: &[char]) -> (r: Result<i8, NumberError>)
    ensures
        match r {
            Ok(v) => parsed(s@, -128, 127) == Ok::<int, NumberError>(v as int),
            Err(e) => parsed(s@, -128, 127) == Err::<int, NumberError>(e),
        },
{
    match parse_bounded(s, -128, 127) {
        Ok(v) => {
            proof {
                lemma_parsed_in_range(s@, -128, 127);
            }
            Ok(v as i8)
        },
        Err(e) => Err(e),
    }
}

/// Reads `s` as an integer of thirty-two bits.
pub fn parse_i32(s: &[char]) -> (r: Result<i32, NumberError>)
    ensures
        match r {
            Ok(v) => parsed(s@, -0x8000_0000, 0x7fff_ffff) == Ok::<int, NumberError>(v as int),
            Err(e) => parsed(s@, -0x8000_0000, 0x7fff_ffff) == Err::<int, NumberError>(e),
        },
{
    match parse_bounded(s, -0x8000_0000, 0x7fff_ffff) {
        Ok(v) => {
            proof {
                lemma_parsed_in_range(s@, -0x8000_0000, 0x7fff_ffff);
            }
            Ok(v as i32)
        },
        Err(e) => Err(e),
    }
}

/// A number that was read lies between the bounds it was read with.
pub proof fn lemma_parsed_in_range(s: Seq<char>, min: int, max: int)
    requires
        min <= 0 <= max,
    ensures
        parsed(s, min, max) matches Ok(v) ==> min <= v <= max,
{
    if s.len() > 0 {
        let body = if s[0] == '+' || s[0] == '-' {
            s.skip(1)
        } else {
            s
        };
        lemma_digit_run(body);
        let run = digit_run(body) as int;
        assert forall|i: int| 0 <= i < run implies is_digit(#[trigger] body.take(run)[i]) by {}
        lemma_digits_value_nonnegative(body.take(run));
    }
}

/// The character that stands for the digit `d`.
pub open spec fn digit_char(d: int) -> char {
    (d + 48) as char
}

/// The decimal digits of `n`, most significant first, without leading zeros.
pub open spec fn digits_of(n: nat) -> Seq<char>
    decreases n,
{
    if n < 10 {
        seq![digit_char(n as int)]
    } else {
        digits_of(n / 10).push(digit_char((n % 10) as int))
    }
}

/// `n` written in decimal: a minus sign where it is negative, then its digits.
pub open spec fn decimal(n: int) -> Seq<char> {
    if n < 0 {
        seq!['-'] + digits_of((-n) as nat)
    } else {
        digits_of(n as nat)
    }
}

/// The one-character text of a digit.
fn digit_str(d: u64) -> (r: &'static str)
    requires
        d < 10,
    ensures
        r@ == seq![digit_char(d as int)],
{
    proof {
        reveal_strlit("0");
        reveal_strlit("1");
        reveal_strlit("2");
        reveal_strlit("3");
        reveal_strlit("4");
        reveal_strlit("5");
        reveal_strlit("6");
        reveal_strlit("7");
        reveal_strlit("8");
        reveal_strlit("9");
    }
    let r = if d == 0 {
        "0"
    } else if d == 1 {
        "1"
    } else if d == 2 {
        "2"
    } else if d == 3 {
        "3"
    } else if d == 4 {
        "4"
    } else if d == 5 {
        "5"
    } else if d == 6 {
        "6"
    } else if d == 7 {
        "7"
    } else if d == 8 {
        "8"
    } else {
        "9"
    };
    assert(r@ =~= seq![digit_char(d as int)]);
    r
}

/// Appends the decimal digits of `n` to `out`.
fn append_digits(out: &mut String, n: u64)
    ensures
        final(out)@ == old(out)@ + digits_of(n as nat),
    decreases n,
{
    if n >= 10 {
        append_digits(out, n / 10);
    }
    let ghost front = out@;
    out.append(digit_str(n % 10));
    assert(out@ =~= old(out)@ + digits_of(n as nat));
}

/// Appends `n`, written in decimal, to `out`.
pub fn append_decimal(out: &mut String, n: i32)
    ensures
        final(out)@ == old(out)@ + decimal(n as int),
{
    let wide: i64 = n as i64;
    if wide < 0 {
        out.append("-");
        proof {
            reveal_strlit("-");
        }
        append_digits(out, (-wide) as u64);
        assert(out@ =~= old(out)@ + decimal(n as int));
    } else {
        append_digits(out, wide as u64);
    }
}

/// `n` written in decimal.
pub fn render(n: i32) -> (r: String)
    ensures
        r@ == decimal(n as int),
{
    let mut r = String::new();
    append_decimal(&mut r, n);
    assert(r@ =~= decimal(n as int));
    r
}

/// The digits of a number are decimal digits, at least one of them, and
/// stand for that number.
pub proof fn lemma_digits_of(n: nat)
    ensures
        digits_of(n).len() >= 1,
        forall|i: int| 0 <= i < digits_of(n).len() ==> is_digit(#[trigger] digits_of(n)[i]),
        digits_value(digits_of(n)) == n,
    decreases n,
{
    let d = (n % 10) as int;
    assert(digit_value(digit_char(d)) == d);
    assert(digits_of(n).last() == digit_char(d));
    if n < 10 {
        assert(digits_of(n).drop_last() =~= Seq::<char>::empty());
        assert(digits_value(digits_of(n).drop_last()) == 0);
    } else {
        lemma_digits_of(n / 10);
        assert(digits_of(n).drop_last() =~= digits_of(n / 10));
    }
}

/// Where every character is a digit, the run of leading digits is the whole.
pub proof fn lemma_digit_run_of_digits(s: Seq<char>)
    requires
        forall|i: int| 0 <= i < s.len() ==> is_digit(s[i]),
    ensures
        digit_run(s) == s.len(),
{
    lemma_digit_run(s);
}

/// Writing a number and reading it back gives the number again, whenever it
/// lies between the bounds it is read with.
pub proof fn lemma_read_back(n: int, min: int, max: int)
    requires
        min <= n <= max,
        min <= 0 <= max,
    ensures
        parsed(decimal(n), min, max) == Ok::<int, NumberError>(n),
{
    let s = decimal(n);
    let m = if n < 0 {
        (-n) as nat
    } else {
        n as nat
    };
    lemma_digits_of(m);
    let body = if s[0] == '+' || s[0] == '-' {
        s.skip(1)
    } else {
        s
    };
    if n < 0 {
        assert(s.skip(1) =~= digits_of(m));
    } else {
        assert(is_digit(digits_of(m)[0]));
    }
    assert(body == digits_of(m));
    lemma_digit_run_of_digits(body);
    assert(body.take(body.len() as int) =~= body);
}

/// A number written in decimal consists of digits and, at most, a minus sign.
pub proof fn lemma_decimal_chars(n: int)
    ensures
        decimal(n).len() >= 1,
        forall|i: int|
            0 <= i < decimal(n).len() ==> is_digit(#[trigger] decimal(n)[i]) || decimal(n)[i]
                == '-',
{
    if n < 0 {
        lemma_digits_of((-n) as nat);
        assert forall|i: int| 0 <= i < decimal(n).len() implies is_digit(#[trigger] decimal(n)[i])
            || decimal(n)[i] == '-' by {
            if i > 0 {
                assert(decimal(n)[i] == digits_of((-n) as nat)[i - 1]);
            }
        }
    } else {
        lemma_digits_of(n as nat);
    }
}

} // verus!
