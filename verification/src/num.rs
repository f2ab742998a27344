//! Reading and writing numbers as text.

use vstd::prelude::*;
use vstd::string::*;

verus! {

/// Why a text is not an integer.
#[derive(Debug, Clone, Copy, PartialEq, Eq, Structural)]
pub enum IntError {
    Empty,
    InvalidDigit,
    PosOverflow,
    NegOverflow,
}

impl IntError {
    /// The wording of the error.
    pub open spec fn wording(self) -> Seq<char> {
        match self {
            IntError::Empty => "cannot parse integer from empty string"@,
            IntError::InvalidDigit => "invalid digit found in string"@,
            IntError::PosOverflow => "number too large to fit in target type"@,
            IntError::NegOverflow => "number too small to fit in target type"@,
        }
    }

    /// The wording of the error.
    pub fn message(self) -> (r: String)
        ensures
            r@ == self.wording(),
    {
        match self {
            IntError::Empty => "cannot parse integer from empty string".to_owned(),
            IntError::InvalidDigit => "invalid digit found in string".to_owned(),
            IntError::PosOverflow => "number too large to fit in target type".to_owned(),
            IntError::NegOverflow => "number too small to fit in target type".to_owned(),
        }
    }
}

/// The character of a digit below sixteen; lower case.
pub open spec fn digit_char(d: nat) -> char {
    if d < 10 {
        (48 + d) as char
    } else {
        (87 + d) as char
    }
}

/// `c` is an ASCII decimal digit.
pub open spec fn is_digit(c: char) -> bool {
    48 <= c as u32 <= 57
}

/// The value of an ASCII decimal digit.
pub open spec fn digit_value(c: char) -> nat {
    (c as u32 - 48) as nat
}

/// `n` in decimal, without leading zeros.
pub open spec fn decimal(n: nat) -> Seq<char>
    decreases n,
{
    if n < 10 {
        seq![digit_char(n)]
    } else {
        decimal(n / 10).push(digit_char(n % 10))
    }
}

/// `n` in decimal, with a minus sign where it is negative.
pub open spec fn signed_decimal(n: int) -> Seq<char> {
    if n < 0 {
        seq!['-'] + decimal((-n) as nat)
    } else {
        decimal(n as nat)
    }
}

/// The digits of `s` read from the left, with the first error that is met: a
/// character that is no digit, or a value beyond `max`.
pub open spec fn digits_value(s: Seq<char>, max: nat) -> Result<nat, IntError>
    decreases s.len(),
{
    if s.len() == 0 {
        Ok(0)
    } else {
        match digits_value(s.drop_last(), max) {
            Err(e) => Err(e),
            Ok(v) => if !is_digit(s.last()) {
                Err(IntError::InvalidDigit)
            } else if v * 10 + digit_value(s.last()) > max {
                Err(IntError::PosOverflow)
            } else {
                Ok(v * 10 + digit_value(s.last()))
            },
        }
    }
}

/// An unsigned integer of at most `max`: digits, with an optional plus sign.
pub open spec fn unsigned_value(s: Seq<char>, max: nat) -> Result<nat, IntError> {
    if s.len() == 0 {
        Err(IntError::Empty)
    } else if s.len() == 1 && (s[0] == '+' || s[0] == '-') {
        Err(IntError::InvalidDigit)
    } else if s[0] == '+' {
        digits_value(s.skip(1), max)
    } else {
        digits_value(s, max)
    }
}

/// A 64-bit signed integer: digits, with an optional sign.
pub open spec fn signed_value(s: Seq<char>) -> Result<int, IntError> {
    if s.len() == 0 {
        Err(IntError::Empty)
    } else if s.len() == 1 && (s[0] == '+' || s[0] == '-') {
        Err(IntError::InvalidDigit)
    } else if s[0] == '-' {
        match digits_value(s.skip(1), 0x8000_0000_0000_0000) {
            Ok(v) => Ok(-(v as int)),
            Err(IntError::PosOverflow) => Err(IntError::NegOverflow),
            Err(e) => Err(e),
        }
    } else {
        match digits_value(
            if s[0] == '+' {
                s.skip(1)
            } else {
                s
            },
            0x7fff_ffff_ffff_ffff,
        ) {
            Ok(v) => Ok(v as int),
            Err(e) => Err(e),
        }
    }
}

/// What `digits_value` accepts stays within the bound.
pub proof fn digits_value_bounded(s: Seq<char>, max: nat)
    ensures
        digits_value(s, max) matches Ok(v) ==> v <= max,
    decreases s.len(),
{
    if s.len() > 0 {
        digits_value_bounded(s.drop_last(), max);
    }
}

/// A character that `digit_char` gives for a decimal digit is one, of that value.
pub proof fn digit_char_value(d: nat)
    requires
        d < 10,
    ensures
        is_digit(digit_char(d)),
        digit_value(digit_char(d)) == d,
{
}

/// Decimal text holds digits only, at least one, and no leading zero unless it
/// is the zero.
pub proof fn decimal_shape(n: nat)
    ensures
        decimal(n).len() >= 1,
        forall|i: int| 0 <= i < decimal(n).len() ==> is_digit(#[trigger] decimal(n)[i]),
        n > 0 ==> decimal(n)[0] != '0',
        n < 10 ==> decimal(n).len() == 1,
    decreases n,
{
    if n < 10 {
        digit_char_value(n);
    } else {
        decimal_shape(n / 10);
        digit_char_value(n % 10);
    }
}

/// Reading the digits that were written gives the number back.
pub proof fn digits_roundtrip(n: nat, max: nat)
    requires
        n <= max,
    ensures
        digits_value(decimal(n), max) == Ok::<nat, IntError>(n),
    decreases n,
{
    reveal_with_fuel(digits_value, 2);
    if n < 10 {
        digit_char_value(n);
        assert(decimal(n).drop_last() =~= Seq::<char>::empty());
    } else {
        digit_char_value(n % 10);
        assert(decimal(n).drop_last() =~= decimal(n / 10));
        digits_roundtrip(n / 10, max);
    }
}

/// Reading an unsigned number that was written gives it back.
pub proof fn unsigned_roundtrip(n: nat, max: nat)
    requires
        n <= max,
    ensures
        unsigned_value(decimal(n), max) == Ok::<nat, IntError>(n),
{
    decimal_shape(n);
    digits_roundtrip(n, max);
    assert(is_digit(decimal(n)[0]));
}

/// Reading a signed number that was written gives it back.
pub proof fn signed_roundtrip(n: int)
    requires
        i64::MIN <= n <= i64::MAX,
    ensures
        signed_value(signed_decimal(n)) == Ok::<int, IntError>(n),
{
    if n < 0 {
        decimal_shape((-n) as nat);
        digits_roundtrip((-n) as nat, 0x8000_0000_0000_0000);
        assert(signed_decimal(n).skip(1) =~= decimal((-n) as nat));
    } else {
        decimal_shape(n as nat);
        digits_roundtrip(n as nat, 0x7fff_ffff_ffff_ffff);
        assert(is_digit(decimal(n as nat)[0]));
    }
}

/// The character of a digit below sixteen; lower case.
fn digit(d: u8) -> (r: char)
    requires
        d < 16,
    ensures
        r == digit_char(d as nat),
{
    if d < 10 {
        (48 + d) as char
    } else {
        (87 + d) as char
    }
}

/// `n` in decimal.
pub fn show(n: u64) -> (r: String)
    ensures
        r@ == decimal(n as nat),
    decreases n,
{
    let mut out = if n < 10 {
        String::new()
    } else {
        show(n / 10)
    };
    out.push(digit((n % 10) as u8));
    assert(out@ =~= decimal(n as nat));
    out
}

/// `n` in decimal, with a minus sign where it is negative.
pub fn show_signed(n: i64) -> (r: String)
    ensures
        r@ == signed_decimal(n as int),
{
    if n < 0 {
        let mut out = String::new();
        out.push('-');
        let magnitude: u64 = (-(n as i128)) as u64;
        out.append(show(magnitude).as_str());
        assert(out@ =~= seq!['-'] + decimal(magnitude as nat));
        out
    } else {
        show(n as u64)
    }
}

/// `n` as exactly two lower-case hexadecimal digits.
pub open spec fn hex2(n: u8) -> Seq<char> {
    seq![digit_char((n / 16) as nat), digit_char((n % 16) as nat)]
}

/// `n` as exactly four lower-case hexadecimal digits.
pub open spec fn hex4(n: u16) -> Seq<char> {
    hex2((n / 256) as u8) + hex2((n % 256) as u8)
}

/// `n` as exactly two lower-case hexadecimal digits.
pub fn show_hex2(n: u8) -> (r: String)
    ensures
        r@ == hex2(n),
{
    let mut out = String::new();
    out.push(digit(n / 16));
    out.push(digit(n % 16));
    assert(out@ =~= hex2(n));
    out
}

/// `n` as exactly four lower-case hexadecimal digits.
pub fn show_hex4(n: u16) -> (r: String)
    ensures
        r@ == hex4(n),
{
    let mut out = show_hex2((n / 256) as u8);
    out.append(show_hex2((n % 256) as u8).as_str());
    out
}

/// The digits of `v[from..]`.
fn read_digits(v: &Vec<char>, from: usize, max: u64) -> (r: Result<u64, IntError>)
    requires
        from <= v@.len(),
    ensures
        match r {
            Ok(n) => digits_value(v@.skip(from as int), max as nat) == Ok::<nat, IntError>(
                n as nat,
            ),
            Err(e) => digits_value(v@.skip(from as int), max as nat) == Err::<nat, IntError>(e),
        },
{
    let ghost s = v@.skip(from as int);
    let mut acc: u64 = 0;
    let mut i: usize = from;
    while i < v.len()
        invariant
            from <= i <= v@.len(),
            s == v@.skip(from as int),
            acc <= max,
            digits_value(s.take(i - from), max as nat) == Ok::<nat, IntError>(acc as nat),
        decreases v@.len() - i,
    {
        let c = v[i];
        proof {
            assert(s.take(i - from + 1).drop_last() =~= s.take(i - from));
            assert(s.take(i - from + 1).last() == c);
        }
        let code = c as u32;
        if code < 48 || code > 57 {
            proof {
                digits_error(s, max as nat, i - from + 1);
            }
            return Err(IntError::InvalidDigit);
        }
        let d: u64 = (code - 48) as u64;
        if acc > (u64::MAX - d) / 10 || acc * 10 + d > max {
            proof {
                digits_error(s, max as nat, i - from + 1);
            }
            return Err(IntError::PosOverflow);
        }
        acc = acc * 10 + d;
        i = i + 1;
    }
    assert(s.take(v@.len() - from) =~= s);
    Ok(acc)
}

/// An error in a prefix is the error of the whole.
proof fn digits_error(s: Seq<char>, max: nat, n: int)
    requires
        0 <= n <= s.len(),
        digits_value(s.take(n), max) is Err,
    ensures
        digits_value(s, max) == digits_value(s.take(n), max),
    decreases s.len() - n,
{
    if n < s.len() {
        assert(s.take(n + 1).drop_last() =~= s.take(n));
        digits_error(s, max, n + 1);
    } else {
        assert(s.take(n) =~= s);
    }
}

/// Digits alone, of a value of at most `max`; none at all are zero.
pub fn parse_digits(s: &str, max: u64) -> (r: Result<u64, IntError>)
    ensures
        match r {
            Ok(n) => n <= max && digits_value(s@, max as nat) == Ok::<nat, IntError>(n as nat),
            Err(e) => digits_value(s@, max as nat) == Err::<nat, IntError>(e),
        },
{
    let v = crate::text::chars_of(s);
    proof {
        digits_value_bounded(v@, max as nat);
        assert(v@.skip(0) =~= v@);
    }
    read_digits(&v, 0, max)
}

/// An unsigned integer of at most `max`.
pub fn parse_unsigned(s: &str, max: u64) -> (r: Result<u64, IntError>)
    ensures
        match r {
            Ok(n) => n <= max && unsigned_value(s@, max as nat) == Ok::<nat, IntError>(n as nat),
            Err(e) => unsigned_value(s@, max as nat) == Err::<nat, IntError>(e),
        },
{
    let v = crate::text::chars_of(s);
    proof {
        digits_value_bounded(v@.skip(1), max as nat);
        digits_value_bounded(v@, max as nat);
        assert(v@.skip(0) =~= v@);
    }
    if v.len() == 0 {
        Err(IntError::Empty)
    } else if v.len() == 1 && (v[0] == '+' || v[0] == '-') {
        Err(IntError::InvalidDigit)
    } else if v[0] == '+' {
        read_digits(&v, 1, max)
    } else {
        read_digits(&v, 0, max)
    }
}

/// A 64-bit signed integer.
pub fn parse_signed(s: &str) -> (r: Result<i64, IntError>)
    ensures
        match r {
            Ok(n) => signed_value(s@) == Ok::<int, IntError>(n as int),
            Err(e) => signed_value(s@) == Err::<int, IntError>(e),
        },
{
    let v = crate::text::chars_of(s);
    proof {
        digits_value_bounded(v@.skip(1), 0x8000_0000_0000_0000);
        digits_value_bounded(v@.skip(1), 0x7fff_ffff_ffff_ffff);
        digits_value_bounded(v@, 0x7fff_ffff_ffff_ffff);
        assert(v@.skip(0) =~= v@);
    }
    if v.len() == 0 {
        Err(IntError::Empty)
    } else if v.len() == 1 && (v[0] == '+' || v[0] == '-') {
        Err(IntError::InvalidDigit)
    } else if v[0] == '-' {
        match read_digits(&v, 1, 0x8000_0000_0000_0000) {
            Ok(n) => Ok((-(n as i128)) as i64),
            Err(IntError::PosOverflow) => Err(IntError::NegOverflow),
            Err(e) => Err(e),
        }
    } else {
        let from: usize = if v[0] == '+' {
            1
        } else {
            0
        };
        match read_digits(&v, from, 0x7fff_ffff_ffff_ffff) {
            Ok(n) => Ok(n as i64),
            Err(e) => Err(e),
        }
    }
}

// ---------------------------------------------------------------------------
// Laws
// ---------------------------------------------------------------------------
/// Every character is one of the digits `0` to `9`.
pub open spec fn all_digits(s: Seq<char>) -> bool {
    forall|i: int| 0 <= i < s.len() ==> '0' <= #[trigger] s[i] <= '9'
}

/// The number that digits are written for, the first one the most significant.
pub open spec fn numeral(s: Seq<char>) -> nat
    decreases s.len(),
{
    if s.len() == 0 {
        0
    } else {
        (10 * numeral(s.drop_last()) + (s.last() as u32 - '0' as u32)) as nat
    }
}

/// Digits are read as the number they are written for, if it is no greater than
/// the limit; anything but digits is not read.
#[verifier::rlimit(40)]
pub proof fn digits_read(s: Seq<char>, max: nat)
    ensures
        digits_value(s, max) is Ok <==> all_digits(s) && numeral(s) <= max,
        digits_value(s, max) is Ok ==> digits_value(s, max)->Ok_0 == numeral(s),
        digits_value(s, max) is Err && all_digits(s) ==> digits_value(s, max)->Err_0
            == IntError::PosOverflow,
    decreases s.len(),
{
    if s.len() > 0 {
        let init = s.drop_last();
        digits_read(init, max);
        if all_digits(s) {
            assert forall|i: int| 0 <= i < init.len() implies '0' <= #[trigger] init[i] <= '9' by {
                assert(s[i] == init[i]);
            }
            assert('0' <= s[s.len() - 1] <= '9');
        }
        if all_digits(init) && is_digit(s.last()) {
            assert forall|i: int| 0 <= i < s.len() implies '0' <= #[trigger] s[i] <= '9' by {
                if i < init.len() {
                    assert(s[i] == init[i]);
                } else {
                    assert(is_digit(s[i]));
                    vstd::utf8::char_u32_cast(s[i], s[i] as u32);
                }
            }
        }
    }
}

/// A number is written in the digits that stand for it.
pub proof fn decimal_stands_for(n: nat)
    ensures
        all_digits(decimal(n)),
        numeral(decimal(n)) == n,
        decimal(n).len() > 1 ==> decimal(n)[0] != '0',
    decreases n,
{
    decimal_shape(n);
    digits_roundtrip(n, n);
    digits_read(decimal(n), n);
    if n < 10 {
        assert(decimal(n).len() == 1);
    }
}

/// Digits without a leading zero are the only way to write a number.
#[verifier::rlimit(40)]
pub proof fn decimal_is_unique(s: Seq<char>)
    requires
        s.len() >= 1,
        all_digits(s),
        s.len() > 1 ==> s[0] != '0',
    ensures
        s == decimal(numeral(s)),
        s[0] != '0' ==> numeral(s) > 0,
    decreases s.len(),
{
    let init = s.drop_last();
    let c = s.last();
    assert('0' <= s[s.len() - 1] <= '9');
    let d = (c as u32 - '0' as u32) as nat;
    digit_char_value(d);
    vstd::utf8::char_u32_cast(c, c as u32);
    vstd::utf8::char_u32_cast(digit_char(d), digit_char(d) as u32);
    assert(digit_char(d) == c);
    if s.len() == 1 {
        assert(numeral(init) == 0);
        assert(s =~= seq![c]);
    } else {
        assert forall|i: int| 0 <= i < init.len() implies '0' <= #[trigger] init[i] <= '9' by {
            assert(s[i] == init[i]);
        }
        decimal_is_unique(init);
        let v = numeral(init);
        assert(init[0] == s[0]);
        assert(v > 0);
        assert((10 * v + d) / 10 == v && (10 * v + d) % 10 == d);
        assert(s =~= init.push(c));
    }
}

/// A number may have a plus sign, a signed one a minus sign; behind it stand
/// digits, one or more, for a number within the limits.
#[verifier::rlimit(40)]
pub proof fn signs(s: Seq<char>, max: nat)
    requires
        s.len() > 0,
        all_digits(s),
    ensures
        ({
            let n = numeral(s);
            let plus = seq!['+'] + s;
            let minus = seq!['-'] + s;
            let fits = n <= 0x7fff_ffff_ffff_ffff;
            &&& unsigned_value(s, max) == (if n <= max {
                Ok::<nat, IntError>(n)
            } else {
                Err(IntError::PosOverflow)
            })
            &&& unsigned_value(plus, max) == unsigned_value(s, max)
            &&& unsigned_value(minus, max) is Err
            &&& signed_value(s) == (if fits {
                Ok::<int, IntError>(n as int)
            } else {
                Err(IntError::PosOverflow)
            })
            &&& signed_value(plus) == signed_value(s)
            &&& signed_value(minus) == (if n <= 0x8000_0000_0000_0000 {
                Ok::<int, IntError>(-n)
            } else {
                Err(IntError::NegOverflow)
            })
        }),
{
    let plus = seq!['+'] + s;
    let minus = seq!['-'] + s;
    assert(plus.skip(1) =~= s && minus.skip(1) =~= s);
    assert('0' <= s[0] <= '9');
    digits_read(s, max);
    digits_read(s, 0x7fff_ffff_ffff_ffff);
    digits_read(s, 0x8000_0000_0000_0000);
    digits_read(minus, max);
    assert(minus[0] == '-');
    assert(!all_digits(minus)) by {
        if all_digits(minus) {
            assert('0' <= minus[0]);
        }
    }
}

/// Nothing else is a number: neither an empty text, nor a sign alone, nor one
/// with any other character.
#[verifier::rlimit(40)]
pub proof fn only_digits_are_numbers(s: Seq<char>, max: nat)
    ensures
        s.len() == 0 ==> unsigned_value(s, max) == Err::<nat, IntError>(IntError::Empty)
            && signed_value(s) == Err::<int, IntError>(IntError::Empty),
        s.len() == 1 && !('0' <= s[0] <= '9') ==> unsigned_value(s, max) is Err
            && signed_value(s) is Err,
        (exists|i: int| 1 <= i < s.len() && !('0' <= #[trigger] s[i] <= '9')) ==> unsigned_value(
            s,
            max,
        ) is Err && signed_value(s) is Err,
        s.len() > 0 && !('0' <= s[0] <= '9') && s[0] != '+' ==> unsigned_value(s, max) is Err && (
        s[0] != '-' ==> signed_value(s) is Err),
{
    if s.len() > 0 {
        let t = s.skip(1);
        digits_read(s, max);
        digits_read(t, max);
        digits_read(s, 0x7fff_ffff_ffff_ffff);
        digits_read(t, 0x7fff_ffff_ffff_ffff);
        digits_read(t, 0x8000_0000_0000_0000);
        if exists|i: int| 1 <= i < s.len() && !('0' <= #[trigger] s[i] <= '9') {
            let i = choose|i: int| 1 <= i < s.len() && !('0' <= #[trigger] s[i] <= '9');
            assert(t[i - 1] == s[i]);
            assert(!all_digits(t));
            assert(!all_digits(s));
        }
        if !('0' <= s[0] <= '9') {
            assert(!all_digits(s));
        }
    }
}

/// Hexadecimal digits stand for four bits each, the most significant first.
pub proof fn hex_digits(d: nat)
    requires
        d < 16,
    ensures
        d < 10 ==> digit_char(d) as u32 == '0' as u32 + d,
        d >= 10 ==> digit_char(d) as u32 == 'a' as u32 + (d - 10),
{
}

/// Two digits for a byte and four for two, each in its place.
pub proof fn hex_places(a: u8, b: u16)
    ensures
        hex2(a) == seq![digit_char(a as nat / 16), digit_char(a as nat % 16)],
        hex4(b) == seq![
            digit_char(b as nat / 0x1000),
            digit_char(b as nat / 0x100 % 16),
            digit_char(b as nat / 0x10 % 16),
            digit_char(b as nat % 16),
        ],
{
    let n = b as nat;
    assert(n / 0x1000 == n / 0x100 / 16);
    assert(n / 0x10 % 16 == (n % 0x100) / 16);
    assert(n % 16 == (n % 0x100) % 16);
}

/// A signed number that is read takes no more than 64 bits.
pub proof fn signed_value_bounded(s: Seq<char>)
    ensures
        signed_value(s) matches Ok(n) ==> i64::MIN <= n <= i64::MAX,
{
    digits_value_bounded(s, 0x7fff_ffff_ffff_ffff);
    if s.len() > 0 {
        digits_value_bounded(s.skip(1), 0x7fff_ffff_ffff_ffff);
        digits_value_bounded(s.skip(1), 0x8000_0000_0000_0000);
    }
}

} // verus!
