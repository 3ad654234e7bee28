//! Integers as text, in both directions.

use vstd::prelude::*;

verus! {

/// The digit of value `d`, with small letters from ten on.
pub open spec fn digit(d: int) -> char {
    if d < 10 {
        ((48 + d) as u8) as char
    } else {
        ((87 + d) as u8) as char
    }
}

/// The digit of value `d`, with capitals from ten on.
pub open spec fn capital_digit(d: int) -> char {
    if d < 10 {
        ((48 + d) as u8) as char
    } else {
        ((55 + d) as u8) as char
    }
}

/// `n` in base ten.
pub open spec fn decimal_nat(n: nat) -> Seq<char>
    decreases n,
{
    if n < 10 {
        seq![digit(n as int)]
    } else {
        decimal_nat(n / 10).push(digit((n % 10) as int))
    }
}

/// `n` in base ten, with a minus sign where it is negative.
pub open spec fn decimal(n: int) -> Seq<char> {
    if n < 0 {
        seq!['-'] + decimal_nat((-n) as nat)
    } else {
        decimal_nat(n as nat)
    }
}

/// `n` in base sixteen, in small letters.
pub open spec fn hex(n: nat) -> Seq<char>
    decreases n,
{
    if n < 16 {
        seq![digit(n as int)]
    } else {
        hex(n / 16).push(digit((n % 16) as int))
    }
}

/// `n` in base sixteen, in capitals.
pub open spec fn capital_hex(n: nat) -> Seq<char>
    decreases n,
{
    if n < 16 {
        seq![capital_digit(n as int)]
    } else {
        capital_hex(n / 16).push(capital_digit((n % 16) as int))
    }
}

/// What `c` counts for as a digit, in either case of letter.
pub open spec fn digit_value(c: char, radix: int) -> Option<int> {
    let n = c as u32 as int;
    let value = if 48 <= n <= 57 {
        n - 48
    } else if 97 <= n <= 122 {
        n - 87
    } else if 65 <= n <= 90 {
        n - 55
    } else {
        radix
    };
    if value < radix {
        Some(value)
    } else {
        None
    }
}

/// The value of a row of digits, where each character of it is one.
pub open spec fn digits_value(s: Seq<char>, radix: int) -> Option<int>
    decreases s.len(),
{
    if s.len() == 0 {
        Some(0)
    } else {
        match (digits_value(s.drop_last(), radix), digit_value(s.last(), radix)) {
            (Some(high), Some(low)) => Some(high * radix + low),
            _ => None,
        }
    }
}

/// The integer that `s` spells: at least one digit, with an optional sign
/// before it, where a minus is accepted only if `signed`.
pub open spec fn integer_value(s: Seq<char>, radix: int, signed: bool) -> Option<int> {
    let negative = signed && s.len() > 0 && s[0] == '-';
    let body = if negative || (s.len() > 0 && s[0] == '+') {
        s.skip(1)
    } else {
        s
    };
    if body.len() == 0 {
        None
    } else {
        match digits_value(body, radix) {
            Some(n) => Some(
                if negative {
                    -n
                } else {
                    n
                },
            ),
            None => None,
        }
    }
}

/// The integer that `s` spells, where it lies between `low` and `high`.
pub open spec fn parsed(s: Seq<char>, radix: int, low: int, high: int) -> Option<int> {
    match integer_value(s, radix, low < 0) {
        Some(n) => if low <= n <= high {
            Some(n)
        } else {
            None
        },
        None => None,
    }
}

pub proof fn lemma_decimal_nat(n: nat)
    ensures
        decimal_nat(n).len() > 0,
        digits_value(decimal_nat(n), 10) == Some(n as int),
        forall|i: int|
            0 <= i < decimal_nat(n).len() ==> '0' <= #[trigger] decimal_nat(n)[i]
                && decimal_nat(n)[i] <= '9',
    decreases n,
{
    let last = digit((n % 10) as int);
    assert(digit_value(last, 10) == Some((n % 10) as int));
    if n < 10 {
        assert(seq![digit(n as int)].drop_last() =~= Seq::empty());
        assert(digits_value(Seq::<char>::empty(), 10) == Some(0int));
        assert(decimal_nat(n).last() == last);
        assert(decimal_nat(n).drop_last().len() == 0);
    } else {
        lemma_decimal_nat(n / 10);
        assert(decimal_nat(n).drop_last() =~= decimal_nat(n / 10));
        assert(decimal_nat(n).last() == last);
    }
}

/// What is written in base ten is read as the same number.
pub proof fn decimal_round_trips(n: int, low: int, high: int)
    requires
        low < 0,
        low <= n <= high,
    ensures
        parsed(decimal(n), 10, low, high) == Some(n),
        decimal(n).len() > 0,
        decimal(n)[0] == '-' || ('0' <= decimal(n)[0] && decimal(n)[0] <= '9'),
{
    if n < 0 {
        lemma_decimal_nat((-n) as nat);
        assert(decimal(n).skip(1) =~= decimal_nat((-n) as nat));
    } else {
        lemma_decimal_nat(n as nat);
    }
}

/// `n` in base ten.
pub fn decimal_text(n: i128) -> (r: String)
    ensures
        r@ == decimal(n as int),
{
    if n >= 0 {
        return decimal_digits(n as u128);
    }
    let magnitude: u128 = (-(n + 1)) as u128 + 1;
    let mut out = String::new();
    out.push('-');
    let rest = decimal_digits(magnitude);
    out.append(rest.as_str());
    assert(out@ =~= seq!['-'] + decimal_nat((-n) as nat));
    out
}

fn decimal_digits(n: u128) -> (r: String)
    ensures
        r@ == decimal_nat(n as nat),
    decreases n,
{
    if n < 10 {
        let mut out = String::new();
        out.push((48 + n as u8) as char);
        assert(out@ =~= seq![digit(n as int)]);
        return out;
    }
    let mut out = decimal_digits(n / 10);
    out.push((48 + (n % 10) as u8) as char);
    out
}

/// `n` in base sixteen, in small letters.
pub fn hex_text(n: u128) -> (r: String)
    ensures
        r@ == hex(n as nat),
    decreases n,
{
    let last: u8 = (n % 16) as u8;
    let c: char = if last < 10 {
        (48 + last) as char
    } else {
        (87 + last) as char
    };
    if n < 16 {
        let mut out = String::new();
        out.push(c);
        assert(out@ =~= seq![digit(n as int)]);
        return out;
    }
    let mut out = hex_text(n / 16);
    out.push(c);
    out
}

/// `n` in base sixteen, in capitals.
pub fn capital_hex_text(n: u128) -> (r: String)
    ensures
        r@ == capital_hex(n as nat),
    decreases n,
{
    let last: u8 = (n % 16) as u8;
    let c: char = if last < 10 {
        (48 + last) as char
    } else {
        (55 + last) as char
    };
    if n < 16 {
        let mut out = String::new();
        out.push(c);
        assert(out@ =~= seq![capital_digit(n as int)]);
        return out;
    }
    let mut out = capital_hex_text(n / 16);
    out.push(c);
    out
}

fn value_of_digit(c: char, radix: u8) -> (r: Option<u8>)
    requires
        2 <= radix <= 36,
    ensures
        match r {
            Some(d) => digit_value(c, radix as int) == Some(d as int) && d < radix,
            None => digit_value(c, radix as int) is None,
        },
{
    let n: u32 = c as u32;
    let value: u32 = if 48 <= n && n <= 57 {
        n - 48
    } else if 97 <= n && n <= 122 {
        n - 87
    } else if 65 <= n && n <= 90 {
        n - 55
    } else {
        radix as u32
    };
    if value < radix as u32 {
        Some(value as u8)
    } else {
        None
    }
}

pub proof fn lemma_digits_value_grows(s: Seq<char>, radix: int, n: int)
    requires
        radix >= 1,
        0 <= n <= s.len(),
    ensures
        match digits_value(s, radix) {
            Some(v) => digits_value(s.take(n), radix) is Some && 0 <= digits_value(
                s.take(n),
                radix,
            )->0 <= v,
            None => true,
        },
    decreases s.len() - n,
{
    if n == s.len() {
        assert(s.take(n) =~= s);
        lemma_digits_value_not_negative(s, radix);
    } else {
        lemma_digits_value_grows(s, radix, n + 1);
        assert(s.take(n + 1).drop_last() =~= s.take(n));
        if digits_value(s, radix) is Some {
            lemma_digits_value_not_negative(s.take(n), radix);
            let high = digits_value(s.take(n), radix)->0;
            assert(high * radix >= high) by (nonlinear_arith)
                requires
                    high >= 0,
                    radix >= 1,
            ;
        }
    }
}

pub proof fn lemma_digits_value_not_negative(s: Seq<char>, radix: int)
    requires
        radix >= 1,
    ensures
        digits_value(s, radix) is Some ==> digits_value(s, radix)->0 >= 0,
    decreases s.len(),
{
    if s.len() > 0 {
        lemma_digits_value_not_negative(s.drop_last(), radix);
        if digits_value(s, radix) is Some {
            let high = digits_value(s.drop_last(), radix)->0;
            assert(high * radix >= 0) by (nonlinear_arith)
                requires
                    high >= 0,
                    radix >= 1,
            ;
        }
    }
}

/// The value of a row of digits, where it is at most `2^64`.
fn row_value(s: &[char], radix: u8) -> (r: Option<i128>)
    requires
        2 <= radix <= 36,
    ensures
        match r {
            Some(n) => digits_value(s@, radix as int) == Some(n as int) && 0 <= n
                <= 0x1_0000_0000_0000_0000,
            None => match digits_value(s@, radix as int) {
                Some(n) => n > 0x1_0000_0000_0000_0000,
                None => true,
            },
        },
{
    let mut total: i128 = 0;
    let mut i: usize = 0;
    while i < s.len()
        invariant
            2 <= radix <= 36,
            i <= s@.len(),
            digits_value(s@.take(i as int), radix as int) == Some(total as int),
            0 <= total <= 0x1_0000_0000_0000_0000,
        decreases s@.len() - i,
    {
        assert(s@.take(i + 1).drop_last() =~= s@.take(i as int));
        proof {
            lemma_digits_value_grows(s@, radix as int, i + 1);
        }
        let d: u8 = match value_of_digit(s[i], radix) {
            Some(d) => d,
            None => {
                return None;
            },
        };
        assert(0 <= total * radix <= 0x1_0000_0000_0000_0000 * 36) by (nonlinear_arith)
            requires
                0 <= total <= 0x1_0000_0000_0000_0000,
                0 <= radix <= 36,
        ;
        total = total * (radix as i128) + d as i128;
        i += 1;
        if total > 0x1_0000_0000_0000_0000 {
            return None;
        }
    }
    assert(s@.take(s@.len() as int) =~= s@);
    Some(total)
}

/// The integer that `s` spells, where it lies between `low` and `high`.
pub fn parse_integer(s: &[char], radix: u8, low: i128, high: i128) -> (r: Option<i128>)
    requires
        2 <= radix <= 36,
        -0x1_0000_0000_0000_0000 <= low <= high <= 0x1_0000_0000_0000_0000,
    ensures
        match r {
            Some(n) => parsed(s@, radix as int, low as int, high as int) == Some(n as int) && low
                <= n <= high,
            None => parsed(s@, radix as int, low as int, high as int) is None,
        },
{
    let negative = low < 0 && s.len() > 0 && s[0] == '-';
    let body = if negative || (s.len() > 0 && s[0] == '+') {
        vstd::slice::slice_subrange(s, 1, s.len())
    } else {
        s
    };
    if body.len() == 0 {
        return None;
    }
    match row_value(body, radix) {
        Some(n) => {
            let value: i128 = if negative {
                -n
            } else {
                n
            };
            if low <= value && value <= high {
                Some(value)
            } else {
                None
            }
        },
        None => None,
    }
}

/// The value of a character as a digit of base sixteen.
pub open spec fn nibble(c: char) -> Option<int> {
    if '0' <= c && c <= '9' {
        Some(c as int - '0' as int)
    } else if 'a' <= c && c <= 'f' {
        Some(10 + (c as int - 'a' as int))
    } else if 'A' <= c && c <= 'F' {
        Some(10 + (c as int - 'A' as int))
    } else {
        None
    }
}

/// A number is read digit by digit, the highest first, in either case of letter:
/// one digit more makes it sixteen times as much and that digit.
pub proof fn hex_is_read_digit_by_digit(digits: Seq<char>, c: char, low: int, high: int)
    ensures
        digits_value(seq![c], 16) == nibble(c),
        digits_value(digits.push(c), 16) == (match (digits_value(digits, 16), nibble(c)) {
            (Some(n), Some(d)) => Some(16 * n + d),
            _ => None,
        }),
        digits.len() > 0 && nibble(digits[0]) is Some ==> parsed(digits, 16, low, high) == (
        match digits_value(digits, 16) {
            Some(n) => if low <= n <= high {
                Some(n)
            } else {
                None
            },
            None => None,
        }),
{
    assert(digit_value(c, 16) == nibble(c));
    assert(digits.push(c).drop_last() =~= digits);
    assert(seq![c].drop_last() =~= Seq::empty());
    assert(digits_value(Seq::<char>::empty(), 16) == Some(0int));
    assert(seq![c].last() == c);
}

proof fn lemma_hex(n: nat)
    ensures
        hex(n).len() > 0,
        digits_value(hex(n), 16) == Some(n as int),
        nibble(hex(n)[0]) is Some,
        capital_hex(n).len() > 0,
        digits_value(capital_hex(n), 16) == Some(n as int),
        nibble(capital_hex(n)[0]) is Some,
    decreases n,
{
    let last = digit((n % 16) as int);
    let capital = capital_digit((n % 16) as int);
    assert(digit_value(last, 16) == Some((n % 16) as int));
    assert(digit_value(capital, 16) == Some((n % 16) as int));
    if n < 16 {
        assert(seq![last].drop_last() =~= Seq::empty());
        assert(seq![capital].drop_last() =~= Seq::empty());
        assert(digits_value(Seq::<char>::empty(), 16) == Some(0int));
        assert(hex(n).last() == last);
        assert(capital_hex(n).last() == capital);
        assert(hex(n).drop_last().len() == 0);
        assert(capital_hex(n).drop_last().len() == 0);
    } else {
        lemma_hex(n / 16);
        assert(hex(n).drop_last() =~= hex(n / 16));
        assert(capital_hex(n).drop_last() =~= capital_hex(n / 16));
        assert(hex(n).last() == last);
        assert(capital_hex(n).last() == capital);
        assert(hex(n)[0] == hex(n / 16)[0]);
        assert(capital_hex(n)[0] == capital_hex(n / 16)[0]);
    }
}

/// What is written in base sixteen, in small letters or capitals, is read as the
/// same number.
pub proof fn hex_round_trips(n: nat, low: int, high: int)
    requires
        low <= n <= high,
    ensures
        parsed(hex(n), 16, low, high) == Some(n as int),
        parsed(capital_hex(n), 16, low, high) == Some(n as int),
{
    lemma_hex(n);
}

} // verus!
