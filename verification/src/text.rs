//! Decimal text of integers, written and read.
use vstd::prelude::*;
use vstd::string::*;

verus! {

/// The character of the decimal digit `d`.
pub open spec fn digit_char(d: int) -> char {
    ('0' as int + d) as char
}

/// The shortest decimal text of `n`, without sign.
pub open spec fn decimal(n: nat) -> Seq<char>
    decreases n,
{
    if n < 10 {
        seq![digit_char(n as int)]
    } else {
        decimal(n / 10).push(digit_char((n % 10) as int))
    }
}

/// The decimal text of `i`: a minus sign before the digits of a negative
/// number.
pub open spec fn signed_decimal(i: int) -> Seq<char> {
    if i < 0 {
        seq!['-'] + decimal((-i) as nat)
    } else {
        decimal(i as nat)
    }
}

/// The one-character text of the digit `d`.
fn digit_text(d: u64) -> (s: String)
    requires
        d < 10,
    ensures
        s@ == seq![digit_char(d as int)],
{
    let t: &str = if d == 0 {
        proof {
            reveal_strlit("0");
        }
        "0"
    } else if d == 1 {
        proof {
            reveal_strlit("1");
        }
        "1"
    } else if d == 2 {
        proof {
            reveal_strlit("2");
        }
        "2"
    } else if d == 3 {
        proof {
            reveal_strlit("3");
        }
        "3"
    } else if d == 4 {
        proof {
            reveal_strlit("4");
        }
        "4"
    } else if d == 5 {
        proof {
            reveal_strlit("5");
        }
        "5"
    } else if d == 6 {
        proof {
            reveal_strlit("6");
        }
        "6"
    } else if d == 7 {
        proof {
            reveal_strlit("7");
        }
        "7"
    } else if d == 8 {
        proof {
            reveal_strlit("8");
        }
        "8"
    } else {
        proof {
            reveal_strlit("9");
        }
        "9"
    };
    String::from_str(t)
}

/// The decimal text of an unsigned number, as `Display` writes it.
pub fn u64_text(n: u64) -> (s: String)
    ensures
        s@ == decimal(n as nat),
{
    if n < 10 {
        return digit_text(n);
    }
    let mut rest: u64 = n;
    let mut s = String::new();
    while rest > 0
        invariant
            rest > 0 ==> decimal(n as nat) == decimal(rest as nat) + s@,
            rest == 0 ==> decimal(n as nat) == s@,
        decreases rest,
    {
        let d = digit_text(rest % 10);
        proof {
            if rest >= 10 {
                assert(decimal(rest as nat) == decimal((rest / 10) as nat).push(
                    digit_char((rest % 10) as int),
                ));
                assert(decimal((rest / 10) as nat).push(digit_char((rest % 10) as int)) + s@
                    =~= decimal((rest / 10) as nat) + (d@ + s@));
            } else {
                assert(decimal(rest as nat) =~= d@);
            }
        }
        s = d.concat(s.as_str());
        rest = rest / 10;
    }
    s
}

/// The decimal text of a signed number, as `Display` writes it.
pub fn i64_text(i: i64) -> (s: String)
    ensures
        s@ == signed_decimal(i as int),
{
    if i < 0 {
        let magnitude: u64 = if i == i64::MIN {
            9223372036854775808u64
        } else {
            (-i) as u64
        };
        let digits = u64_text(magnitude);
        proof {
            reveal_strlit("-");
        }
        let s = String::from_str("-").concat(digits.as_str());
        s
    } else {
        u64_text(i as u64)
    }
}

/// Why a text is not the decimal text of an integer in range, in the order
/// in which the standard library's integer parser tells them apart.
#[derive(Clone, Copy, Debug, PartialEq, Eq, Structural)]
pub enum IntErrorKind {
    /// The text is empty.
    Empty,
    /// A character is not a digit, or the text is a lone sign.
    InvalidDigit,
    /// The number is above the range.
    PosOverflow,
    /// The number is below the range.
    NegOverflow,
}

/// Whether `c` is an ASCII decimal digit.
pub open spec fn is_digit(c: char) -> bool {
    '0' as int <= c as int <= '9' as int
}

/// The value of the decimal digit `c`.
pub open spec fn digit_value(c: char) -> int {
    c as int - '0' as int
}

/// The outcome of reading the first `n` characters of `digits` as the
/// digits of a number of the given sign: the first character that is not a
/// digit, or the first prefix whose value leaves `[min, max]`, is an error.
pub open spec fn scan_digits(digits: Seq<char>, n: nat, negative: bool, min: int, max: int) -> Result<
    int,
    IntErrorKind,
>
    decreases n,
{
    if n == 0 {
        Ok(0)
    } else {
        match scan_digits(digits, (n - 1) as nat, negative, min, max) {
            Err(e) => Err(e),
            Ok(v) => {
                let c = digits[n - 1];
                if !is_digit(c) {
                    Err(IntErrorKind::InvalidDigit)
                } else {
                    let w = if negative {
                        v * 10 - digit_value(c)
                    } else {
                        v * 10 + digit_value(c)
                    };
                    if w > max {
                        Err(IntErrorKind::PosOverflow)
                    } else if w < min {
                        Err(IntErrorKind::NegOverflow)
                    } else {
                        Ok(w)
                    }
                }
            },
        }
    }
}

/// What reading `s` as a decimal integer in `[min, max]` gives: an optional
/// `+` or `-` followed by digits.
pub open spec fn parse_integer(s: Seq<char>, min: int, max: int) -> Result<int, IntErrorKind> {
    if s.len() == 0 {
        Err(IntErrorKind::Empty)
    } else if s.len() == 1 && (s[0] == '+' || s[0] == '-') {
        Err(IntErrorKind::InvalidDigit)
    } else if s[0] == '-' {
        scan_digits(s.skip(1), (s.len() - 1) as nat, true, min, max)
    } else if s[0] == '+' {
        scan_digits(s.skip(1), (s.len() - 1) as nat, false, min, max)
    } else {
        scan_digits(s, s.len(), false, min, max)
    }
}

/// Once the scan has failed, reading more characters does not change the
/// error.
proof fn lemma_scan_error_persists(
    digits: Seq<char>,
    k: nat,
    m: nat,
    negative: bool,
    min: int,
    max: int,
)
    requires
        k <= m,
        scan_digits(digits, k, negative, min, max) is Err,
    ensures
        scan_digits(digits, m, negative, min, max) == scan_digits(digits, k, negative, min, max),
    decreases m - k,
{
    if k < m {
        lemma_scan_error_persists(digits, k, (m - 1) as nat, negative, min, max);
    }
}

/// Reads `s` as a decimal integer in `[min, max]`, as `str::parse` does for
/// the signed integer type of that range.
pub fn read_integer(s: &str, min: i64, max: i64) -> (r: Result<i64, IntErrorKind>)
    requires
        min <= 0 <= max,
    ensures
        match (r, parse_integer(s@, min as int, max as int)) {
            (Ok(v), Ok(w)) => v as int == w,
            (Err(a), Err(b)) => a == b,
            _ => false,
        },
{
    let n = s.unicode_len();
    if n == 0 {
        return Err(IntErrorKind::Empty);
    }
    let first = s.get_char(0);
    if n == 1 && (first == '+' || first == '-') {
        return Err(IntErrorKind::InvalidDigit);
    }
    let negative = first == '-';
    let start: usize = if first == '-' || first == '+' {
        1
    } else {
        0
    };
    let ghost digits = s@.skip(start as int);
    proof {
        if start == 0 {
            assert(digits =~= s@);
        }
    }
    let mut acc: i64 = 0;
    let mut i: usize = start;
    while i < n
        invariant
            n == s@.len(),
            start <= i <= n,
            start <= 1,
            digits == s@.skip(start as int),
            min <= 0 <= max,
            scan_digits(digits, (i - start) as nat, negative, min as int, max as int) == Ok::<
                int,
                IntErrorKind,
            >(acc as int),
            min <= acc <= max,
            parse_integer(s@, min as int, max as int) == scan_digits(
                digits,
                (n - start) as nat,
                negative,
                min as int,
                max as int,
            ),
        decreases n - i,
    {
        let c = s.get_char(i);
        let ghost k = (i - start + 1) as nat;
        proof {
            assert(digits[i - start] == c);
        }
        let code = c as u32;
        if code < 48 || code > 57 {
            proof {
                assert(!is_digit(c));
                assert(scan_digits(digits, k, negative, min as int, max as int) is Err);
                lemma_scan_error_persists(digits, k, (n - start) as nat, negative, min as int, max as int);
            }
            return Err(IntErrorKind::InvalidDigit);
        }
        let d: i128 = (code - 48) as i128;
        let w: i128 = if negative {
            (acc as i128) * 10 - d
        } else {
            (acc as i128) * 10 + d
        };
        if w > max as i128 {
            proof {
                assert(scan_digits(digits, k, negative, min as int, max as int) is Err);
                lemma_scan_error_persists(digits, k, (n - start) as nat, negative, min as int, max as int);
            }
            return Err(IntErrorKind::PosOverflow);
        }
        if w < min as i128 {
            proof {
                assert(scan_digits(digits, k, negative, min as int, max as int) is Err);
                lemma_scan_error_persists(digits, k, (n - start) as nat, negative, min as int, max as int);
            }
            return Err(IntErrorKind::NegOverflow);
        }
        acc = w as i64;
        i = i + 1;
    }
    Ok(acc)
}

/// Law: a decimal text is not empty, is made of digits only, and starts
/// with a zero only when it is the text of zero.
pub proof fn lemma_decimal_digits(n: nat)
    ensures
        decimal(n).len() >= 1,
        n > 0 ==> decimal(n)[0] != '0',
        forall|i: int| 0 <= i < decimal(n).len() ==> is_digit(#[trigger] decimal(n)[i]),
    decreases n,
{
    if n >= 10 {
        lemma_decimal_digits(n / 10);
        let d = decimal(n / 10);
        assert(decimal(n)[0] == d[0]);
        assert forall|i: int| 0 <= i < decimal(n).len() implies is_digit(
            #[trigger] decimal(n)[i],
        ) by {
            if i < d.len() {
                assert(decimal(n)[i] == d[i]);
            }
        }
    }
}

/// Scanning a prefix does not look past it.
proof fn lemma_scan_prefix(
    digits: Seq<char>,
    c: char,
    k: nat,
    negative: bool,
    min: int,
    max: int,
)
    requires
        k <= digits.len(),
    ensures
        scan_digits(digits.push(c), k, negative, min, max) == scan_digits(
            digits,
            k,
            negative,
            min,
            max,
        ),
    decreases k,
{
    if k > 0 {
        lemma_scan_prefix(digits, c, (k - 1) as nat, negative, min, max);
        assert(digits.push(c)[k - 1] == digits[k - 1]);
    }
}

/// Scanning the decimal text of `n` gives `n`, or `-n` for a negative
/// number, when that is in range.
proof fn lemma_scan_decimal(n: nat, negative: bool, min: int, max: int)
    requires
        min <= 0 <= max,
        negative ==> min <= -n,
        !negative ==> n <= max,
    ensures
        scan_digits(decimal(n), decimal(n).len(), negative, min, max) == Ok::<int, IntErrorKind>(
            if negative {
                -n
            } else {
                n as int
            },
        ),
    decreases n,
{
    let c = digit_char((n % 10) as int);
    assert(digit_value(c) == n % 10);
    assert(is_digit(c));
    if n < 10 {
        assert(decimal(n) =~= seq![c]);
        assert(scan_digits(decimal(n), 0, negative, min, max) == Ok::<int, IntErrorKind>(0));
        assert(decimal(n)[0] == c);
    } else {
        let d = decimal(n / 10);
        assert(n == (n / 10) * 10 + n % 10);
        lemma_scan_decimal(n / 10, negative, min, max);
        lemma_scan_prefix(d, c, d.len(), negative, min, max);
        assert(decimal(n) == d.push(c));
        assert(decimal(n).len() == d.len() + 1);
        assert(decimal(n)[d.len() as int] == c);
        assert(scan_digits(decimal(n), d.len(), negative, min, max) == Ok::<int, IntErrorKind>(
            if negative {
                -(n / 10)
            } else {
                (n / 10) as int
            },
        ));
    }
}

/// Law: the decimal text of a number in range reads back as that number.
pub proof fn lemma_text_reads_back(x: int, min: int, max: int)
    requires
        min <= 0 <= max,
        min <= x <= max,
    ensures
        parse_integer(signed_decimal(x), min, max) == Ok::<int, IntErrorKind>(x),
{
    if x >= 0 {
        let s = decimal(x as nat);
        lemma_decimal_digits(x as nat);
        assert(is_digit(s[0]));
        lemma_scan_decimal(x as nat, false, min, max);
    } else {
        let m = (-x) as nat;
        let s = seq!['-'] + decimal(m);
        lemma_decimal_digits(m);
        assert(s.skip(1) =~= decimal(m));
        lemma_scan_decimal(m, true, min, max);
    }
}

/// Law: different numbers have different decimal texts.
pub proof fn lemma_decimal_injective(a: nat, b: nat)
    requires
        decimal(a) == decimal(b),
    ensures
        a == b,
{
    let m: int = if a < b {
        b as int
    } else {
        a as int
    };
    lemma_scan_decimal(a, false, 0, m);
    lemma_scan_decimal(b, false, 0, m);
}

/// The texts of the given strings.
pub open spec fn texts(v: Seq<String>) -> Seq<Seq<char>> {
    v.map_values(|s: String| s@)
}

/// Whether one of `names` is `name`.
pub fn contains_text(names: &Vec<String>, name: &str) -> (b: bool)
    ensures
        b == texts(names@).contains(name@),
{
    let wanted = String::from_str(name);
    let mut i: usize = 0;
    while i < names.len()
        invariant
            i <= names@.len(),
            wanted@ == name@,
            forall|j: int| 0 <= j < i ==> names@[j]@ != name@,
        decreases names@.len() - i,
    {
        if names[i] == wanted {
            assert(texts(names@)[i as int] == name@);
            return true;
        }
        i = i + 1;
    }
    proof {
        if texts(names@).contains(name@) {
            let j = choose|j: int| 0 <= j < names@.len() && #[trigger] texts(names@)[j] == name@;
            assert(names@[j]@ == name@);
        }
    }
    false
}

/// A scan gives values of its sign; within a range it succeeds exactly as
/// it does within a wider range, when its value lies in the narrower one.
proof fn lemma_scan_range(
    digits: Seq<char>,
    n: nat,
    negative: bool,
    min: int,
    max: int,
    wide_min: int,
    wide_max: int,
)
    requires
        wide_min <= min <= 0 <= max <= wide_max,
    ensures
        scan_digits(digits, n, negative, wide_min, wide_max) matches Ok(x) ==> (if negative {
            x <= 0
        } else {
            x >= 0
        }),
        scan_digits(digits, n, negative, min, max) matches Ok(x) ==> scan_digits(
            digits,
            n,
            negative,
            wide_min,
            wide_max,
        ) == Ok::<int, IntErrorKind>(x),
        scan_digits(digits, n, negative, wide_min, wide_max) matches Ok(x) ==> (min <= x <= max
            ==> scan_digits(digits, n, negative, min, max) == Ok::<int, IntErrorKind>(x)),
    decreases n,
{
    if n > 0 {
        lemma_scan_range(digits, (n - 1) as nat, negative, min, max, wide_min, wide_max);
    }
}

/// Law: reading an integer within a range succeeds exactly when reading it
/// within a wider range succeeds with a number in the narrower range, and
/// then gives that number.  So each integer type accepts exactly the texts
/// of its own range, the same text reading as the same number in all of
/// them.
pub proof fn lemma_parse_range(s: Seq<char>, min: int, max: int, wide_min: int, wide_max: int)
    requires
        wide_min <= min <= 0 <= max <= wide_max,
    ensures
        parse_integer(s, min, max) matches Ok(x) ==> parse_integer(s, wide_min, wide_max) == Ok::<
            int,
            IntErrorKind,
        >(x),
        parse_integer(s, wide_min, wide_max) matches Ok(x) ==> (min <= x <= max ==> parse_integer(
            s,
            min,
            max,
        ) == Ok::<int, IntErrorKind>(x)),
        parse_integer(s, min, max) matches Ok(x) ==> min <= x <= max,
{
    if s.len() > 0 && !(s.len() == 1 && (s[0] == '+' || s[0] == '-')) {
        if s[0] == '-' {
            lemma_scan_range(s.skip(1), (s.len() - 1) as nat, true, min, max, wide_min, wide_max);
            lemma_scan_in_range(s.skip(1), (s.len() - 1) as nat, true, min, max);
        } else if s[0] == '+' {
            lemma_scan_range(s.skip(1), (s.len() - 1) as nat, false, min, max, wide_min, wide_max);
            lemma_scan_in_range(s.skip(1), (s.len() - 1) as nat, false, min, max);
        } else {
            lemma_scan_range(s, s.len(), false, min, max, wide_min, wide_max);
            lemma_scan_in_range(s, s.len(), false, min, max);
        }
    }
}

/// A successful scan stays in its range.
proof fn lemma_scan_in_range(digits: Seq<char>, n: nat, negative: bool, min: int, max: int)
    requires
        min <= 0 <= max,
    ensures
        scan_digits(digits, n, negative, min, max) matches Ok(v) ==> min <= v <= max,
    decreases n,
{
    if n > 0 {
        lemma_scan_in_range(digits, (n - 1) as nat, negative, min, max);
    }
}

} // verus!
