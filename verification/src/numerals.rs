//! Whole numbers as decimal text.

use vstd::arithmetic::power::*;
use vstd::prelude::*;

verus! {

/// The character of one decimal digit.
pub open spec fn digit(d: int) -> char {
    (48 + d) as char
}

/// A natural number in decimal, without leading zeros.
pub open spec fn decimal(n: nat) -> Seq<char>
    decreases n,
{
    if n < 10 {
        seq![digit(n as int)]
    } else {
        decimal(n / 10).push(digit(n as int % 10))
    }
}

/// A whole number in decimal, with a minus sign in front where it is negative.
pub open spec fn signed_decimal(n: int) -> Seq<char> {
    if n < 0 {
        seq!['-'] + decimal((-n) as nat)
    } else {
        decimal(n as nat)
    }
}

/// `count` zeros.
pub open spec fn zeros(count: int) -> Seq<char> {
    Seq::new(
        if count < 0 {
            0
        } else {
            count as nat
        },
        |i: int| '0',
    )
}

/// A whole number in decimal, filled up with zeros behind the sign to at least `width` characters.
pub open spec fn padded(n: int, width: int) -> Seq<char> {
    if n < 0 {
        seq!['-'] + zeros(width - 1 - decimal((-n) as nat).len()) + decimal((-n) as nat)
    } else {
        zeros(width - decimal(n as nat).len()) + decimal(n as nat)
    }
}

/// A number of at most two digits, written with exactly two.
pub proof fn lemma_two_digits(n: int)
    requires
        0 <= n < 100,
    ensures
        padded(n, 2) =~= seq![digit(n / 10), digit(n % 10)],
{
    reveal_with_fuel(decimal, 2);
}

/// A number of at most four digits, written with exactly four.
pub proof fn lemma_four_digits(n: int)
    requires
        0 <= n < 10_000,
    ensures
        padded(n, 4) =~= padded(n / 100, 2) + padded(n % 100, 2),
{
    reveal_with_fuel(decimal, 4);
    lemma_two_digits(n / 100);
    lemma_two_digits(n % 100);
    assert(n / 10 / 10 == n / 100);
    assert(n / 10 / 10 / 10 == n / 100 / 10);
    assert(n / 10 % 10 == n % 100 / 10);
    assert(n % 10 == n % 100 % 10);
    assert(n / 100 % 10 == n / 10 / 10 % 10);
}

/// Numbers written with two digits stand in the order of their values.
pub proof fn lemma_two_digits_order(a: int, b: int)
    requires
        0 <= a < b < 100,
    ensures
        crate::text::precedes(padded(a, 2), padded(b, 2)),
{
    lemma_two_digits(a);
    lemma_two_digits(b);
    let x = padded(a, 2);
    let y = padded(b, 2);
    assert(x.drop_first()[0] == x[1] && y.drop_first()[0] == y[1]);
    reveal_with_fuel(crate::text::precedes, 3);
}

/// Numbers written with four digits stand in the order of their values.
pub proof fn lemma_four_digits_order(a: int, b: int)
    requires
        0 <= a < b < 10_000,
    ensures
        crate::text::precedes(padded(a, 4), padded(b, 4)),
{
    lemma_four_digits(a);
    lemma_four_digits(b);
    lemma_two_digits(a / 100);
    lemma_two_digits(b / 100);
    if a / 100 == b / 100 {
        lemma_two_digits_order(a % 100, b % 100);
        crate::text::lemma_precedes_behind(padded(a / 100, 2), padded(a % 100, 2), padded(b % 100, 2));
    } else {
        lemma_two_digits_order(a / 100, b / 100);
        crate::text::lemma_precedes_decided(
            padded(a / 100, 2),
            padded(b / 100, 2),
            padded(a % 100, 2),
            padded(b % 100, 2),
        );
    }
}

fn digit_char(d: u64) -> (c: char)
    requires
        d < 10,
    ensures
        c == digit(d as int),
{
    let code: u8 = 48 + d as u8;
    code as char
}

/// The decimal digits of a number.
pub fn decimal_chars(n: u64) -> (v: Vec<char>)
    ensures
        v@ == decimal(n as nat),
    decreases n,
{
    if n < 10 {
        let mut v: Vec<char> = Vec::new();
        v.push(digit_char(n));
        v
    } else {
        let mut v = decimal_chars(n / 10);
        v.push(digit_char(n % 10));
        v
    }
}

/// A natural number as decimal text.
pub fn decimal_text(n: u64) -> (s: String)
    ensures
        s@ == decimal(n as nat),
{
    let v = decimal_chars(n);
    crate::text::text_of(&v)
}

fn magnitude(n: i64) -> (m: u64)
    ensures
        m == if n < 0 {
            -n
        } else {
            n as int
        },
{
    if n >= 0 {
        n as u64
    } else {
        (-(n + 1)) as u64 + 1
    }
}

/// A whole number as decimal text.
pub fn signed_text(n: i64) -> (s: String)
    ensures
        s@ == signed_decimal(n as int),
{
    let digits = decimal_text(magnitude(n));
    if n < 0 {
        let mut s = String::new();
        s.push('-');
        s.append(digits.as_str());
        assert(s@ =~= seq!['-'] + digits@);
        s
    } else {
        digits
    }
}

/// A whole number as decimal text of at least `width` characters, zeros filled in behind the sign.
pub fn padded_text(n: i64, width: u8) -> (s: String)
    ensures
        s@ == padded(n as int, width as int),
{
    let digits = decimal_chars(magnitude(n));
    let mut s = String::new();
    let mut wanted: usize = width as usize;
    if n < 0 {
        s.push('-');
        if wanted > 0 {
            wanted = wanted - 1;
        }
    }
    let ghost start = s@;
    let fill: usize = if digits.len() < wanted {
        wanted - digits.len()
    } else {
        0
    };
    let mut i: usize = 0;
    while i < fill
        invariant
            i <= fill,
            s@ == start + zeros(i as int),
        decreases fill - i,
    {
        s.push('0');
        i = i + 1;
        assert(s@ =~= start + zeros(i as int));
    }
    let tail = crate::text::text_of(&digits);
    s.append(tail.as_str());
    assert(s@ =~= padded(n as int, width as int));
    s
}

/// Whether a character is a decimal digit.
pub open spec fn is_digit(c: char) -> bool {
    '0' <= c <= '9'
}

/// The number a run of digits spells.
pub open spec fn digits_value(s: Seq<char>) -> int
    decreases s.len(),
{
    if s.len() == 0 {
        0
    } else {
        10 * digits_value(s.drop_last()) + (s.last() as int - 48)
    }
}

/// Whether a text is one digit or more, and nothing else.
pub open spec fn all_digits(s: Seq<char>) -> bool {
    s.len() > 0 && forall|i: int| 0 <= i < s.len() ==> is_digit(#[trigger] s[i])
}

/// The natural number a text spells, a plus sign allowed in front, where it is at most `most`.
pub open spec fn natural(s: Seq<char>, most: int) -> Option<int> {
    let digits = if s.len() > 0 && s[0] == '+' {
        s.drop_first()
    } else {
        s
    };
    if all_digits(digits) && digits_value(digits) <= most {
        Some(digits_value(digits))
    } else {
        None
    }
}

/// More digits never spell a smaller number.
proof fn lemma_digits_grow(s: Seq<char>, i: int)
    requires
        0 <= i <= s.len(),
        forall|k: int| 0 <= k < s.len() ==> is_digit(#[trigger] s[k]),
    ensures
        0 <= digits_value(s.take(i)) <= digits_value(s),
    decreases s.len(),
{
    if i < s.len() {
        lemma_digits_grow(s.drop_last(), i);
        assert(s.take(i) =~= s.drop_last().take(i));
        assert(is_digit(s[s.len() - 1]));
    } else {
        assert(s.take(i) =~= s);
        if s.len() > 0 {
            lemma_digits_grow(s.drop_last(), i - 1);
            assert(s.drop_last().take(i - 1) =~= s.drop_last());
            assert(is_digit(s[s.len() - 1]));
        }
    }
}

fn digit_of(c: char) -> (r: Option<u64>)
    ensures
        match r {
            Some(d) => is_digit(c) && d == c as int - 48,
            None => !is_digit(c),
        },
{
    if '0' <= c && c <= '9' {
        Some((c as u8 - 48) as u64)
    } else {
        None
    }
}

fn parse_digits(v: &Vec<char>, from: usize) -> (r: Option<u64>)
    requires
        from <= v@.len(),
    ensures
        match r {
            Some(n) => all_digits(v@.skip(from as int)) && digits_value(v@.skip(from as int)) == n,
            None => !all_digits(v@.skip(from as int)) || digits_value(v@.skip(from as int)) > u64::MAX,
        },
{
    let ghost all = v@.skip(from as int);
    if from == v.len() {
        return None;
    }
    let mut n: u64 = 0;
    let mut i: usize = from;
    assert(all.take(0) =~= Seq::empty());
    while i < v.len()
        invariant
            from <= i <= v@.len(),
            all == v@.skip(from as int),
            n == digits_value(all.take(i - from)),
            forall|k: int| 0 <= k < i - from ==> is_digit(#[trigger] all[k]),
        decreases v@.len() - i,
    {
        let c = v[i];
        assert(c == all[i - from]);
        match digit_of(c) {
            None => {
                return None;
            },
            Some(d) => {
                assert(all.take(i + 1 - from).drop_last() =~= all.take(i - from));
                if n > (u64::MAX - d) / 10 {
                    proof {
                        assert(10 * n + d > u64::MAX);
                        if all_digits(all) {
                            lemma_digits_grow(all, i + 1 - from);
                        }
                    }
                    return None;
                }
                n = n * 10 + d;
            },
        }
        i = i + 1;
    }
    assert(all.take(v@.len() - from) =~= all);
    Some(n)
}

/// The natural number a text spells, a plus sign allowed in front.
pub fn parse_natural(s: &str) -> (r: Option<u64>)
    ensures
        match r {
            Some(n) => natural(s@, u64::MAX as int) == Some(n as int),
            None => natural(s@, u64::MAX as int) is None,
        },
{
    let v = crate::text::chars_of(s);
    if v.len() > 0 && v[0] == '+' {
        assert(v@.skip(1) =~= s@.drop_first());
        parse_digits(&v, 1)
    } else {
        assert(v@.skip(0) =~= s@);
        parse_digits(&v, 0)
    }
}

/// Whether a text spells a whole number: digits, behind a minus sign where it is negative.
pub open spec fn spells(s: Seq<char>, n: int) -> bool {
    if n < 0 {
        s.len() > 0 && s[0] == '-' && all_digits(s.skip(1)) && digits_value(s.skip(1)) == -n
    } else {
        all_digits(s) && digits_value(s) == n
    }
}

/// A natural number reads back from its digits, which no zero leads but the one of nought itself.
pub proof fn naturals_read_back(n: nat)
    ensures
        all_digits(decimal(n)),
        digits_value(decimal(n)) == n,
        decimal(n)[0] == '0' <==> n == 0,
        n == 0 ==> decimal(n).len() == 1,
    decreases n,
{
    reveal_with_fuel(digits_value, 2);
    if n < 10 {
        assert(decimal(n).drop_last() =~= Seq::empty());
    } else {
        naturals_read_back(n / 10);
        assert(decimal(n).drop_last() =~= decimal(n / 10));
        assert(decimal(n)[0] == decimal(n / 10)[0]);
    }
}

/// A whole number reads back from its text.
pub proof fn numbers_read_back(n: int)
    ensures
        spells(signed_decimal(n), n),
{
    if n < 0 {
        naturals_read_back((-n) as nat);
        assert(signed_decimal(n).skip(1) =~= decimal((-n) as nat));
    } else {
        naturals_read_back(n as nat);
    }
}

/// A natural number is read from a text exactly where the text spells it, with a plus sign in front or
/// none, and where it is in range.
pub proof fn spelled_naturals_are_read(n: nat, most: int)
    ensures
        n <= most ==> natural(decimal(n), most) == Some(n as int) && natural(seq!['+'] + decimal(n), most) == Some(
            n as int,
        ),
        n > most ==> natural(decimal(n), most) is None && natural(seq!['+'] + decimal(n), most) is None,
        natural(seq!['-'] + decimal(n), most) is None,
        natural(Seq::empty(), most) is None,
{
    naturals_read_back(n);
    let d = decimal(n);
    assert((seq!['+'] + d).drop_first() =~= d);
    assert(is_digit(d[0]));
    assert((seq!['-'] + d)[0] == '-');
}

/// Zeros in front of digits change nothing of what they spell.
proof fn lemma_leading_zeros(count: int, s: Seq<char>)
    requires
        all_digits(s),
    ensures
        all_digits(zeros(count) + s),
        digits_value(zeros(count) + s) == digits_value(s),
    decreases s.len(),
{
    let whole = zeros(count) + s;
    if s.len() > 1 {
        assert forall|i: int| 0 <= i < s.drop_last().len() implies is_digit(#[trigger] s.drop_last()[i]) by {
            assert(is_digit(s[i]));
        }
        lemma_leading_zeros(count, s.drop_last());
        assert(whole.drop_last() =~= zeros(count) + s.drop_last());
    } else {
        assert(whole.drop_last() =~= zeros(count));
        lemma_zeros(count);
        assert(s.drop_last() =~= Seq::empty());
        reveal_with_fuel(digits_value, 2);
    }
    assert forall|i: int| 0 <= i < whole.len() implies is_digit(#[trigger] whole[i]) by {
        if i >= zeros(count).len() {
            assert(is_digit(s[i - zeros(count).len()]));
        }
    }
}

proof fn lemma_zeros(count: int)
    ensures
        digits_value(zeros(count)) == 0,
    decreases count,
{
    if count > 0 {
        lemma_zeros(count - 1);
        assert(zeros(count).drop_last() =~= zeros(count - 1));
    }
}

/// A natural number below a power of ten has no more digits than that power has zeros.
proof fn lemma_digit_count(n: nat, width: nat)
    requires
        width >= 1,
        n < pow(10, width),
    ensures
        decimal(n).len() <= width,
    decreases width,
{
    reveal(pow);
    if n >= 10 {
        if width == 1 {
            reveal_with_fuel(pow, 2);
            assert(pow(10, 0) == 1);
        } else {
            assert(pow(10, width) == 10 * pow(10, (width - 1) as nat));
            lemma_digit_count(n / 10, (width - 1) as nat);
        }
    }
}

/// A number filled up with zeros reads back, and has the width asked for where it fits.
pub proof fn padded_numbers_read_back(n: int, width: nat)
    requires
        width >= 1,
    ensures
        spells(padded(n, width as int), n),
        padded(n, width as int).len() >= width,
        0 <= n < pow(10, width) ==> padded(n, width as int).len() == width,
{
    let size = if n < 0 {
        (-n) as nat
    } else {
        n as nat
    };
    naturals_read_back(size);
    let fill = if n < 0 {
        width - 1 - decimal(size).len()
    } else {
        width - decimal(size).len()
    };
    lemma_leading_zeros(fill, decimal(size));
    if n < 0 {
        assert(padded(n, width as int).skip(1) =~= zeros(fill) + decimal(size));
    } else if n < pow(10, width) {
        lemma_digit_count(size, width);
    }
}

/// Digits without the zeros at their end spell what is left, times ten for each zero.
pub proof fn trailing_zeros_scale(s: Seq<char>)
    requires
        all_digits(s),
        digits_value(s) > 0,
    ensures
        ({
            let kept = crate::text::without_trailing(s, '0');
            &&& all_digits(kept)
            &&& kept.len() <= s.len()
            &&& kept.last() != '0'
            &&& digits_value(kept) * pow(10, (s.len() - kept.len()) as nat) == digits_value(s)
        }),
    decreases s.len(),
{
    reveal(pow);
    let kept = crate::text::without_trailing(s, '0');
    if s.last() == '0' {
        let before = s.drop_last();
        assert(digits_value(s) == 10 * digits_value(before));
        if before.len() == 0 {
            assert(digits_value(before) == 0);
        }
        assert forall|i: int| 0 <= i < before.len() implies is_digit(#[trigger] before[i]) by {
            assert(is_digit(s[i]));
        }
        trailing_zeros_scale(before);
        let v = digits_value(kept);
        let k = (before.len() - kept.len()) as nat;
        assert((s.len() - kept.len()) as nat == k + 1);
        assert(pow(10, (k + 1) as nat) == 10 * pow(10, k));
        let p = pow(10, k);
        assert(v * (10 * p) == 10 * (v * p)) by (nonlinear_arith);
    } else {
        assert(pow(10, 0) == 1);
    }
}

/// Digits spell the number that is read from them.
pub proof fn digits_spell_naturals(s: Seq<char>)
    requires
        all_digits(s),
    ensures
        digits_value(s) >= 0,
        spells(s, digits_value(s)),
{
    lemma_digits_grow(s, 0);
}

} // verus!
