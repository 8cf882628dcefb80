//! Decimal text: the plain-text integers the hardware control files and the
//! persisted configuration are written in.
//!
//! The spec side gives an exact meaning to a digit string (`digits_val`) and
//! a canonical rendering of an integer (`dec_int`); the exec side parses and
//! renders against those, and `lemma_parse_render_i64` closes the loop: a
//! rendered integer parses back to itself.

use vstd::prelude::*;

verus! {

/// Is `c` a decimal digit?
pub open spec fn is_digit(c: char) -> bool {
    48 <= c as int <= 57
}

/// The numeric value of a digit character.
pub open spec fn digit_val(c: char) -> int {
    c as int - 48
}

/// The digit character for a value 0..=9.
pub open spec fn digit_char(d: int) -> char {
    if d == 0 {
        '0'
    } else if d == 1 {
        '1'
    } else if d == 2 {
        '2'
    } else if d == 3 {
        '3'
    } else if d == 4 {
        '4'
    } else if d == 5 {
        '5'
    } else if d == 6 {
        '6'
    } else if d == 7 {
        '7'
    } else if d == 8 {
        '8'
    } else {
        '9'
    }
}

/// Every character of `s` is a decimal digit.
pub open spec fn all_digits(s: Seq<char>) -> bool {
    forall|i: int| 0 <= i < s.len() ==> is_digit(#[trigger] s[i])
}

/// The number a digit string denotes, most significant digit first.
pub open spec fn digits_val(s: Seq<char>) -> int
    decreases s.len(),
{
    if s.len() == 0 {
        0
    } else {
        digits_val(s.drop_last()) * 10 + digit_val(s.last())
    }
}

/// Ten to the `n`.
pub open spec fn pow10(n: nat) -> int
    decreases n,
{
    if n == 0 {
        1
    } else {
        10 * pow10((n - 1) as nat)
    }
}

/// The canonical digit string of a non-negative number: no sign, no
/// superfluous leading zeros.
pub open spec fn dec_digits(n: int) -> Seq<char>
    recommends
        n >= 0,
    decreases n,
{
    if n < 10 {
        seq![digit_char(n)]
    } else {
        dec_digits(n / 10).push(digit_char(n % 10))
    }
}

/// The canonical decimal text of an integer: a minus sign for negative
/// numbers, then the digits of the magnitude.
pub open spec fn dec_int(v: int) -> Seq<char> {
    if v < 0 {
        seq!['-'] + dec_digits(-v)
    } else {
        dec_digits(v)
    }
}

/// What a decimal string means: one or more digits, optionally preceded by
/// a single minus sign; anything else means nothing.
pub open spec fn parse_int(s: Seq<char>) -> Option<int> {
    if s.len() >= 1 && s[0] == '-' {
        if s.len() >= 2 && all_digits(s.skip(1)) {
            Some(-digits_val(s.skip(1)))
        } else {
            None
        }
    } else {
        if s.len() >= 1 && all_digits(s) {
            Some(digits_val(s))
        } else {
            None
        }
    }
}

/// A digit string is worth less than ten to its length, and never negative.
pub proof fn lemma_digits_val_bound(s: Seq<char>)
    requires
        all_digits(s),
    ensures
        0 <= digits_val(s) < pow10(s.len()),
    decreases s.len(),
{
    if s.len() > 0 {
        assert(all_digits(s.drop_last()));
        lemma_digits_val_bound(s.drop_last());
    }
}

/// A digit string that does not start with zero is worth at least ten to
/// one less than its length.
pub proof fn lemma_digits_val_lower(s: Seq<char>)
    requires
        all_digits(s),
        s.len() > 0,
        s[0] != '0',
    ensures
        digits_val(s) >= pow10((s.len() - 1) as nat),
    decreases s.len(),
{
    if s.len() > 1 {
        assert(all_digits(s.drop_last()));
        assert(s.drop_last()[0] == s[0]);
        lemma_digits_val_lower(s.drop_last());
        assert(digit_val(s.last()) >= 0);
        assert(pow10((s.len() - 1) as nat) == 10 * pow10((s.len() - 2) as nat));
    } else {
        assert(s.drop_last().len() == 0);
        assert(digits_val(s.drop_last()) == 0);
        assert(pow10(0) == 1);
        assert(digit_val(s[0]) >= 1);
    }
}

/// A leading zero does not change a digit string's value.
pub proof fn lemma_strip_leading_zero(s: Seq<char>)
    requires
        all_digits(s),
        s.len() > 0,
        s[0] == '0',
    ensures
        digits_val(s) == digits_val(s.skip(1)),
    decreases s.len(),
{
    if s.len() == 1 {
        assert(s.skip(1).len() == 0);
        assert(digits_val(s.skip(1)) == 0);
        assert(s.drop_last().len() == 0);
        assert(digits_val(s.drop_last()) == 0);
        assert(digit_val(s.last()) == 0);
    } else {
        let t = s.drop_last();
        assert(all_digits(t));
        assert(t[0] == s[0]);
        lemma_strip_leading_zero(t);
        assert(t.skip(1) =~= s.skip(1).drop_last());
        assert(s.skip(1).last() == s.last());
        assert(s.skip(1).len() > 0);
        assert(digits_val(s) == digits_val(t) * 10 + digit_val(s.last()));
        assert(digits_val(s.skip(1)) == digits_val(s.skip(1).drop_last()) * 10 + digit_val(
            s.skip(1).last(),
        ));
    }
}

/// Concrete powers of ten used by the overflow checks.
proof fn lemma_pow10_values()
    ensures
        pow10(18) == 1_000_000_000_000_000_000,
        pow10(19) == 10_000_000_000_000_000_000,
        forall|a: nat, b: nat| a <= b ==> pow10(a) <= pow10(b),
{
    assert(pow10(0) == 1);
    assert(pow10(1) == 10);
    assert(pow10(2) == 100);
    assert(pow10(3) == 1000);
    assert(pow10(4) == 10000);
    assert(pow10(5) == 100000);
    assert(pow10(6) == 1000000);
    assert(pow10(7) == 10000000);
    assert(pow10(8) == 100000000);
    assert(pow10(9) == 1000000000);
    assert(pow10(10) == 10000000000);
    assert(pow10(11) == 100000000000);
    assert(pow10(12) == 1000000000000);
    assert(pow10(13) == 10000000000000);
    assert(pow10(14) == 100000000000000);
    assert(pow10(15) == 1000000000000000);
    assert(pow10(16) == 10000000000000000);
    assert(pow10(17) == 100000000000000000);
    assert(pow10(18) == 1000000000000000000);
    assert(pow10(19) == 10000000000000000000);
    assert forall|a: nat, b: nat| a <= b implies pow10(a) <= pow10(b) by {
        lemma_pow10_monotone(a, b);
    }
}

proof fn lemma_pow10_monotone(a: nat, b: nat)
    requires
        a <= b,
    ensures
        0 < pow10(a) <= pow10(b),
    decreases b,
{
    if a < b {
        lemma_pow10_monotone(a, (b - 1) as nat);
    } else if b > 0 {
        lemma_pow10_monotone((a - 1) as nat, (b - 1) as nat);
    }
}

/// The canonical digit string renders its number: all digits, value equal
/// to the number rendered.
pub proof fn lemma_dec_digits_val(n: int)
    requires
        n >= 0,
    ensures
        all_digits(dec_digits(n)),
        dec_digits(n).len() >= 1,
        digits_val(dec_digits(n)) == n,
    decreases n,
{
    vstd::arithmetic::div_mod::lemma_fundamental_div_mod(n, 10);
    if n < 10 {
        let one = seq![digit_char(n)];
        assert(one.drop_last() =~= Seq::<char>::empty());
        assert(digits_val(Seq::<char>::empty()) == 0);
        assert(one.last() == digit_char(n));
        assert(digit_val(digit_char(n)) == n);
    } else {
        vstd::arithmetic::div_mod::lemma_div_is_ordered(10, n, 10);
        vstd::arithmetic::div_mod::lemma_div_by_multiple(1, 10);
        vstd::arithmetic::div_mod::lemma_div_decreases(n, 10);
        vstd::arithmetic::div_mod::lemma_mod_bound(n, 10);
        lemma_dec_digits_val(n / 10);
        let d = dec_digits(n);
        assert(d == dec_digits(n / 10).push(digit_char(n % 10)));
        assert(d.drop_last() =~= dec_digits(n / 10));
        assert(d.last() == digit_char(n % 10));
    }
}

/// Rendering then parsing an integer gives it back.
pub proof fn lemma_parse_render_i64(v: int)
    ensures
        parse_int(dec_int(v)) == Some(v),
{
    if v < 0 {
        lemma_dec_digits_val(-v);
        let s = dec_int(v);
        assert(s[0] == '-');
        assert(s.skip(1) =~= dec_digits(-v));
        assert(s.len() >= 2);
    } else {
        lemma_dec_digits_val(v);
        let s = dec_int(v);
        assert(is_digit(s[0]));
        assert(s[0] != '-');
    }
}

/// ASCII whitespace, as it appears around the integer in a hardware
/// control file (typically a trailing newline).
pub open spec fn is_space(c: char) -> bool {
    c == ' ' || c == '\t' || c == '\n' || c == '\r'
}

/// `s` without its leading whitespace.
pub open spec fn trim_front(s: Seq<char>) -> Seq<char>
    decreases s.len(),
{
    if s.len() > 0 && is_space(s[0]) {
        trim_front(s.skip(1))
    } else {
        s
    }
}

/// `s` without its trailing whitespace.
pub open spec fn trim_back(s: Seq<char>) -> Seq<char>
    decreases s.len(),
{
    if s.len() > 0 && is_space(s.last()) {
        trim_back(s.drop_last())
    } else {
        s
    }
}

/// `s` without surrounding whitespace.
pub open spec fn trim(s: Seq<char>) -> Seq<char> {
    trim_back(trim_front(s))
}

/// Is `c` ASCII whitespace?
fn is_space_char(c: char) -> (r: bool)
    ensures
        r == is_space(c),
{
    c == ' ' || c == '\t' || c == '\n' || c == '\r'
}

/// The text of `s` without surrounding ASCII whitespace.
#[verifier::loop_isolation(false)]
pub fn trim_str(s: &str) -> (t: &str)
    ensures
        t@ == trim(s@),
{
    let len = s.unicode_len();
    let mut a: usize = 0;
    assert(s@.skip(0) =~= s@);
    while a < len && is_space_char(s.get_char(a))
        invariant
            0 <= a <= len,
            trim_front(s@) == trim_front(s@.skip(a as int)),
        decreases len - a,
    {
        proof {
            assert(s@.skip(a as int)[0] == s@[a as int]);
            assert(s@.skip(a as int).skip(1) =~= s@.skip(a + 1));
        }
        a = a + 1;
    }
    proof {
        if a < len {
            assert(s@.skip(a as int)[0] == s@[a as int]);
        }
        assert(trim_front(s@) == s@.skip(a as int));
    }
    let mut b: usize = len;
    assert(s@.subrange(a as int, len as int) =~= s@.skip(a as int));
    while b > a && is_space_char(s.get_char(b - 1))
        invariant
            a <= b <= len,
            trim_back(s@.skip(a as int)) == trim_back(s@.subrange(a as int, b as int)),
        decreases b,
    {
        proof {
            let u = s@.subrange(a as int, b as int);
            assert(u.last() == s@[b - 1]);
            assert(u.drop_last() =~= s@.subrange(a as int, b - 1));
        }
        b = b - 1;
    }
    proof {
        let u = s@.subrange(a as int, b as int);
        if b > a {
            assert(u.last() == s@[b - 1]);
        }
        assert(trim_back(u) == u);
    }
    s.substring_char(a, b)
}

/// Truncating division: the quotient is rounded toward zero, as the
/// hardware unit conversions expect.
pub open spec fn trunc_div(v: int, d: int) -> int
    recommends
        d > 0,
{
    if v >= 0 {
        v / d
    } else {
        -((-v) / d)
    }
}

/// Parses decimal text: one or more digits, optionally preceded by a
/// single minus sign.  Returns `None` on any other text and on a value
/// outside the 64-bit signed range.
#[verifier::loop_isolation(false)]
#[verifier::rlimit(50)]
pub fn parse_i64(s: &str) -> (r: Option<i64>)
    ensures
        match r {
            Some(v) => parse_int(s@) == Some(v as int),
            None => match parse_int(s@) {
                Some(v) => v < i64::MIN || v > i64::MAX,
                None => true,
            },
        },
{
    let len = s.unicode_len();
    if len == 0 {
        return None;
    }
    let neg = s.get_char(0) == '-';
    let start: usize = if neg {
        1
    } else {
        0
    };
    if start == len {
        return None;
    }
    // Every character after the sign must be a digit.
    let mut i: usize = start;
    while i < len
        invariant
            start <= i <= len,
            forall|j: int| start <= j < i ==> is_digit(#[trigger] s@[j]),
        decreases len - i,
    {
        let c = s.get_char(i);
        let u = c as u32;
        if !(48 <= u && u <= 57) {
            proof {
                assert(!is_digit(s@[i as int]));
                if neg {
                    assert(s@.skip(1)[i - 1] == s@[i as int]);
                    assert(!all_digits(s@.skip(1)));
                }
                assert(parse_int(s@) is None);
            }
            return None;
        }
        i = i + 1;
    }
    let ghost digits = s@.skip(start as int);
    proof {
        assert(forall|j: int| 0 <= j < digits.len() ==> digits[j] == s@[j + start]);
        assert(all_digits(digits));
        lemma_digits_val_bound(digits);
        if !neg {
            assert(digits =~= s@);
        }
    }
    let ghost mag = digits_val(digits);
    let ghost pv: int = if neg {
        -mag
    } else {
        mag
    };
    assert(parse_int(s@) == Some(pv));
    // Skip leading zeros; they carry no value.
    let mut z: usize = start;
    while z < len && s.get_char(z) == '0'
        invariant
            start <= z <= len,
            all_digits(s@.skip(z as int)),
            digits_val(s@.skip(z as int)) == mag,
        decreases len - z,
    {
        proof {
            let t = s@.skip(z as int);
            assert(t[0] == '0');
            lemma_strip_leading_zero(t);
            assert(t.skip(1) =~= s@.skip(z + 1));
            assert(forall|j: int|
                0 <= j < s@.skip(z + 1).len() ==> #[trigger] s@.skip(z + 1)[j] == t[j + 1]);
        }
        z = z + 1;
    }
    proof {
        lemma_pow10_values();
    }
    if len - z > 19 {
        // At least twenty significant digits: the magnitude is at least
        // ten to the nineteen, past either end of the 64-bit range.
        proof {
            let t = s@.skip(z as int);
            assert(t[0] != '0');
            lemma_digits_val_lower(t);
            lemma_pow10_monotone(19, (t.len() - 1) as nat);
        }
        return None;
    }
    // Accumulate the value; with at most nineteen digits it fits in u64.
    let mut acc: u64 = 0;
    let mut k: usize = z;
    assert(s@.subrange(z as int, z as int) =~= Seq::<char>::empty());
    while k < len
        invariant
            z <= k <= len,
            acc as int == digits_val(s@.subrange(z as int, k as int)),
            (acc as int) < pow10((k - z) as nat),
        decreases len - k,
    {
        let c = s.get_char(k);
        let u = c as u32;
        assert(is_digit(s@[k as int])) by {
            assert(s@.skip(z as int)[k - z] == s@[k as int]);
        }
        let d: u64 = (u - 48) as u64;
        proof {
            lemma_pow10_monotone((k - z) as nat, 18);
        }
        acc = acc * 10 + d;
        proof {
            let pre = s@.subrange(z as int, k as int);
            let now = s@.subrange(z as int, k + 1);
            assert(now.drop_last() =~= pre);
            assert(now.last() == s@[k as int]);
            assert(digit_val(s@[k as int]) == d as int);
        }
        k = k + 1;
    }
    proof {
        assert(s@.subrange(z as int, len as int) =~= s@.skip(z as int));
        assert(acc as int == mag);
    }
    if neg {
        if acc > 9_223_372_036_854_775_808u64 {
            return None;
        }
        if acc == 9_223_372_036_854_775_808u64 {
            return Some(i64::MIN);
        }
        Some(-(acc as i64))
    } else {
        if acc > 9_223_372_036_854_775_807u64 {
            return None;
        }
        Some(acc as i64)
    }
}

/// A digit character as one-character text.
fn digit_str(d: u64) -> (r: &'static str)
    requires
        d < 10,
    ensures
        r@ =~= seq![digit_char(d as int)],
        r@.len() == 1,
{
    proof {
        reveal_strlit("0");
        reveal_strlit("1");
        reveal_strlit("2");
        reveal_strlit("3");
        reveal_strlit("4");
        reveal_strlit("5");
        reveal_strlit("6");
        reveal_strlit("7");
        reveal_strlit("8");
        reveal_strlit("9");
    }
    if d == 0 {
        "0"
    } else if d == 1 {
        "1"
    } else if d == 2 {
        "2"
    } else if d == 3 {
        "3"
    } else if d == 4 {
        "4"
    } else if d == 5 {
        "5"
    } else if d == 6 {
        "6"
    } else if d == 7 {
        "7"
    } else if d == 8 {
        "8"
    } else {
        "9"
    }
}

/// Renders a non-negative number as its canonical digit string.
pub fn render_u64(n: u64) -> (s: String)
    ensures
        s@ == dec_digits(n as int),
    decreases n,
{
    if n < 10 {
        let r = String::from_str(digit_str(n));
        assert(r@ =~= dec_digits(n as int));
        r
    } else {
        assert(n / 10 < n && n % 10 < 10) by (nonlinear_arith)
            requires
                n >= 10,
        ;
        let mut s = render_u64(n / 10);
        s.append(digit_str(n % 10));
        assert(s@ =~= dec_digits(n as int)) by {
            assert(n as int / 10 == (n / 10) as int);
            assert(n as int % 10 == (n % 10) as int);
        }
        s
    }
}

/// Renders an integer as canonical decimal text: a minus sign when
/// negative, then the digits of the magnitude.
pub fn render_i64(v: i64) -> (s: String)
    ensures
        s@ == dec_int(v as int),
{
    if v >= 0 {
        render_u64(v as u64)
    } else {
        let mag: u64 = ((-(v + 1)) as u64) + 1;
        assert(mag as int == -(v as int));
        let mut s = String::from_str("-");
        proof {
            reveal_strlit("-");
        }
        s.append(render_u64(mag).as_str());
        assert(s@ =~= dec_int(v as int));
        s
    }
}

/// Divides with truncation toward zero, as the hardware unit conversions
/// (raw micro-units to whole units) require.
pub fn div_trunc(v: i64, d: u64) -> (r: i64)
    requires
        d >= 1,
    ensures
        r as int == trunc_div(v as int, d as int),
{
    if v >= 0 {
        let q = (v as u64) / d;
        q as i64
    } else {
        let mag: u64 = ((-(v + 1)) as u64) + 1;
        assert(mag as int == -(v as int));
        let q = mag / d;
        assert(q as int == (-(v as int)) / (d as int));
        if q >= 9_223_372_036_854_775_808u64 {
            assert(q as int <= mag as int) by {
                vstd::arithmetic::div_mod::lemma_div_is_ordered_by_denominator(
                    mag as int,
                    1,
                    d as int,
                );
                vstd::arithmetic::div_mod::lemma_div_basics(mag as int);
            }
            i64::MIN
        } else {
            -(q as i64)
        }
    }
}

} // verus!
