use vstd::arithmetic::div_mod::*;
use vstd::prelude::*;

use crate::config::first_index;

verus! {

/// Digits after the point that a price or volume carries.
pub const FRACTION_DIGITS: usize = 8;

pub open spec fn is_digit(c: char) -> bool {
    '0' <= c && c <= '9'
}

pub open spec fn digit_of(c: char) -> int {
    c as int - '0' as int
}

pub open spec fn all_digits(s: Seq<char>) -> bool {
    forall|i: int| 0 <= i < s.len() ==> is_digit(#[trigger] s[i])
}

/// The number that a string of decimal digits denotes.
pub open spec fn digits_value(s: Seq<char>) -> int
    decreases s.len(),
{
    if s.len() == 0 { 0 } else { digits_value(s.drop_last()) * 10 + digit_of(s.last()) }
}

pub open spec fn pow10(n: nat) -> int
    decreases n,
{
    if n == 0 { 1 } else { 10 * pow10((n - 1) as nat) }
}

/// The digits before the point (the whole text when it has no point).
pub open spec fn int_part(s: Seq<char>) -> Seq<char> {
    if s.contains('.') { s.subrange(0, first_index(s, '.')) } else { s }
}

/// The digits after the point (none when it has no point).
pub open spec fn frac_part(s: Seq<char>) -> Seq<char> {
    if s.contains('.') { s.subrange(first_index(s, '.') + 1, s.len() as int) } else { Seq::empty() }
}

/// The fixed-point value (units of 1e-8) of a decimal text such as `"1.5"`:
/// digits, optionally one point and at most eight more digits, at least one
/// digit in all; none when the text is not of that shape or the value does not fit in `i64`.
pub open spec fn decimal_value(s: Seq<char>) -> Option<int> {
    let ip = int_part(s);
    let fp = frac_part(s);
    let v = digits_value(ip) * 100_000_000 + digits_value(fp) * pow10((8 - fp.len()) as nat);
    if all_digits(ip) && all_digits(fp) && ip.len() + fp.len() >= 1 && fp.len() <= 8 && v
        <= i64::MAX {
        Some(v)
    } else {
        None
    }
}

/// Decimal digits of `n`, without leading zeros (`"0"` for zero).
pub open spec fn digits_of(n: nat) -> Seq<char>
    decreases n,
{
    if n < 10 {
        seq![(n + '0' as nat) as char]
    } else {
        digits_of(n / 10).push(((n % 10) + '0' as nat) as char)
    }
}

/// The last `k` decimal digits of `n`, with leading zeros.
pub open spec fn fixed_digits(n: nat, k: nat) -> Seq<char>
    decreases k,
{
    if k == 0 {
        Seq::empty()
    } else {
        fixed_digits(n / 10, (k - 1) as nat).push(((n % 10) + '0' as nat) as char)
    }
}

/// How a fixed-point value is written: whole units, a point, eight digits.
pub open spec fn decimal_text(v: nat) -> Seq<char> {
    digits_of(v / 100_000_000) + seq!['.'] + fixed_digits(v % 100_000_000, 8)
}

proof fn lemma_digits_of(n: nat)
    ensures
        all_digits(digits_of(n)),
        digits_value(digits_of(n)) == n,
        digits_of(n).len() >= 1,
    decreases n,
{
    if n < 10 {
        let s = digits_of(n);
        assert(s.drop_last() =~= Seq::<char>::empty());
        assert(digits_value(s.drop_last()) == 0);
        assert(digit_of(s.last()) == n);
    } else {
        lemma_digits_of(n / 10);
        let s = digits_of(n);
        assert(s.drop_last() == digits_of(n / 10));
        lemma_fundamental_div_mod(n as int, 10);
        assert(digit_of(s.last()) == n % 10);
        vstd::arithmetic::mul::lemma_mul_is_commutative(10, (n / 10) as int);
        assert forall|i: int| 0 <= i < s.len() implies is_digit(#[trigger] s[i]) by {
            if i < s.len() - 1 {
                assert(s[i] == digits_of(n / 10)[i]);
            }
        }
    }
}

proof fn lemma_fixed_digits(n: nat, k: nat)
    ensures
        all_digits(fixed_digits(n, k)),
        fixed_digits(n, k).len() == k,
        n < pow10(k) ==> digits_value(fixed_digits(n, k)) == n,
    decreases k,
{
    if k > 0 {
        lemma_fixed_digits(n / 10, (k - 1) as nat);
        let s = fixed_digits(n, k);
        assert(s.drop_last() == fixed_digits(n / 10, (k - 1) as nat));
        lemma_fundamental_div_mod(n as int, 10);
        assert forall|i: int| 0 <= i < s.len() implies is_digit(#[trigger] s[i]) by {
            if i < s.len() - 1 {
                assert(s[i] == fixed_digits(n / 10, (k - 1) as nat)[i]);
            }
        }
        if n < pow10(k) {
            assert(n / 10 < pow10((k - 1) as nat)) by {
                lemma_div_by_multiple_is_strongly_ordered(n as int, pow10(k), pow10((k - 1) as nat), 10);
            }
        }
    } else {
        if n < pow10(k) {
            assert(n == 0);
        }
    }
}

/// A text of digits holds no point, so the point that follows it is found right after it.
proof fn lemma_point_after_digits(a: Seq<char>, b: Seq<char>)
    requires
        all_digits(a),
    ensures
        (a + seq!['.'] + b).contains('.'),
        first_index(a + seq!['.'] + b, '.') == a.len(),
    decreases a.len(),
{
    let s = a + seq!['.'] + b;
    assert(s[a.len() as int] == '.');
    if a.len() > 0 {
        assert(s[0] == a[0]);
        assert(is_digit(a[0]));
        let rest = a.drop_first();
        assert(all_digits(rest)) by {
            assert forall|i: int| 0 <= i < rest.len() implies is_digit(#[trigger] rest[i]) by {
                assert(rest[i] == a[i + 1]);
            }
        }
        lemma_point_after_digits(rest, b);
        assert(s.drop_first() =~= rest + seq!['.'] + b);
    }
}

/// Writing a non-negative fixed-point value and reading it back gives the same value.
pub proof fn law_decimal_round_trip(v: int)
    requires
        0 <= v <= i64::MAX,
    ensures
        decimal_value(decimal_text(v as nat)) == Some(v),
{
    let q = (v / 100_000_000) as nat;
    let r = (v % 100_000_000) as nat;
    let a = digits_of(q);
    let b = fixed_digits(r, 8);
    let s = decimal_text(v as nat);
    lemma_digits_of(q);
    lemma_fixed_digits(r, 8);
    lemma_pow10_eight();
    lemma_point_after_digits(a, b);
    assert(int_part(s) =~= a);
    assert(frac_part(s) =~= b);
    assert(pow10(0) == 1);
    lemma_fundamental_div_mod(v, 100_000_000);
}

/// One above `i64::MAX`: digit values at or past it are held as this.
const SATURATED: i128 = 0x8000_0000_0000_0000;

/// Position of the first point of `s`, or its length when it has none.
fn find_point(s: &str, n: usize) -> (r: usize)
    requires
        n == s@.len(),
    ensures
        r <= n,
        r < n ==> s@[r as int] == '.',
        forall|q: int| 0 <= q < r ==> s@[q] != '.',
{
    let mut i: usize = 0;
    while i < n
        invariant
            n == s@.len(),
            i <= n,
            forall|q: int| 0 <= q < i ==> s@[q] != '.',
        decreases n - i,
    {
        if s.get_char(i) == '.' {
            return i;
        }
        i = i + 1;
    }
    n
}

/// The value of the digits `s[from..to]`, held at `SATURATED` once it reaches
/// it; none when a character there is not a digit.
fn digits_saturated(s: &str, from: usize, to: usize) -> (r: Option<i128>)
    requires
        from <= to <= s@.len(),
    ensures
        r is None <==> !all_digits(s@.subrange(from as int, to as int)),
        r matches Some(v) ==> (v as int) == if digits_value(s@.subrange(from as int, to as int))
            >= SATURATED {
            SATURATED as int
        } else {
            digits_value(s@.subrange(from as int, to as int))
        },
        r matches Some(v) ==> digits_value(s@.subrange(from as int, to as int)) >= 0,
{
    let mut acc: i128 = 0;
    let mut j: usize = from;
    proof {
        assert(s@.subrange(from as int, from as int).len() == 0);
    }
    while j < to
        invariant
            from <= j <= to <= s@.len(),
            all_digits(s@.subrange(from as int, j as int)),
            digits_value(s@.subrange(from as int, j as int)) >= 0,
            acc as int == if digits_value(s@.subrange(from as int, j as int)) >= SATURATED {
                SATURATED as int
            } else {
                digits_value(s@.subrange(from as int, j as int))
            },
        decreases to - j,
    {
        let c = s.get_char(j);
        let ghost prev = s@.subrange(from as int, j as int);
        let ghost next = s@.subrange(from as int, j + 1);
        proof {
            assert(next.drop_last() =~= prev);
            assert(next.last() == c);
        }
        if !('0' <= c && c <= '9') {
            proof {
                let whole = s@.subrange(from as int, to as int);
                assert(whole[j - from] == c);
            }
            return None;
        }
        let d = (c as u32 - '0' as u32) as i128;
        let grown = acc * 10 + d;
        acc = if grown >= SATURATED { SATURATED } else { grown };
        proof {
            assert forall|q: int| 0 <= q < next.len() implies is_digit(#[trigger] next[q]) by {
                if q < prev.len() {
                    assert(next[q] == prev[q]);
                }
            }
        }
        j = j + 1;
    }
    Some(acc)
}

/// A value of `k` digits is below `10^k`.
proof fn lemma_digits_below_pow(s: Seq<char>)
    requires
        all_digits(s),
    ensures
        0 <= digits_value(s) < pow10(s.len()),
    decreases s.len(),
{
    if s.len() > 0 {
        let d = s.drop_last();
        assert(all_digits(d)) by {
            assert forall|i: int| 0 <= i < d.len() implies is_digit(#[trigger] d[i]) by {
                assert(d[i] == s[i]);
            }
        }
        lemma_digits_below_pow(d);
        assert(is_digit(s[s.len() - 1]));
    }
}

/// `10^k` for `k <= 8`.
fn pow10_small(k: usize) -> (r: i128)
    requires
        k <= 8,
    ensures
        r as int == pow10(k as nat),
        1 <= r <= 100_000_000,
{
    let mut r: i128 = 1;
    let mut i: usize = 0;
    proof {
        lemma_pow10_mono(0, 8);
    }
    while i < k
        invariant
            i <= k <= 8,
            r as int == pow10(i as nat),
            1 <= r <= pow10(i as nat),
            pow10(i as nat) <= pow10(8),
        decreases k - i,
    {
        proof {
            lemma_pow10_eight();
            lemma_pow10_mono(i as nat + 1, 8);
        }
        r = r * 10;
        i = i + 1;
    }
    proof {
        lemma_pow10_eight();
    }
    r
}

proof fn lemma_pow10_eight()
    ensures
        pow10(8) == 100_000_000,
{
    assert(pow10(0) == 1);
    assert(pow10(1) == 10);
    assert(pow10(2) == 100);
    assert(pow10(3) == 1_000);
    assert(pow10(4) == 10_000);
    assert(pow10(5) == 100_000);
    assert(pow10(6) == 1_000_000);
    assert(pow10(7) == 10_000_000);
}

proof fn lemma_pow10_mono(a: nat, b: nat)
    requires
        a <= b,
    ensures
        1 <= pow10(a) <= pow10(b),
    decreases b,
{
    if b > a {
        lemma_pow10_mono(a, (b - 1) as nat);
    } else if a > 0 {
        lemma_pow10_mono((a - 1) as nat, (a - 1) as nat);
    }
}

/// The first position of an item is the first place that holds it.
pub proof fn lemma_first_index_at<T>(s: Seq<T>, x: T, p: int)
    requires
        0 <= p < s.len(),
        s[p] == x,
        forall|q: int| 0 <= q < p ==> s[q] != x,
    ensures
        first_index(s, x) == p,
        s.contains(x),
    decreases p,
{
    if p > 0 {
        assert(s.drop_first()[p - 1] == x);
        lemma_first_index_at(s.drop_first(), x, p - 1);
    }
}

/// Reads a decimal text such as `"1.50000000"` as a fixed-point value in units of 1e-8.
pub fn parse_decimal(s: &str) -> (r: Option<i64>)
    ensures
        r matches Some(v) ==> decimal_value(s@) == Some(v as int),
        r is None ==> decimal_value(s@) is None,
{
    let n = s.unicode_len();
    let dot = find_point(s, n);
    let frac_from: usize = if dot < n { dot + 1 } else { n };
    proof {
        if dot < n {
            lemma_first_index_at(s@, '.', dot as int);
            assert(int_part(s@) == s@.subrange(0, dot as int));
            assert(frac_part(s@) == s@.subrange(frac_from as int, n as int));
        } else {
            assert(!s@.contains('.'));
            assert(int_part(s@) =~= s@.subrange(0, dot as int));
            assert(frac_part(s@) =~= s@.subrange(frac_from as int, n as int));
        }
    }
    let ghost ip = int_part(s@);
    let ghost fp = frac_part(s@);
    let frac_len = n - frac_from;
    if frac_len > FRACTION_DIGITS || dot + frac_len == 0 {
        return None;
    }
    let iv = match digits_saturated(s, 0, dot) {
        None => return None,
        Some(v) => v,
    };
    let fv = match digits_saturated(s, frac_from, n) {
        None => return None,
        Some(v) => v,
    };
    proof {
        lemma_digits_below_pow(fp);
        lemma_pow10_mono(fp.len(), 8);
        lemma_pow10_eight();
    }
    let scale = pow10_small(FRACTION_DIGITS - frac_len);
    proof {
        assert(0 <= fv * scale <= 100_000_000 * 100_000_000) by (nonlinear_arith)
            requires
                0 <= fv < 100_000_000,
                1 <= scale <= 100_000_000,
        ;
    }
    let total = iv * 100_000_000 + fv * scale;
    proof {
        let v = digits_value(ip) * 100_000_000 + digits_value(fp) * pow10((8 - fp.len()) as nat);
        if digits_value(ip) >= SATURATED {
            assert(digits_value(ip) * 100_000_000 >= SATURATED * 100_000_000) by (nonlinear_arith)
                requires
                    digits_value(ip) >= SATURATED,
            ;
            assert(digits_value(fp) * pow10((8 - fp.len()) as nat) >= 0) by (nonlinear_arith)
                requires
                    digits_value(fp) >= 0,
                    pow10((8 - fp.len()) as nat) >= 1,
            ;
        } else {
            assert(total == v);
        }
    }
    if total > 0x7fff_ffff_ffff_ffff {
        None
    } else {
        Some(total as i64)
    }
}

} // verus!
