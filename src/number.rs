use vstd::prelude::*;
use crate::text::{decimal, digit_char, push_decimal};
use vstd::arithmetic::div_mod::{lemma_div_multiples_vanish, lemma_fundamental_div_mod};

verus! {

/// Most digits written after the decimal point when a number is displayed. Every expansion
/// that ends, ends within this many digits (a denominator `2^a 5^b` that fits `i64` has
/// `a, b < 63`), so only expansions that never end are cut.
pub const MAX_FRACTION_DIGITS: usize = 64;

/// The largest digit value and decimal scale that a number literal is read through.
pub const WIDE_LIMIT: i128 = 1_000_000_000_000_000_000_000_000_000_000_000_000;

/// The value of a sequence of decimal digits, most significant first.
pub open spec fn digits_value(s: Seq<char>) -> int
    decreases s.len(),
{
    if s.len() == 0 {
        0
    } else {
        digits_value(s.drop_last()) * 10 + (s.last() as int - '0' as int)
    }
}

pub open spec fn is_digit_char(c: char) -> bool {
    '0' <= c && c <= '9'
}

pub open spec fn pow10(k: nat) -> int
    decreases k,
{
    if k == 0 {
        1
    } else {
        10 * pow10((k - 1) as nat)
    }
}

pub open spec fn fits_i64(x: int) -> bool {
    i64::MIN <= x <= i64::MAX
}

/// An exact rational number: a numerator over a positive denominator.
/// Two numbers are equal when they denote the same ratio.
#[derive(Clone, Copy, Debug)]
pub struct Number {
    num: i64,
    den: i64,
}

/// The digits after the decimal point of `r / d` (with `r < d`), cut after `k` digits
/// or as soon as the division is exact.
pub open spec fn fraction_digits(r: nat, d: nat, k: nat) -> Seq<char>
    decreases k,
{
    if k == 0 || r == 0 || d == 0 {
        Seq::empty()
    } else {
        seq![digit_char(((r * 10) / d) as int)] + fraction_digits((r * 10) % d, d, (k - 1) as nat)
    }
}

/// The greatest common divisor, by Euclid's algorithm.
pub open spec fn gcd(a: nat, b: nat) -> nat
    decreases b,
{
    if b == 0 {
        a
    } else {
        gcd(b, a % b)
    }
}

pub open spec fn divides(g: int, x: int) -> bool {
    exists|k: int| #[trigger] (k * g) == x
}

pub open spec fn magnitude(x: int) -> nat {
    if x < 0 {
        (-x) as nat
    } else {
        x as nat
    }
}

/// The fraction `p.0 / p.1` in lowest terms: both parts divided by their greatest
/// common divisor.
pub open spec fn reduced(p: (int, int)) -> (int, int) {
    let g = gcd(magnitude(p.0), magnitude(p.1)) as int;
    let m = magnitude(p.0) as int / g;
    (if p.0 < 0 { -m } else { m }, p.1 / g)
}

/// What is left of `r / d` once `fraction_digits(r, d, k)` is written: zero exactly when
/// the expansion ended before the cut.
pub open spec fn fraction_rest(r: nat, d: nat, k: nat) -> nat
    decreases k,
{
    if k == 0 || r == 0 || d == 0 {
        r
    } else {
        fraction_rest((r * 10) % d, d, (k - 1) as nat)
    }
}

/// `Some` with the number `p.0 / p.1` in lowest terms when those parts fit the
/// representation, else `None`.
pub open spec fn holds_parts(r: Option<Number>, p: (int, int)) -> bool {
    match r {
        Some(x) => x.numer() == reduced(p).0 && x.denom() == reduced(p).1,
        None => !(fits_i64(reduced(p).0) && fits_i64(reduced(p).1)),
    }
}

/// The number `p.0 / p.1` in lowest terms when those parts fit the representation, else `None`.
pub open spec fn checked(p: (int, int)) -> Option<Number> {
    let q = reduced(p);
    if fits_i64(q.0) && fits_i64(q.1) && q.1 > 0 {
        Some(Number::from_parts(q))
    } else {
        None
    }
}

/// The number a literal's digits denote, `scale` of them after the point, read through
/// `WIDE_LIMIT`; `None` past that or when it does not fit.
pub open spec fn decimal_number(digits: Seq<char>, scale: nat) -> Option<Number> {
    if digits_value(digits) <= WIDE_LIMIT && pow10(scale) <= WIDE_LIMIT {
        checked((digits_value(digits), pow10(scale)))
    } else {
        None
    }
}

proof fn lemma_gcd(a: nat, b: nat)
    requires
        a > 0 || b > 0,
    ensures
        gcd(a, b) > 0,
        divides(gcd(a, b) as int, a as int),
        divides(gcd(a, b) as int, b as int),
    decreases b,
{
    if b == 0 {
        assert(1 * (a as int) == a);
        assert(0 * (a as int) == 0);
    } else {
        lemma_gcd(b, a % b);
        let g = gcd(a, b) as int;
        let k1 = choose|k: int| #[trigger] (k * g) == b as int;
        let k2 = choose|k: int| #[trigger] (k * g) == (a % b) as int;
        lemma_fundamental_div_mod(a as int, b as int);
        let q = (a as int) / (b as int);
        assert((k1 * q + k2) * g == a as int) by (nonlinear_arith)
            requires
                k1 * g == b as int,
                k2 * g == (a % b) as int,
                a as int == (b as int) * q + (a % b) as int,
        ;
    }
}

proof fn lemma_exact_div(x: int, g: int)
    requires
        g > 0,
        divides(g, x),
    ensures
        (x / g) * g == x,
{
    let k = choose|k: int| #[trigger] (k * g) == x;
    lemma_div_multiples_vanish(k, g);
    assert(g * k == x) by (nonlinear_arith)
        requires
            k * g == x,
    ;
}

/// A number built from parts that fit has exactly those parts.
pub proof fn lemma_from_parts(p: (int, int))
    requires
        fits_i64(p.0),
        fits_i64(p.1),
    ensures
        Number::from_parts(p).numer() == p.0,
        Number::from_parts(p).denom() == p.1,
{
}

/// Lowest terms keep the value and a positive denominator, and never grow the parts.
pub proof fn lemma_reduced(p: (int, int))
    requires
        p.1 > 0,
    ensures
        reduced(p).1 > 0,
        reduced(p).0 * p.1 == p.0 * reduced(p).1,
        magnitude(reduced(p).0) <= magnitude(p.0),
        reduced(p).1 <= p.1,
{
    let a = magnitude(p.0);
    let d = p.1;
    lemma_gcd(a, d as nat);
    let g = gcd(a, d as nat) as int;
    lemma_exact_div(a as int, g);
    lemma_exact_div(d, g);
    let m = a as int / g;
    let e = d / g;
    assert(e > 0 && e <= d && 0 <= m <= a) by (nonlinear_arith)
        requires
            e * g == d,
            m * g == a as int,
            g > 0,
            d > 0,
            a >= 0,
    ;
    assert(m * d == (a as int) * e) by (nonlinear_arith)
        requires
            e * g == d,
            m * g == a as int,
    ;
    assert(magnitude(p.1) == d as nat);
    assert(reduced(p) == (if p.0 < 0 { -m } else { m }, e));
    if p.0 < 0 {
        assert((-m) * d == (-(a as int)) * e) by (nonlinear_arith)
            requires
                m * d == (a as int) * e,
        ;
    }
}

/// The greatest common divisor of two machine numbers.
fn gcd_of(a: u128, b: u128) -> (g: u128)
    ensures
        g == gcd(a as nat, b as nat),
{
    let mut x = a;
    let mut y = b;
    while y != 0
        invariant
            gcd(x as nat, y as nat) == gcd(a as nat, b as nat),
        decreases y,
    {
        let t = x % y;
        x = y;
        y = t;
    }
    x
}

proof fn lemma_digit_char_value(q: int)
    requires
        0 <= q < 10,
    ensures
        digit_char(q) as int - '0' as int == q,
{
}

proof fn lemma_digits_value_prepend(c: char, s: Seq<char>)
    ensures
        digits_value(seq![c] + s) == (c as int - '0' as int) * pow10(s.len()) + digits_value(s),
    decreases s.len(),
{
    let t = seq![c] + s;
    assert(digits_value(t) == digits_value(t.drop_last()) * 10 + (t.last() as int - '0' as int));
    if s.len() == 0 {
        assert(t.drop_last() =~= Seq::<char>::empty());
        assert(t.last() == c);
        assert(pow10(0) == 1);
    } else {
        assert(t.drop_last() =~= seq![c] + s.drop_last());
        assert(t.last() == s.last());
        assert(digits_value(s) == digits_value(s.drop_last()) * 10 + (s.last() as int - '0' as int));
        lemma_digits_value_prepend(c, s.drop_last());
        let x = c as int - '0' as int;
        let p = pow10(s.drop_last().len());
        assert(pow10(s.len()) == 10 * p);
        assert((x * p + digits_value(s.drop_last())) * 10 + (s.last() as int - '0' as int) == x * (10 * p)
            + (digits_value(s.drop_last()) * 10 + (s.last() as int - '0' as int))) by (nonlinear_arith);
    }
}

proof fn lemma_decimal_value(n: nat)
    ensures
        digits_value(decimal(n)) == n,
    decreases n,
{
    if n >= 10 {
        lemma_decimal_value(n / 10);
        lemma_digit_char_value((n % 10) as int);
        lemma_fundamental_div_mod(n as int, 10);
        let t = decimal(n);
        assert(t.drop_last() =~= decimal(n / 10));
        assert(t.last() == digit_char((n % 10) as int));
        assert(digits_value(t) == digits_value(t.drop_last()) * 10 + (t.last() as int - '0' as int));
    } else {
        lemma_digit_char_value(n as int);
        let t = seq![digit_char(n as int)];
        assert(decimal(n) == t);
        assert(t.drop_last() =~= Seq::<char>::empty());
        assert(digits_value(t) == digits_value(t.drop_last()) * 10 + (t.last() as int - '0' as int));
    }
}

proof fn lemma_fraction_digits(r: nat, d: nat, k: nat)
    requires
        r < d,
    ensures
        (r as int) * pow10(fraction_digits(r, d, k).len()) == digits_value(fraction_digits(r, d, k)) * (d as int)
            + fraction_rest(r, d, k) as int,
    decreases k,
{
    if k == 0 || r == 0 || d == 0 {
        assert(fraction_digits(r, d, k).len() == 0);
    } else {
        let q = ((r * 10) / d) as int;
        let r2 = ((r * 10) % d) as nat;
        lemma_fundamental_div_mod((r * 10) as int, d as int);
        assert(q < 10) by (nonlinear_arith)
            requires
                q == (r * 10) as int / (d as int),
                r < d,
                d > 0,
        ;
        lemma_fraction_digits(r2, d, (k - 1) as nat);
        let fd2 = fraction_digits(r2, d, (k - 1) as nat);
        lemma_digits_value_prepend(digit_char(q), fd2);
        lemma_digit_char_value(q);
        let p = pow10(fd2.len());
        assert(pow10((fd2.len() + 1) as nat) == 10 * p);
        assert(fraction_digits(r, d, k) == seq![digit_char(q)] + fd2);
        assert((r as int) * (10 * p) == (q * p + digits_value(fd2)) * (d as int) + fraction_rest(r2, d, (k - 1) as nat))
            by (nonlinear_arith)
            requires
                (r * 10) as int == (d as int) * q + r2 as int,
                (r2 as int) * p == digits_value(fd2) * (d as int) + fraction_rest(r2, d, (k - 1) as nat) as int,
        ;
    }
}

/// A displayed number reads back as its value whenever its expansion ended before the cut:
/// with `whole` the digits before the point and `fraction` the `k` digits after it,
/// `|numer| * 10^k == (whole * 10^k + fraction) * denom`. A whole number has no fraction.
pub proof fn lemma_display_reads_back(n: Number)
    requires
        n.denom() > 0,
    ensures
        ({
            let a = magnitude(n.numer());
            let d = n.denom() as nat;
            let sign = if n.numer() < 0 { seq!['-'] } else { Seq::<char>::empty() };
            let whole = decimal(a / d);
            let fraction = fraction_digits(a % d, d, MAX_FRACTION_DIGITS as nat);
            &&& n.display() == if a % d == 0 {
                sign + whole
            } else {
                sign + whole + seq!['.'] + fraction
            }
            &&& a % d == 0 ==> fraction.len() == 0
            &&& fraction_rest(a % d, d, MAX_FRACTION_DIGITS as nat) == 0 ==> (a as int) * pow10(fraction.len())
                == (digits_value(whole) * pow10(fraction.len()) + digits_value(fraction)) * (d as int)
        }),
{
    let a = magnitude(n.numer());
    let d = n.denom() as nat;
    let fraction = fraction_digits(a % d, d, MAX_FRACTION_DIGITS as nat);
    lemma_decimal_value(a / d);
    lemma_fraction_digits(a % d, d, MAX_FRACTION_DIGITS as nat);
    lemma_fundamental_div_mod(a as int, d as int);
    let p = pow10(fraction.len());
    assert((a as int) * p == (((a / d) as int) * p + digits_value(fraction)) * (d as int)
        + fraction_rest(a % d, d, MAX_FRACTION_DIGITS as nat) as int) by (nonlinear_arith)
        requires
            a as int == (d as int) * ((a / d) as int) + (a % d) as int,
            ((a % d) as int) * p == digits_value(fraction) * (d as int) + fraction_rest(
                a % d,
                d,
                MAX_FRACTION_DIGITS as nat,
            ) as int,
    ;
}

proof fn lemma_fraction_rest_bound(r: nat, d: nat, k: nat)
    requires
        r < d,
    ensures
        fraction_rest(r, d, k) < d,
        fraction_digits(r, d, k).len() <= k,
        fraction_digits(r, d, k).len() < k ==> fraction_rest(r, d, k) == 0,
    decreases k,
{
    if !(k == 0 || r == 0 || d == 0) {
        let r2 = ((r * 10) % d) as nat;
        lemma_fraction_rest_bound(r2, d, (k - 1) as nat);
        assert(fraction_digits(r, d, k).len() == 1 + fraction_digits(r2, d, (k - 1) as nat).len());
    }
}

proof fn lemma_divides_higher_power(d: int, j: nat, k: nat)
    requires
        j <= k,
        divides(d, pow10(j)),
    ensures
        divides(d, pow10(k)),
    decreases k,
{
    if k > j {
        lemma_divides_higher_power(d, j, (k - 1) as nat);
        let w = choose|w: int| #[trigger] (w * d) == pow10((k - 1) as nat);
        assert((10 * w) * d == pow10(k)) by (nonlinear_arith)
            requires
                w * d == pow10((k - 1) as nat),
                pow10(k) == 10 * pow10((k - 1) as nat),
        ;
    }
}

/// A number whose denominator divides `10^j`, for some `j` up to `MAX_FRACTION_DIGITS`, has
/// an expansion that ends before the cut, so it is displayed in full. Every value read
/// from a literal is such a number: its denominator divides `10^scale`.
pub proof fn lemma_decimal_displays_in_full(n: Number, j: nat)
    requires
        n.denom() > 0,
        j <= MAX_FRACTION_DIGITS,
        divides(n.denom(), pow10(j)),
    ensures
        fraction_rest(magnitude(n.numer()) % (n.denom() as nat), n.denom() as nat, MAX_FRACTION_DIGITS as nat)
            == 0,
{
    let d = n.denom() as nat;
    let r = magnitude(n.numer()) % d;
    let k = MAX_FRACTION_DIGITS as nat;
    lemma_fraction_rest_bound(r, d, k);
    lemma_fraction_digits(r, d, k);
    let fd = fraction_digits(r, d, k);
    if fd.len() == k {
        lemma_divides_higher_power(d as int, j, k);
        let w = choose|w: int| #[trigger] (w * (d as int)) == pow10(k);
        let rest = fraction_rest(r, d, k) as int;
        let t = (r as int) * w - digits_value(fd);
        assert(t * (d as int) == rest) by (nonlinear_arith)
            requires
                (r as int) * pow10(k) == digits_value(fd) * (d as int) + rest,
                w * (d as int) == pow10(k),
                t == (r as int) * w - digits_value(fd),
        ;
        assert(rest == 0) by (nonlinear_arith)
            requires
                t * (d as int) == rest,
                0 <= rest < d as int,
        ;
    }
}

/// A value read from a literal has a denominator that divides `10^scale`, with `scale`
/// within the cut, so it is displayed in full.
pub proof fn lemma_literal_denominator(digits: Seq<char>, scale: nat)
    requires
        decimal_number(digits, scale) is Some,
    ensures
        scale <= MAX_FRACTION_DIGITS,
        divides(decimal_number(digits, scale)->Some_0.denom(), pow10(scale)),
{
    let p = (digits_value(digits), pow10(scale));
    lemma_pow10_positive(scale);
    if scale > 36 {
        lemma_pow10_grows(37, scale);
        reveal_with_fuel(pow10, 38);
        assert(pow10(37) == 10_000_000_000_000_000_000_000_000_000_000_000_000int);
    }
    let g = gcd(magnitude(p.0), magnitude(p.1)) as int;
    lemma_gcd(magnitude(p.0), magnitude(p.1));
    lemma_exact_div(p.1, g);
    assert(g * (p.1 / g) == p.1) by (nonlinear_arith)
        requires
            (p.1 / g) * g == p.1,
    ;
}

proof fn lemma_decimal_has_digits_only(n: nat)
    ensures
        forall|i: int| 0 <= i < decimal(n).len() ==> is_digit_char(#[trigger] decimal(n)[i]),
    decreases n,
{
    if n >= 10 {
        lemma_decimal_has_digits_only(n / 10);
        assert(forall|i: int| 0 <= i < decimal(n / 10).len() ==> decimal(n)[i] == decimal(n / 10)[i]);
    }
}

/// A whole number is displayed without a decimal point; any other number is displayed
/// with one, followed by its fraction digits.
pub proof fn lemma_display_point(n: Number)
    ensures
        n.is_integral() <==> !n.display().contains('.'),
{
    let a = if n.numer() < 0 { -n.numer() } else { n.numer() };
    let d = n.denom();
    let sign = if n.numer() < 0 { seq!['-'] } else { Seq::<char>::empty() };
    let whole = decimal((a / d) as nat);
    lemma_decimal_has_digits_only((a / d) as nat);
    if n.is_integral() {
        assert forall|i: int| 0 <= i < n.display().len() implies n.display()[i] != '.' by {
            if i >= sign.len() {
                assert(n.display()[i] == whole[i - sign.len()]);
            }
        }
    } else {
        assert(n.display()[(sign.len() + whole.len()) as int] == '.');
    }
}

proof fn lemma_product_bound(a: int, b: int)
    requires
        -0x8000_0000_0000_0000 <= a <= 0x7fff_ffff_ffff_ffff,
        -0x8000_0000_0000_0000 <= b <= 0x7fff_ffff_ffff_ffff,
    ensures
        -0x4000_0000_0000_0000_0000_0000_0000_0000 <= a * b <= 0x4000_0000_0000_0000_0000_0000_0000_0000,
{
    assert(a * b <= 0x4000_0000_0000_0000_0000_0000_0000_0000 && -0x4000_0000_0000_0000_0000_0000_0000_0000 <= a * b) by (nonlinear_arith)
        requires
            -0x8000_0000_0000_0000 <= a <= 0x8000_0000_0000_0000,
            -0x8000_0000_0000_0000 <= b <= 0x8000_0000_0000_0000,
    ;
}

proof fn lemma_scaled_bound(a: int, b: int)
    requires
        -0x8000_0000_0000_0000 <= a <= 0x7fff_ffff_ffff_ffff,
        1 <= b <= 0x7fff_ffff_ffff_ffff,
    ensures
        -0x3fff_ffff_ffff_ffff_8000_0000_0000_0000 <= a * b <= 0x3fff_ffff_ffff_ffff_8000_0000_0000_0000,
{
    assert(a * b <= 0x8000_0000_0000_0000 * 0x7fff_ffff_ffff_ffff && -(0x8000_0000_0000_0000 * 0x7fff_ffff_ffff_ffff) <= a * b) by (nonlinear_arith)
        requires
            -0x8000_0000_0000_0000 <= a <= 0x8000_0000_0000_0000,
            1 <= b <= 0x7fff_ffff_ffff_ffff,
    ;
}

proof fn lemma_digits_value_grows(s: Seq<char>, i: int)
    requires
        0 <= i <= s.len(),
        forall|j: int| 0 <= j < s.len() ==> is_digit_char(#[trigger] s[j]),
    ensures
        0 <= digits_value(s.subrange(0, i)) <= digits_value(s),
    decreases s.len() - i,
{
    if i < s.len() {
        lemma_digits_value_grows(s, i + 1);
        let t = s.subrange(0, i + 1);
        assert(t.drop_last() =~= s.subrange(0, i));
        assert(is_digit_char(t.last()));
    } else {
        assert(s.subrange(0, i) =~= s);
        lemma_digits_value_nonneg(s);
    }
}

proof fn lemma_digits_value_nonneg(s: Seq<char>)
    requires
        forall|j: int| 0 <= j < s.len() ==> is_digit_char(#[trigger] s[j]),
    ensures
        0 <= digits_value(s),
    decreases s.len(),
{
    if s.len() > 0 {
        assert(forall|j: int| 0 <= j < s.drop_last().len() ==> s.drop_last()[j] == s[j]);
        lemma_digits_value_nonneg(s.drop_last());
        assert(is_digit_char(s[s.len() - 1]));
    }
}

proof fn lemma_pow10_grows(i: nat, k: nat)
    requires
        i <= k,
    ensures
        1 <= pow10(i) <= pow10(k),
    decreases k,
{
    if i < k {
        lemma_pow10_grows(i, (k - 1) as nat);
    } else {
        lemma_pow10_positive(k);
    }
}

proof fn lemma_pow10_positive(k: nat)
    ensures
        pow10(k) >= 1,
    decreases k,
{
    if k > 0 {
        lemma_pow10_positive((k - 1) as nat);
    }
}

impl Number {
    #[verifier::type_invariant]
    spec fn well_formed(self) -> bool {
        self.den > 0
    }

    /// The number with these parts; meaningful when they fit and the denominator is positive.
    pub closed spec fn from_parts(p: (int, int)) -> Number {
        Number { num: p.0 as i64, den: p.1 as i64 }
    }

    /// The numerator.
    pub closed spec fn numer(self) -> int {
        self.num as int
    }

    /// The denominator, always positive.
    pub closed spec fn denom(self) -> int {
        self.den as int
    }

    /// Builds `n / d` from parts that are known to fit.
    fn from_wide(n: i128, d: i128) -> (r: Option<Number>)
        requires
            d > 0,
            n > i128::MIN,
        ensures
            holds_parts(r, (n as int, d as int)),
            r == checked((n as int, d as int)),
    {
        let a: u128 = if n < 0 { (-n) as u128 } else { n as u128 };
        let g = gcd_of(a, d as u128);
        proof {
            lemma_gcd(a as nat, d as nat);
            lemma_reduced((n as int, d as int));
        }
        let m: u128 = a / g;
        let e: u128 = (d as u128) / g;
        if e > i64::MAX as u128 {
            return None;
        }
        if n < 0 {
            if m > 0x8000_0000_0000_0000u128 {
                return None;
            }
            Some(Number { num: (-(m as i128)) as i64, den: e as i64 })
        } else {
            if m > i64::MAX as u128 {
                return None;
            }
            Some(Number { num: m as i64, den: e as i64 })
        }
    }

    /// The whole number `n`.
    pub fn from_integer(n: i64) -> (r: Number)
        ensures
            r.numer() == n,
            r.denom() == 1,
    {
        Number { num: n, den: 1 }
    }

    /// The ratio `num / den`, or `None` when `den` is not positive.
    pub fn from_ratio(num: i64, den: i64) -> (r: Option<Number>)
        ensures
            r is Some <==> den > 0,
            r matches Some(x) ==> x.numer() == num && x.denom() == den,
    {
        if den > 0 {
            Some(Number { num, den })
        } else {
            None
        }
    }

    pub fn numerator(&self) -> (r: i64)
        ensures
            r == self.numer(),
    {
        self.num
    }

    pub fn denominator(&self) -> (r: i64)
        ensures
            r == self.denom(),
            r > 0,
    {
        proof {
            use_type_invariant(self);
        }
        self.den
    }

    /// The number written with the decimal digits `digits`, of which the last `scale`
    /// stand after the decimal point; `None` when it does not fit the representation.
    pub fn from_digits(digits: &[char], scale: usize) -> (r: Option<Number>)
        requires
            forall|j: int| 0 <= j < digits@.len() ==> is_digit_char(#[trigger] digits@[j]),
        ensures
            r == decimal_number(digits@, scale as nat),
    {
        let mut value: i128 = 0;
        let mut i: usize = 0;
        while i < digits.len()
            invariant
                0 <= i <= digits@.len(),
                forall|j: int| 0 <= j < digits@.len() ==> is_digit_char(#[trigger] digits@[j]),
                value == digits_value(digits@.subrange(0, i as int)),
                0 <= value <= WIDE_LIMIT,
            decreases digits@.len() - i,
        {
            let c = digits[i];
            assert(digits@.subrange(0, i + 1).drop_last() =~= digits@.subrange(0, i as int));
            assert(is_digit_char(digits@[i as int]));
            let next: i128 = value * 10 + ((c as u32) - ('0' as u32)) as i128;
            if next > WIDE_LIMIT {
                proof {
                    lemma_digits_value_grows(digits@, i + 1);
                }
                return None;
            }
            value = next;
            i = i + 1;
        }
        assert(digits@.subrange(0, i as int) =~= digits@);
        let mut den: i128 = 1;
        let mut k: usize = 0;
        while k < scale
            invariant
                0 <= k <= scale,
                den == pow10(k as nat),
                1 <= den <= WIDE_LIMIT,
            decreases scale - k,
        {
            let next: i128 = den * 10;
            if next > WIDE_LIMIT {
                proof {
                    lemma_pow10_grows((k + 1) as nat, scale as nat);
                }
                return None;
            }
            den = next;
            k = k + 1;
        }
        Number::from_wide(value, den)
    }

    /// The exact parts of `a + b`, sharing the denominator when both have the same one.
    pub open spec fn sum_parts(a: Number, b: Number) -> (int, int) {
        if a.denom() == b.denom() {
            (a.numer() + b.numer(), a.denom())
        } else {
            (a.numer() * b.denom() + b.numer() * a.denom(), a.denom() * b.denom())
        }
    }

    /// The exact parts of `a - b`.
    pub open spec fn difference_parts(a: Number, b: Number) -> (int, int) {
        if a.denom() == b.denom() {
            (a.numer() - b.numer(), a.denom())
        } else {
            (a.numer() * b.denom() - b.numer() * a.denom(), a.denom() * b.denom())
        }
    }

    /// The exact parts of `a * b`.
    pub open spec fn product_parts(a: Number, b: Number) -> (int, int) {
        (a.numer() * b.numer(), a.denom() * b.denom())
    }

    /// The exact parts of `a / b` for `b != 0`, with a positive denominator.
    pub open spec fn quotient_parts(a: Number, b: Number) -> (int, int) {
        if b.numer() > 0 {
            (a.numer() * b.denom(), a.denom() * b.numer())
        } else {
            (-(a.numer() * b.denom()), -(a.denom() * b.numer()))
        }
    }

    /// Whether `a` and `b` denote the same ratio.
    pub open spec fn same_value(a: Number, b: Number) -> bool {
        a.numer() * b.denom() == b.numer() * a.denom()
    }

    /// Whether `a` is strictly smaller than `b`.
    pub open spec fn below(a: Number, b: Number) -> bool {
        a.numer() * b.denom() < b.numer() * a.denom()
    }

    /// Whether the number is a whole number: its magnitude is a multiple of the denominator.
    pub open spec fn is_integral(self) -> bool {
        (if self.numer() < 0 { -self.numer() } else { self.numer() }) % self.denom() == 0
    }

    /// The display text: a whole number without a decimal point, any other number
    /// with its fraction, cut after `MAX_FRACTION_DIGITS` digits.
    pub open spec fn display(self) -> Seq<char> {
        let a = if self.numer() < 0 { -self.numer() } else { self.numer() };
        let d = self.denom();
        let sign = if self.numer() < 0 { seq!['-'] } else { Seq::<char>::empty() };
        if a % d == 0 {
            sign + decimal((a / d) as nat)
        } else {
            sign + decimal((a / d) as nat) + seq!['.'] + fraction_digits(
                (a % d) as nat,
                d as nat,
                MAX_FRACTION_DIGITS as nat,
            )
        }
    }

    pub fn add(&self, other: &Number) -> (r: Option<Number>)
        ensures
            holds_parts(r, Number::sum_parts(*self, *other)),
            r == checked(Number::sum_parts(*self, *other)),
    {
        proof {
            use_type_invariant(self);
            use_type_invariant(other);
            lemma_scaled_bound(self.num as int, other.den as int);
            lemma_scaled_bound(other.num as int, self.den as int);
            lemma_product_bound(self.den as int, other.den as int);
        }
        if self.den == other.den {
            Number::from_wide(self.num as i128 + other.num as i128, self.den as i128)
        } else {
            let n = (self.num as i128) * (other.den as i128) + (other.num as i128) * (self.den as i128);
            let d = (self.den as i128) * (other.den as i128);
            proof {
                assert(d > 0) by (nonlinear_arith)
                    requires
                        d == self.den * other.den,
                        self.den > 0,
                        other.den > 0,
                ;
            }
            Number::from_wide(n, d)
        }
    }

    pub fn subtract(&self, other: &Number) -> (r: Option<Number>)
        ensures
            holds_parts(r, Number::difference_parts(*self, *other)),
            r == checked(Number::difference_parts(*self, *other)),
    {
        proof {
            use_type_invariant(self);
            use_type_invariant(other);
            lemma_scaled_bound(self.num as int, other.den as int);
            lemma_scaled_bound(other.num as int, self.den as int);
            lemma_product_bound(self.den as int, other.den as int);
        }
        if self.den == other.den {
            Number::from_wide(self.num as i128 - other.num as i128, self.den as i128)
        } else {
            let n = (self.num as i128) * (other.den as i128) - (other.num as i128) * (self.den as i128);
            let d = (self.den as i128) * (other.den as i128);
            proof {
                assert(d > 0) by (nonlinear_arith)
                    requires
                        d == self.den * other.den,
                        self.den > 0,
                        other.den > 0,
                ;
            }
            Number::from_wide(n, d)
        }
    }

    pub fn multiply(&self, other: &Number) -> (r: Option<Number>)
        ensures
            holds_parts(r, Number::product_parts(*self, *other)),
            r == checked(Number::product_parts(*self, *other)),
    {
        proof {
            use_type_invariant(self);
            use_type_invariant(other);
            lemma_product_bound(self.num as int, other.num as int);
            lemma_product_bound(self.den as int, other.den as int);
        }
        let n = (self.num as i128) * (other.num as i128);
        let d = (self.den as i128) * (other.den as i128);
        proof {
            assert(d > 0) by (nonlinear_arith)
                requires
                    d == self.den * other.den,
                    self.den > 0,
                    other.den > 0,
            ;
        }
        Number::from_wide(n, d)
    }

    pub fn divide(&self, other: &Number) -> (r: Option<Number>)
        requires
            other.numer() != 0,
        ensures
            holds_parts(r, Number::quotient_parts(*self, *other)),
            r == checked(Number::quotient_parts(*self, *other)),
    {
        proof {
            use_type_invariant(self);
            use_type_invariant(other);
            lemma_product_bound(self.num as int, other.den as int);
            lemma_product_bound(self.den as int, other.num as int);
        }
        let n = (self.num as i128) * (other.den as i128);
        let d = (self.den as i128) * (other.num as i128);
        if other.num > 0 {
            proof {
                assert(d > 0) by (nonlinear_arith)
                    requires
                        d == self.den * other.num,
                        self.den > 0,
                        other.num > 0,
                ;
            }
            Number::from_wide(n, d)
        } else {
            proof {
                assert(d < 0) by (nonlinear_arith)
                    requires
                        d == self.den * other.num,
                        self.den > 0,
                        other.num < 0,
                ;
            }
            Number::from_wide(-n, -d)
        }
    }

    pub fn negate(&self) -> (r: Option<Number>)
        ensures
            holds_parts(r, (-self.numer(), self.denom())),
            r == checked((-self.numer(), self.denom())),
    {
        proof {
            use_type_invariant(self);
        }
        Number::from_wide(-(self.num as i128), self.den as i128)
    }

    pub fn is_zero(&self) -> (r: bool)
        ensures
            r == (self.numer() == 0),
    {
        self.num == 0
    }

    /// Whether the two numbers denote the same ratio.
    pub fn equals(&self, other: &Number) -> (r: bool)
        ensures
            r == Number::same_value(*self, *other),
    {
        proof {
            lemma_product_bound(self.num as int, other.den as int);
            lemma_product_bound(other.num as int, self.den as int);
        }
        (self.num as i128) * (other.den as i128) == (other.num as i128) * (self.den as i128)
    }

    /// Whether `self < other`.
    pub fn less(&self, other: &Number) -> (r: bool)
        ensures
            r == Number::below(*self, *other),
    {
        proof {
            lemma_product_bound(self.num as int, other.den as int);
            lemma_product_bound(other.num as int, self.den as int);
        }
        (self.num as i128) * (other.den as i128) < (other.num as i128) * (self.den as i128)
    }

    /// The display text of the number.
    pub fn stringify(&self) -> (r: Vec<char>)
        ensures
            r@ == self.display(),
    {
        proof {
            use_type_invariant(self);
        }
        let a: u128 = if self.num < 0 { (-(self.num as i128)) as u128 } else { self.num as u128 };
        let d: u128 = self.den as u128;
        let mut out: Vec<char> = Vec::new();
        if self.num < 0 {
            out.push('-');
        }
        assert(out@ =~= (if self.numer() < 0 { seq!['-'] } else { Seq::<char>::empty() }));
        push_decimal(&mut out, a / d);
        if a % d == 0 {
            return out;
        }
        out.push('.');
        let ghost head = out@;
        let mut rem: u128 = a % d;
        let mut left: usize = MAX_FRACTION_DIGITS;
        while left > 0 && rem != 0
            invariant
                0 <= rem < d,
                d > 0,
                d <= i64::MAX,
                out@ + fraction_digits(rem as nat, d as nat, left as nat) == head + fraction_digits(
                    (a % d) as nat,
                    d as nat,
                    MAX_FRACTION_DIGITS as nat,
                ),
            decreases left,
        {
            let ghost r0 = rem as nat;
            let ghost l0 = left as nat;
            let q: u128 = (rem * 10) / d;
            assert(q < 10) by (nonlinear_arith)
                requires
                    q as int == (rem as int * 10) / (d as int),
                    rem < d,
                    d > 0,
            ;
            let c = ((q as u8) + ('0' as u8)) as char;
            assert(c == digit_char(q as int));
            let ghost before = out@;
            out.push(c);
            rem = (rem * 10) % d;
            left = left - 1;
            proof {
                assert(fraction_digits(r0, d as nat, l0) == seq![digit_char(q as int)] + fraction_digits(
                    rem as nat,
                    d as nat,
                    left as nat,
                ));
                assert(out@ + fraction_digits(rem as nat, d as nat, left as nat) =~= before
                    + fraction_digits(r0, d as nat, l0));
            }
        }
        assert(fraction_digits(rem as nat, d as nat, left as nat) =~= Seq::<char>::empty());
        assert(out@ + Seq::<char>::empty() =~= out@);
        out
    }
}

} // verus!
