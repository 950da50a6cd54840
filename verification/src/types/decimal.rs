//! Decimal numbers, read from numerals such as `-3.14` and compared exactly,
//! digit by digit, whatever their length.
//!
//! A numeral is an optional sign, digits, and optionally a point and more
//! digits; there is one digit at least, before or after the point.

use vstd::prelude::*;
use crate::error::RbfError;
use crate::number::{after_sign, has_minus};
use crate::text::{all_digits, digit_value, digits_value, is_digit, to_chars};
use crate::types::base::{BaseType, Kind};
use crate::types::compare::{pow10, Comparable, Compare, Numeral};
use crate::types::root::RootType;

verus! {

/// Where the first point stands in `s` from `i` on; the length of `s` if there is none.
pub open spec fn point_place(s: Seq<char>, i: int) -> int
    decreases s.len() - i,
{
    if i < 0 || i >= s.len() {
        s.len() as int
    } else if s[i] == '.' {
        i
    } else {
        point_place(s, i + 1)
    }
}

/// The digits before the point of an unsigned numeral.
pub open spec fn whole_part(body: Seq<char>) -> Seq<char> {
    body.take(point_place(body, 0))
}

/// The digits after the point of an unsigned numeral.
pub open spec fn fraction_part(body: Seq<char>) -> Seq<char> {
    if point_place(body, 0) < body.len() {
        body.skip(point_place(body, 0) + 1)
    } else {
        Seq::empty()
    }
}

/// The number that the numeral `text` writes, if it is a numeral.
pub open spec fn decimal_number(text: Seq<char>) -> Option<Numeral> {
    let whole = whole_part(after_sign(text));
    let fraction = fraction_part(after_sign(text));
    if all_digits(whole) && all_digits(fraction) && whole.len() + fraction.len() > 0 {
        Some(
            Numeral {
                units: if has_minus(text) {
                    -(digits_value(whole + fraction) as int)
                } else {
                    digits_value(whole + fraction) as int
                },
                scale: fraction.len(),
            },
        )
    } else {
        None
    }
}

/// The number that a string of digits, given by their values, writes.
pub open spec fn number(ds: Seq<u8>) -> nat
    decreases ds.len(),
{
    if ds.len() == 0 {
        0
    } else {
        number(ds.drop_last()) * 10 + ds.last() as nat
    }
}

/// Whether every element is the value of a digit.
pub open spec fn digits_only(ds: Seq<u8>) -> bool {
    forall|i: int| 0 <= i < ds.len() ==> (#[trigger] ds[i]) < 10
}

/// `n` zeros.
pub open spec fn zeros(n: nat) -> Seq<u8> {
    Seq::new(n, |i: int| 0u8)
}

/// The digits `ds`, of which the last `scale` stand after the point, written
/// with `whole` digits before the point and `fraction` digits after it.
pub open spec fn aligned(ds: Seq<u8>, scale: nat, whole: nat, fraction: nat) -> Seq<u8> {
    zeros((whole - (ds.len() - scale)) as nat) + ds + zeros((fraction - scale) as nat)
}

/// Zeros in front change nothing.
pub proof fn lemma_leading_zeros(k: nat, ds: Seq<u8>)
    ensures
        number(zeros(k) + ds) == number(ds),
    decreases ds.len(), k,
{
    if ds.len() == 0 {
        assert(zeros(k) + ds =~= zeros(k));
        if k > 0 {
            assert(zeros(k).drop_last() =~= zeros((k - 1) as nat) + ds);
            lemma_leading_zeros((k - 1) as nat, ds);
        }
    } else {
        assert((zeros(k) + ds).drop_last() =~= zeros(k) + ds.drop_last());
        lemma_leading_zeros(k, ds.drop_last());
    }
}

/// Every zero at the end multiplies by ten.
pub proof fn lemma_trailing_zeros(ds: Seq<u8>, k: nat)
    ensures
        number(ds + zeros(k)) == number(ds) * pow10(k),
    decreases k,
{
    if k == 0 {
        assert(ds + zeros(0) =~= ds);
        assert(number(ds) * 1 == number(ds)) by (nonlinear_arith);
    } else {
        assert((ds + zeros(k)).drop_last() =~= ds + zeros((k - 1) as nat));
        lemma_trailing_zeros(ds, (k - 1) as nat);
        let n = number(ds);
        let p = pow10((k - 1) as nat);
        assert(n * p * 10 == n * (10 * p)) by (nonlinear_arith);
    }
}

/// Of two strings of digits of one length, the one with the smaller digit
/// at the first place where they differ writes the smaller number.
pub proof fn lemma_first_difference(x: Seq<u8>, y: Seq<u8>, p: int)
    requires
        x.len() == y.len(),
        digits_only(x),
        digits_only(y),
        0 <= p < x.len(),
        x.take(p) == y.take(p),
        x[p] < y[p],
    ensures
        number(x) < number(y),
    decreases x.len(),
{
    let a = x.drop_last();
    let b = y.drop_last();
    if p == x.len() - 1 {
        assert(a =~= x.take(p));
        assert(b =~= y.take(p));
    } else {
        assert(a.take(p) =~= x.take(p));
        assert(b.take(p) =~= y.take(p));
        assert(digits_only(a)) by {
            assert forall|i: int| 0 <= i < a.len() implies (#[trigger] a[i]) < 10 by {
                assert(a[i] == x[i]);
            }
        }
        assert(digits_only(b)) by {
            assert forall|i: int| 0 <= i < b.len() implies (#[trigger] b[i]) < 10 by {
                assert(b[i] == y[i]);
            }
        }
        lemma_first_difference(a, b, p);
    }
}

/// A number is zero exactly if all its digits are.
pub proof fn lemma_zero_digits(ds: Seq<u8>)
    ensures
        number(ds) == 0 <==> forall|i: int| 0 <= i < ds.len() ==> (#[trigger] ds[i]) == 0,
    decreases ds.len(),
{
    if ds.len() > 0 {
        lemma_zero_digits(ds.drop_last());
        assert forall|i: int| 0 <= i < ds.len() - 1 implies ds.drop_last()[i] == ds[i] by {}
        if number(ds) == 0 {
            assert forall|i: int| 0 <= i < ds.len() implies (#[trigger] ds[i]) == 0 by {
                if i < ds.len() - 1 {
                    assert(ds.drop_last()[i] == 0);
                }
            }
        }
    }
}

/// The values of the digits of a digit string.
pub open spec fn values(s: Seq<char>) -> Seq<u8> {
    Seq::new(s.len(), |i: int| digit_value(s[i]) as u8)
}

/// A digit string writes the number that the values of its digits write.
pub proof fn lemma_values(s: Seq<char>)
    requires
        all_digits(s),
    ensures
        number(values(s)) == digits_value(s),
        digits_only(values(s)),
    decreases s.len(),
{
    if s.len() > 0 {
        let rest = s.drop_last();
        assert(all_digits(rest)) by {
            assert forall|i: int| 0 <= i < rest.len() implies is_digit(#[trigger] rest[i]) by {
                assert(rest[i] == s[i]);
            }
        }
        lemma_values(rest);
        assert(values(s).drop_last() =~= values(rest));
        assert(is_digit(s.last()));
    }
    assert forall|i: int| 0 <= i < values(s).len() implies (#[trigger] values(s)[i]) < 10 by {
        assert(is_digit(s[i]));
    }
}

/// The point stands at or after the place where the search starts, and no
/// point stands between the two.
pub proof fn lemma_point_place(s: Seq<char>, i: int)
    requires
        0 <= i <= s.len(),
    ensures
        i <= point_place(s, i) <= s.len(),
        point_place(s, i) < s.len() ==> s[point_place(s, i)] == '.',
        forall|j: int| i <= j < point_place(s, i) ==> #[trigger] s[j] != '.',
    decreases s.len() - i,
{
    if i < s.len() && s[i] != '.' {
        lemma_point_place(s, i + 1);
    }
}

/// How two numbers stand to each other.
#[derive(Debug, Clone, Copy, PartialEq, Eq, Structural)]
pub enum Rank {
    Below,
    Level,
    Above,
}

/// A decimal number: a sign and digits, of which the last `scale` stand
/// after the point.
#[derive(Debug)]
pub struct Decimal {
    negative: bool,
    digits: Vec<u8>,
    scale: usize,
}

pub type DecimalType = RootType<Decimal>;

impl Decimal {
    #[verifier::type_invariant]
    spec fn inv(self) -> bool {
        self.scale <= self.digits.len() && digits_only(self.digits@)
    }

    /// The digits with `whole` digits before the point and `fraction` after it.
    closed spec fn spread(&self, whole: nat, fraction: nat) -> Seq<u8> {
        aligned(self.digits@, self.scale as nat, whole, fraction)
    }

    /// The number without its sign, written with `fraction` decimals and
    /// taken as a whole number.
    closed spec fn magnitude_at(&self, fraction: nat) -> nat {
        number(self.digits@) * pow10((fraction - self.scale) as nat)
    }

    /// The larger of the two counts of decimals.
    closed spec fn decimals_with(&self, other: &Decimal) -> nat {
        if self.scale < other.scale {
            other.scale as nat
        } else {
            self.scale as nat
        }
    }

    /// The digit that stands at `p` when the number is written with `width`
    /// digits before the point.
    fn whole_digit(&self, p: usize, width: usize, Ghost(fraction): Ghost<nat>) -> (d: u8)
        requires
            p < width,
            self.digits.len() - self.scale <= width,
            self.scale <= fraction,
        ensures
            d == self.spread(width as nat, fraction)[p as int],
    {
        proof {
            use_type_invariant(self);
        }
        let pad = width - (self.digits.len() - self.scale);
        if p < pad {
            0
        } else {
            self.digits[p - pad]
        }
    }

    /// The digit that stands at `q` after the point.
    fn fraction_digit(&self, q: usize, Ghost(width): Ghost<nat>, Ghost(fraction): Ghost<nat>) -> (d:
        u8)
        requires
            q < fraction,
            self.digits.len() - self.scale <= width,
            self.scale <= fraction,
        ensures
            d == self.spread(width, fraction)[width + q],
    {
        proof {
            use_type_invariant(self);
        }
        if q < self.scale {
            self.digits[self.digits.len() - self.scale + q]
        } else {
            0
        }
    }

    /// The number written with more digits is the same number.
    proof fn lemma_spread(&self, whole: nat, fraction: nat)
        requires
            self.inv(),
            self.digits.len() - self.scale <= whole,
            self.scale <= fraction,
        ensures
            number(self.spread(whole, fraction)) == self.magnitude_at(fraction),
            digits_only(self.spread(whole, fraction)),
            self.spread(whole, fraction).len() == whole + fraction,
    {
        let front = zeros((whole - (self.digits.len() - self.scale)) as nat);
        lemma_trailing_zeros(front + self.digits@, (fraction - self.scale) as nat);
        lemma_leading_zeros(front.len(), self.digits@);
    }

    /// Tells how the two numbers stand to each other, their signs set aside.
    fn rank(&self, other: &Decimal) -> (r: Rank)
        ensures
            r == Rank::Below <==> self.magnitude_at(self.decimals_with(other)) < other.magnitude_at(
                self.decimals_with(other),
            ),
            r == Rank::Level <==> self.magnitude_at(self.decimals_with(other)) == other.magnitude_at(
                self.decimals_with(other),
            ),
    {
        proof {
            use_type_invariant(self);
            use_type_invariant(other);
        }
        let wa = self.digits.len() - self.scale;
        let wb = other.digits.len() - other.scale;
        let width = if wa < wb {
            wb
        } else {
            wa
        };
        let fraction = if self.scale < other.scale {
            other.scale
        } else {
            self.scale
        };
        let ghost x = self.spread(width as nat, fraction as nat);
        let ghost y = other.spread(width as nat, fraction as nat);
        proof {
            self.lemma_spread(width as nat, fraction as nat);
            other.lemma_spread(width as nat, fraction as nat);
        }
        let mut p: usize = 0;
        while p < width
            invariant
                p <= width,
                wa <= width,
                wb <= width,
                wa == self.digits.len() - self.scale,
                wb == other.digits.len() - other.scale,
                self.scale <= fraction,
                other.scale <= fraction,
                x == self.spread(width as nat, fraction as nat),
                y == other.spread(width as nat, fraction as nat),
                x.len() == width + fraction,
                y.len() == width + fraction,
                digits_only(x),
                digits_only(y),
                number(x) == self.magnitude_at(self.decimals_with(other)),
                number(y) == other.magnitude_at(self.decimals_with(other)),
                x.take(p as int) == y.take(p as int),
            decreases width - p,
        {
            let a = self.whole_digit(p, width, Ghost(fraction as nat));
            let b = other.whole_digit(p, width, Ghost(fraction as nat));
            if a < b {
                proof {
                    lemma_first_difference(x, y, p as int);
                }
                return Rank::Below;
            }
            if b < a {
                proof {
                    lemma_first_difference(y, x, p as int);
                }
                return Rank::Above;
            }
            assert(x.take(p + 1) =~= x.take(p as int).push(a));
            assert(y.take(p + 1) =~= y.take(p as int).push(b));
            p += 1;
        }
        let mut q: usize = 0;
        while q < fraction
            invariant
                q <= fraction,
                wa <= width,
                wb <= width,
                wa == self.digits.len() - self.scale,
                wb == other.digits.len() - other.scale,
                self.scale <= fraction,
                other.scale <= fraction,
                x == self.spread(width as nat, fraction as nat),
                y == other.spread(width as nat, fraction as nat),
                x.len() == width + fraction,
                y.len() == width + fraction,
                digits_only(x),
                digits_only(y),
                number(x) == self.magnitude_at(self.decimals_with(other)),
                number(y) == other.magnitude_at(self.decimals_with(other)),
                x.take(width + q) == y.take(width + q),
            decreases fraction - q,
        {
            let a = self.fraction_digit(q, Ghost(width as nat), Ghost(fraction as nat));
            let b = other.fraction_digit(q, Ghost(width as nat), Ghost(fraction as nat));
            if a < b {
                proof {
                    lemma_first_difference(x, y, width + q);
                }
                return Rank::Below;
            }
            if b < a {
                proof {
                    lemma_first_difference(y, x, width + q);
                }
                return Rank::Above;
            }
            assert(x.take(width + q + 1) =~= x.take(width + q).push(a));
            assert(y.take(width + q + 1) =~= y.take(width + q).push(b));
            q += 1;
        }
        assert(x.take(width + fraction) =~= x);
        assert(y.take(width + fraction) =~= y);
        Rank::Level
    }

    /// Tells whether the number is zero.
    fn is_zero(&self) -> (b: bool)
        ensures
            b == (number(self.digits@) == 0),
    {
        let mut i: usize = 0;
        while i < self.digits.len()
            invariant
                i <= self.digits.len(),
                forall|k: int| 0 <= k < i ==> (#[trigger] self.digits@[k]) == 0,
            decreases self.digits.len() - i,
        {
            if self.digits[i] != 0 {
                proof {
                    lemma_zero_digits(self.digits@);
                }
                return false;
            }
            i += 1;
        }
        proof {
            lemma_zero_digits(self.digits@);
        }
        true
    }

    /// What the comparison of the numbers rests on: the units of both
    /// numbers, written with the same count of decimals.
    proof fn lemma_units(&self, other: &Decimal)
        requires
            self.inv(),
            other.inv(),
        ensures
            ({
                let f = self.decimals_with(other);
                let a = self.magnitude_at(f) as int;
                let b = other.magnitude_at(f) as int;
                &&& self.numeral().units_at(self.numeral().common_scale(other.numeral())) == if self.negative {
                    -a
                } else {
                    a
                }
                &&& other.numeral().units_at(self.numeral().common_scale(other.numeral()))
                    == if other.negative {
                    -b
                } else {
                    b
                }
                &&& (a == 0 <==> number(self.digits@) == 0)
                &&& (b == 0 <==> number(other.digits@) == 0)
            }),
    {
        let f = self.decimals_with(other);
        let n = number(self.digits@) as int;
        let m = number(other.digits@) as int;
        let p = pow10((f - self.scale) as nat) as int;
        let q = pow10((f - other.scale) as nat) as int;
        lemma_pow10_positive((f - self.scale) as nat);
        lemma_pow10_positive((f - other.scale) as nat);
        assert((-n) * p == -(n * p)) by (nonlinear_arith);
        assert((-m) * q == -(m * q)) by (nonlinear_arith);
        assert(n * p == 0 <==> n == 0) by (nonlinear_arith)
            requires
                p > 0,
        ;
        assert(m * q == 0 <==> m == 0) by (nonlinear_arith)
            requires
                q > 0,
        ;
    }
}

/// A power of ten is positive.
pub proof fn lemma_pow10_positive(n: nat)
    ensures
        pow10(n) > 0,
    decreases n,
{
    if n > 0 {
        lemma_pow10_positive((n - 1) as nat);
    }
}

impl Comparable for Decimal {
    open spec fn kind() -> Seq<char> {
        Kind::Decimal.label()
    }

    open spec fn read(text: Seq<char>) -> Option<Numeral> {
        decimal_number(text)
    }

    closed spec fn numeral(&self) -> Numeral {
        Numeral {
            units: if self.negative {
                -(number(self.digits@) as int)
            } else {
                number(self.digits@) as int
            },
            scale: self.scale as nat,
        }
    }

    fn name() -> (r: &'static str) {
        Kind::Decimal.name()
    }

    fn parse(value: &str) -> (r: Option<Self>) {
        let v = to_chars(value);
        let negative = v.len() > 0 && v[0] == '-';
        let start: usize = if v.len() > 0 && (v[0] == '+' || v[0] == '-') {
            1
        } else {
            0
        };
        let ghost body = after_sign(value@);
        let ghost place = point_place(body, 0);
        assert(body =~= v@.skip(start as int));
        proof {
            lemma_point_place(body, 0);
        }
        let mut digits: Vec<u8> = Vec::new();
        let mut i: usize = start;
        while i < v.len() && v[i] != '.'
            invariant
                start <= i <= v.len(),
                v@ == value@,
                body == v@.skip(start as int),
                body == after_sign(value@),
                place == point_place(body, 0),
                place == point_place(body, i - start),
                all_digits(body.take(i - start)),
                digits@ == values(body.take(i - start)),
            decreases v.len() - i,
        {
            let c = v[i];
            assert(body[i - start] == c);
            proof {
                lemma_point_place(body, i - start + 1);
            }
            if !(c >= '0' && c <= '9') {
                assert(whole_part(body)[i - start] == c);
                assert(!is_digit(whole_part(body)[i - start]));
                return None;
            }
            digits.push((c as u32 - '0' as u32) as u8);
            assert(body.take(i - start + 1) =~= body.take(i - start).push(c));
            assert(digits@ =~= values(body.take(i - start + 1)));
            assert(all_digits(body.take(i - start + 1))) by {
                assert forall|k: int| 0 <= k < i - start + 1 implies is_digit(
                    #[trigger] body.take(i - start + 1)[k],
                ) by {
                    if k < i - start {
                        assert(body.take(i - start)[k] == body[k]);
                    }
                }
            }
            i += 1;
        }
        assert(place == i - start);
        let ghost whole = whole_part(body);
        let ghost fraction = fraction_part(body);
        let mut scale: usize = 0;
        if i < v.len() {
            i += 1;
            assert(fraction =~= v@.skip(i as int));
            assert(fraction.take(0) =~= Seq::<char>::empty());
            assert(digits@ =~= values(whole) + values(fraction.take(0)));
            while i < v.len()
                invariant
                    0 <= place,
                    start + place + 1 + scale == i,
                    i <= v.len(),
                    v@ == value@,
                    body == after_sign(value@),
                    whole == whole_part(body),
                    fraction == fraction_part(body),
                    fraction == v@.skip(start + place + 1),
                    all_digits(whole),
                    all_digits(fraction.take(scale as int)),
                    digits@ == values(whole) + values(fraction.take(scale as int)),
                decreases v.len() - i,
            {
                let c = v[i];
                assert(fraction[scale as int] == c);
                if !(c >= '0' && c <= '9') {
                    assert(!is_digit(fraction[scale as int]));
                    return None;
                }
                digits.push((c as u32 - '0' as u32) as u8);
                assert(fraction.take(scale + 1) =~= fraction.take(scale as int).push(c));
                assert(digits@ =~= values(whole) + values(fraction.take(scale + 1)));
                assert(all_digits(fraction.take(scale + 1))) by {
                    assert forall|k: int| 0 <= k < scale + 1 implies is_digit(
                        #[trigger] fraction.take(scale + 1)[k],
                    ) by {
                        if k < scale {
                            assert(fraction.take(scale as int)[k] == fraction[k]);
                        }
                    }
                }
                scale += 1;
                i += 1;
            }
            assert(fraction.take(scale as int) =~= fraction);
        } else {
            assert(fraction =~= Seq::<char>::empty());
            assert(digits@ =~= values(whole) + values(fraction));
        }
        if digits.len() == 0 {
            return None;
        }
        proof {
            assert(all_digits(whole + fraction)) by {
                assert forall|k: int| 0 <= k < (whole + fraction).len() implies is_digit(
                    #[trigger] (whole + fraction)[k],
                ) by {
                    if k < whole.len() {
                        assert((whole + fraction)[k] == whole[k]);
                    } else {
                        assert((whole + fraction)[k] == fraction[k - whole.len()]);
                    }
                }
            }
            lemma_values(whole + fraction);
            assert(values(whole + fraction) =~= values(whole) + values(fraction));
        }
        Some(Decimal { negative, digits, scale })
    }

    fn less(&self, other: &Self) -> (b: bool) {
        proof {
            use_type_invariant(self);
            use_type_invariant(other);
            self.lemma_units(other);
        }
        let rank = self.rank(other);
        if self.negative {
            if other.negative {
                rank == Rank::Above
            } else {
                !(self.is_zero() && other.is_zero())
            }
        } else {
            if other.negative {
                false
            } else {
                rank == Rank::Below
            }
        }
    }

    fn same(&self, other: &Self) -> (b: bool) {
        proof {
            use_type_invariant(self);
            use_type_invariant(other);
            self.lemma_units(other);
        }
        let rank = self.rank(other);
        if self.negative == other.negative {
            rank == Rank::Level
        } else {
            self.is_zero() && other.is_zero()
        }
    }
}

impl BaseType for DecimalType {
    open spec fn kind(&self) -> Kind {
        Kind::Decimal
    }

    open spec fn format_text(&self) -> Seq<char> {
        self.format@
    }

    fn get_name(&self) -> (r: &'static str) {
        assert(self.kind() == Kind::Decimal);
        Kind::Decimal.name()
    }

    fn set_format(&mut self, fmt: &str) {
        self.format = fmt.to_owned();
    }

    fn get_format(&self) -> (r: &str) {
        self.format.as_str()
    }

    fn eq(&self, lhs: &str, rhs: &str) -> (r: Result<bool, RbfError>) {
        Compare::<Decimal>::eq(lhs, rhs)
    }

    fn lt(&self, lhs: &str, rhs: &str) -> (r: Result<bool, RbfError>) {
        Compare::<Decimal>::lt(lhs, rhs)
    }

    fn gt(&self, lhs: &str, rhs: &str) -> (r: Result<bool, RbfError>) {
        Compare::<Decimal>::gt(lhs, rhs)
    }
}

} // verus!
