use vstd::prelude::*;

verus! {

/// Largest magnitude a mantissa may have: 2^96 - 1.
pub const MAX_MANTISSA: i128 = 0xFFFF_FFFF_FFFF_FFFF_FFFF_FFFF;

/// Largest number of digits after the decimal point.
pub const MAX_SCALE: u32 = 28;

/// `10^n` as a mathematical integer.
pub open spec fn pow10(n: nat) -> int
    decreases n,
{
    if n == 0 {
        1
    } else {
        10 * pow10((n - 1) as nat)
    }
}

pub proof fn lemma_pow10_positive(n: nat)
    ensures
        pow10(n) >= 1,
    decreases n,
{
    if n > 0 {
        lemma_pow10_positive((n - 1) as nat);
    }
}

/// An exact decimal number `mantissa / 10^scale`: a signed 96-bit integer
/// mantissa together with a scale of at most 28 digits.
#[derive(Clone, Copy, Debug)]
pub struct Dec {
    pub mantissa: i128,
    pub scale: u32,
}

/// What `checked_add` of the decimal arithmetic returns: the sum, rounded to
/// the representable precision, or nothing on overflow.
pub uninterp spec fn decimal_sum(a: Dec, b: Dec) -> Option<Dec>;

/// What `checked_sub` of the decimal arithmetic returns.
pub uninterp spec fn decimal_difference(a: Dec, b: Dec) -> Option<Dec>;

/// What `checked_mul` of the decimal arithmetic returns.
pub uninterp spec fn decimal_product(a: Dec, b: Dec) -> Option<Dec>;

/// What `checked_div` of the decimal arithmetic returns.
pub uninterp spec fn decimal_quotient(a: Dec, b: Dec) -> Option<Dec>;

impl Dec {
    /// The representation is within the limits of the decimal arithmetic.
    pub open spec fn wf(self) -> bool {
        &&& self.scale <= MAX_SCALE
        &&& -MAX_MANTISSA <= self.mantissa <= MAX_MANTISSA
    }

    /// Numeric order: `self < o` as rational numbers.
    pub open spec fn lt_spec(self, o: Dec) -> bool {
        self.mantissa * pow10(o.scale as nat) < o.mantissa * pow10(self.scale as nat)
    }

    pub open spec fn is_zero_spec(self) -> bool {
        self.mantissa == 0
    }

    pub open spec fn abs_spec(self) -> Dec {
        Dec { mantissa: if self.mantissa < 0 { (-self.mantissa) as i128 } else { self.mantissa }, scale: self.scale }
    }

    pub open spec fn from_int_spec(n: int) -> Dec {
        Dec { mantissa: n as i128, scale: 0 }
    }

    /// The decimal `mantissa / 10^scale`.
    pub fn new(mantissa: i64, scale: u32) -> (r: Dec)
        requires
            scale <= MAX_SCALE,
        ensures
            r.mantissa == mantissa,
            r.scale == scale,
            r.wf(),
    {
        Dec { mantissa: mantissa as i128, scale }
    }

    /// The decimal `mantissa / 10^scale`, or `None` where it is out of range.
    pub fn from_i128_with_scale(mantissa: i128, scale: u32) -> (r: Option<Dec>)
        ensures
            r is Some <==> (Dec { mantissa, scale }).wf(),
            r is Some ==> r->0 == (Dec { mantissa, scale }),
    {
        if scale <= MAX_SCALE && -MAX_MANTISSA <= mantissa && mantissa <= MAX_MANTISSA {
            Some(Dec { mantissa, scale })
        } else {
            None
        }
    }

    pub fn zero() -> (r: Dec)
        ensures
            r == Dec::from_int_spec(0),
            r.wf(),
    {
        Dec { mantissa: 0, scale: 0 }
    }

    pub fn one() -> (r: Dec)
        ensures
            r == Dec::from_int_spec(1),
            r.wf(),
    {
        Dec { mantissa: 1, scale: 0 }
    }

    pub fn from_i64(n: i64) -> (r: Dec)
        ensures
            r == Dec::from_int_spec(n as int),
            r.wf(),
    {
        Dec { mantissa: n as i128, scale: 0 }
    }

    pub fn mantissa(&self) -> (r: i128)
        ensures
            r == self.mantissa,
    {
        self.mantissa
    }

    pub fn scale(&self) -> (r: u32)
        ensures
            r == self.scale,
    {
        self.scale
    }

    pub fn is_zero(&self) -> (r: bool)
        ensures
            r == self.is_zero_spec(),
    {
        self.mantissa == 0
    }

    pub fn abs(&self) -> (r: Dec)
        requires
            self.wf(),
        ensures
            r == self.abs_spec(),
            r.wf(),
    {
        if self.mantissa < 0 {
            Dec { mantissa: -self.mantissa, scale: self.scale }
        } else {
            *self
        }
    }

    /// `self < o` in numeric order.
    pub fn lt(&self, o: &Dec) -> (r: bool)
        requires
            self.wf(),
            o.wf(),
        ensures
            r == self.lt_spec(*o),
    {
        decimal_less_than(*self, *o)
    }

    pub fn checked_add(&self, o: &Dec) -> (r: Option<Dec>)
        requires
            self.wf(),
            o.wf(),
        ensures
            r == decimal_sum(*self, *o),
            r is Some ==> r->0.wf(),
    {
        decimal_checked_add(*self, *o)
    }

    pub fn checked_sub(&self, o: &Dec) -> (r: Option<Dec>)
        requires
            self.wf(),
            o.wf(),
        ensures
            r == decimal_difference(*self, *o),
            r is Some ==> r->0.wf(),
    {
        decimal_checked_sub(*self, *o)
    }

    pub fn checked_mul(&self, o: &Dec) -> (r: Option<Dec>)
        requires
            self.wf(),
            o.wf(),
        ensures
            r == decimal_product(*self, *o),
            r is Some ==> r->0.wf(),
    {
        decimal_checked_mul(*self, *o)
    }

    pub fn checked_div(&self, o: &Dec) -> (r: Option<Dec>)
        requires
            self.wf(),
            o.wf(),
        ensures
            r == decimal_quotient(*self, *o),
            r is Some ==> r->0.wf(),
            o.is_zero_spec() ==> r is None,
    {
        decimal_checked_div(*self, *o)
    }
}

/// Relies on `rust_decimal::Decimal::checked_add`, and on every `Decimal`
/// having a mantissa within 96 bits and a scale of at most 28.
#[verifier::external_body]
fn decimal_checked_add(a: Dec, b: Dec) -> (r: Option<Dec>)
    requires
        a.wf(),
        b.wf(),
    ensures
        r == decimal_sum(a, b),
        r is Some ==> r->0.wf(),
{
    let x = rust_decimal::Decimal::from_i128_with_scale(a.mantissa, a.scale);
    let y = rust_decimal::Decimal::from_i128_with_scale(b.mantissa, b.scale);
    x.checked_add(y).map(|v| Dec { mantissa: v.mantissa(), scale: v.scale() })
}

/// Relies on `rust_decimal::Decimal::checked_sub`, and on every `Decimal`
/// having a mantissa within 96 bits and a scale of at most 28.
#[verifier::external_body]
fn decimal_checked_sub(a: Dec, b: Dec) -> (r: Option<Dec>)
    requires
        a.wf(),
        b.wf(),
    ensures
        r == decimal_difference(a, b),
        r is Some ==> r->0.wf(),
{
    let x = rust_decimal::Decimal::from_i128_with_scale(a.mantissa, a.scale);
    let y = rust_decimal::Decimal::from_i128_with_scale(b.mantissa, b.scale);
    x.checked_sub(y).map(|v| Dec { mantissa: v.mantissa(), scale: v.scale() })
}

/// Relies on `rust_decimal::Decimal::checked_mul`, and on every `Decimal`
/// having a mantissa within 96 bits and a scale of at most 28.
#[verifier::external_body]
fn decimal_checked_mul(a: Dec, b: Dec) -> (r: Option<Dec>)
    requires
        a.wf(),
        b.wf(),
    ensures
        r == decimal_product(a, b),
        r is Some ==> r->0.wf(),
{
    let x = rust_decimal::Decimal::from_i128_with_scale(a.mantissa, a.scale);
    let y = rust_decimal::Decimal::from_i128_with_scale(b.mantissa, b.scale);
    x.checked_mul(y).map(|v| Dec { mantissa: v.mantissa(), scale: v.scale() })
}

/// Relies on `rust_decimal::Decimal::checked_div`: `None` on a zero divisor
/// or on overflow, and every `Decimal` within 96 bits and scale 28.
#[verifier::external_body]
fn decimal_checked_div(a: Dec, b: Dec) -> (r: Option<Dec>)
    requires
        a.wf(),
        b.wf(),
    ensures
        r == decimal_quotient(a, b),
        r is Some ==> r->0.wf(),
        b.is_zero_spec() ==> r is None,
{
    let x = rust_decimal::Decimal::from_i128_with_scale(a.mantissa, a.scale);
    let y = rust_decimal::Decimal::from_i128_with_scale(b.mantissa, b.scale);
    x.checked_div(y).map(|v| Dec { mantissa: v.mantissa(), scale: v.scale() })
}

/// Relies on the `Ord` of `rust_decimal::Decimal`, which orders by numeric value.
#[verifier::external_body]
fn decimal_less_than(a: Dec, b: Dec) -> (r: bool)
    requires
        a.wf(),
        b.wf(),
    ensures
        r == a.lt_spec(b),
{
    let x = rust_decimal::Decimal::from_i128_with_scale(a.mantissa, a.scale);
    let y = rust_decimal::Decimal::from_i128_with_scale(b.mantissa, b.scale);
    x < y
}

} // verus!
