//! Fixed-point decimal amounts (prices, quantities, fees).
//!
//! A `Dec` holds the two plain values that make up a `rust_decimal::Decimal`:
//! a signed mantissa of at most 96 bits and a scale between 0 and 28, so that
//! its value is `mantissa / 10^scale`.  Every arithmetic operation is carried
//! out by `rust_decimal` itself; comparisons are stated over the exact value.
use rust_decimal::Decimal;
use vstd::prelude::*;

verus! {

/// `10^n`.
pub open spec fn pow10(n: nat) -> int
    decreases n,
{
    if n == 0 {
        1
    } else {
        10 * pow10((n - 1) as nat)
    }
}

/// Largest magnitude of a 96-bit mantissa.
pub open spec fn max_mantissa() -> int {
    79228162514264337593543950335
}

/// Largest scale a decimal may carry.
pub open spec fn max_scale() -> int {
    28
}

/// The parts `(mantissa, scale)` describe a representable decimal.
pub open spec fn parts_wf(p: (i128, u32)) -> bool {
    &&& -max_mantissa() <= p.0 <= max_mantissa()
    &&& p.1 <= max_scale()
}

/// Value of the parts in units of `10^-28` (exact, since the scale is at most 28).
pub open spec fn parts_value(p: (i128, u32)) -> int {
    p.0 * pow10((max_scale() - p.1) as nat)
}

/// Result of `Decimal::checked_add` on the decimals with these parts.
pub uninterp spec fn decimal_checked_add(a: (i128, u32), b: (i128, u32)) -> Option<(i128, u32)>;

/// Result of `Decimal::checked_sub` on the decimals with these parts.
pub uninterp spec fn decimal_checked_sub(a: (i128, u32), b: (i128, u32)) -> Option<(i128, u32)>;

/// Result of `Decimal::checked_mul` on the decimals with these parts.
pub uninterp spec fn decimal_checked_mul(a: (i128, u32), b: (i128, u32)) -> Option<(i128, u32)>;

/// Result of `Decimal::checked_div` on the decimals with these parts.
pub uninterp spec fn decimal_checked_div(a: (i128, u32), b: (i128, u32)) -> Option<(i128, u32)>;

/// Result of `Decimal::from_str` (as mantissa and scale) on this text.
pub uninterp spec fn decimal_from_str(s: Seq<char>) -> Option<(i128, u32)>;

/// Text of `Decimal`'s `Display` for the decimal with these parts.
pub uninterp spec fn decimal_to_string(d: (i128, u32)) -> Seq<char>;

/// Parts of an optional decimal.
pub open spec fn opt_parts(r: Option<Dec>) -> Option<(i128, u32)> {
    match r {
        Some(d) => Some(d@),
        None => None,
    }
}

/// A decimal number `mantissa / 10^scale`.
#[derive(Clone, Copy, Debug)]
pub struct Dec {
    mantissa: i128,
    scale: u32,
}

impl View for Dec {
    type V = (i128, u32);

    closed spec fn view(&self) -> (i128, u32) {
        (self.mantissa, self.scale)
    }
}

/// The decimal with these parts.
pub closed spec fn dec_from_parts(p: (i128, u32)) -> Dec {
    Dec { mantissa: p.0, scale: p.1 }
}

pub open spec fn opt_dec(p: Option<(i128, u32)>) -> Option<Dec> {
    match p {
        Some(q) => Some(dec_from_parts(q)),
        None => None,
    }
}

/// `a + b` (`None` on overflow).
pub open spec fn dec_add(a: Dec, b: Dec) -> Option<Dec> {
    opt_dec(decimal_checked_add(a@, b@))
}

/// `a - b` (`None` on overflow).
pub open spec fn dec_sub(a: Dec, b: Dec) -> Option<Dec> {
    opt_dec(decimal_checked_sub(a@, b@))
}

/// `a * b` (`None` on overflow).
pub open spec fn dec_mul(a: Dec, b: Dec) -> Option<Dec> {
    opt_dec(decimal_checked_mul(a@, b@))
}

/// `a / b` (`None` on overflow or division by zero).
pub open spec fn dec_div(a: Dec, b: Dec) -> Option<Dec> {
    opt_dec(decimal_checked_div(a@, b@))
}

/// A decimal is determined by its parts.
pub broadcast proof fn lemma_dec_from_parts(d: Dec)
    ensures
        #[trigger] dec_from_parts(d@) == d,
{
}

pub broadcast proof fn lemma_parts_of_dec(p: (i128, u32))
    ensures
        #[trigger] dec_from_parts(p)@ == p,
{
}

pub broadcast group group_dec_parts {
    lemma_dec_from_parts,
    lemma_parts_of_dec,
}

pub proof fn lemma_opt_parts(r: Option<Dec>)
    ensures
        opt_dec(opt_parts(r)) == r,
{
}

impl Dec {
    #[verifier::type_invariant]
    spec fn inv(self) -> bool {
        parts_wf((self.mantissa, self.scale))
    }

    /// The exact value, in units of `10^-28`.
    pub open spec fn value(self) -> int {
        parts_value(self@)
    }

    /// The decimal `mantissa / 10^scale` (as `Decimal::from_i128_with_scale`,
    /// which refuses a scale above 28 or a mantissa beyond 96 bits).
    pub fn new(mantissa: i128, scale: u32) -> (d: Dec)
        requires
            parts_wf((mantissa, scale)),
        ensures
            d@ == (mantissa, scale),
            d == Dec::spec_new(mantissa, scale),
    {
        Dec { mantissa, scale }
    }

    /// `Some` of the decimal `mantissa / 10^scale` when it is representable.
    pub fn try_new(mantissa: i128, scale: u32) -> (d: Option<Dec>)
        ensures
            d is Some <==> parts_wf((mantissa, scale)),
            d matches Some(v) ==> v@ == (mantissa, scale),
    {
        if scale <= 28 && -79228162514264337593543950335i128 <= mantissa && mantissa
            <= 79228162514264337593543950335i128 {
            Some(Dec { mantissa, scale })
        } else {
            None
        }
    }

    /// The decimal with these parts.
    pub open spec fn spec_new(mantissa: i128, scale: u32) -> Dec {
        dec_from_parts((mantissa, scale))
    }

    /// Zero with scale 0.
    pub open spec fn spec_zero() -> Dec {
        dec_from_parts((0i128, 0u32))
    }

    /// The whole number `n` with scale 0.
    pub open spec fn spec_from_u64(n: u64) -> Dec {
        dec_from_parts((n as i128, 0u32))
    }

    /// Zero (scale 0).
    pub fn zero() -> (d: Dec)
        ensures
            d@ == (0i128, 0u32),
            d == Dec::spec_zero(),
            d.value() == 0,
    {
        Dec { mantissa: 0, scale: 0 }
    }

    /// One (scale 0).
    pub fn one() -> (d: Dec)
        ensures
            d@ == (1i128, 0u32),
    {
        Dec { mantissa: 1, scale: 0 }
    }

    /// The whole number `n` (scale 0).
    pub fn from_u64(n: u64) -> (d: Dec)
        ensures
            d@ == (n as i128, 0u32),
            d == Dec::spec_from_u64(n),
    {
        Dec { mantissa: n as i128, scale: 0 }
    }

    pub fn mantissa(&self) -> (m: i128)
        ensures
            m == self@.0,
    {
        self.mantissa
    }

    pub fn scale(&self) -> (s: u32)
        ensures
            s == self@.1,
    {
        self.scale
    }

    /// The parts of a decimal are always representable.
    pub fn lemma_wf(&self)
        ensures
            parts_wf(self@),
    {
        proof {
            use_type_invariant(self);
        }
    }

    pub fn is_zero(&self) -> (b: bool)
        ensures
            b == (self@.0 == 0),
    {
        self.mantissa == 0
    }

    /// `|self|`, keeping the scale.
    pub fn abs(&self) -> (d: Dec)
        ensures
            d@ == (if self@.0 < 0 { (-self@.0) as i128 } else { self@.0 }, self@.1),
    {
        proof {
            use_type_invariant(self);
        }
        if self.mantissa < 0 {
            Dec { mantissa: -self.mantissa, scale: self.scale }
        } else {
            *self
        }
    }

    /// `self < other`, by value (`Decimal`'s order).
    #[verifier::external_body]
    pub(crate) fn lt(&self, other: &Dec) -> (b: bool)
        ensures
            b == (self.value() < other.value()),
    {
        Decimal::from_i128_with_scale(self.mantissa, self.scale) < Decimal::from_i128_with_scale(
            other.mantissa,
            other.scale,
        )
    }

    /// `self == other`, by value (`Decimal`'s equality ignores the scale).
    #[verifier::external_body]
    pub(crate) fn eq_value(&self, other: &Dec) -> (b: bool)
        ensures
            b == (self.value() == other.value()),
    {
        Decimal::from_i128_with_scale(self.mantissa, self.scale) == Decimal::from_i128_with_scale(
            other.mantissa,
            other.scale,
        )
    }

    /// `self <= other`, by value.
    pub fn le(&self, other: &Dec) -> (b: bool)
        ensures
            b == (self.value() <= other.value()),
    {
        !other.lt(self)
    }

    /// `Ord::max`: `other` unless `other < self`.
    pub fn max(self, other: Dec) -> (d: Dec)
        ensures
            d == (if other.value() < self.value() { self } else { other }),
    {
        if other.lt(&self) {
            self
        } else {
            other
        }
    }

    /// `Ord::min`: `self` unless `other < self`.
    pub fn min(self, other: Dec) -> (d: Dec)
        ensures
            d == (if other.value() < self.value() { other } else { self }),
    {
        if other.lt(&self) {
            other
        } else {
            self
        }
    }

    /// `Decimal::checked_add`.  Two decimals of the same scale whose
    /// mantissas sum to at most 96 bits add exactly, at that scale; what it
    /// returns otherwise (rescaling, rounding, overflow) is left to the name.
    #[verifier::external_body]
    pub(crate) fn checked_add(self, other: Dec) -> (r: Option<Dec>)
        ensures
            opt_parts(r) == decimal_checked_add(self@, other@),
            self@.1 == other@.1 && -max_mantissa() <= self@.0 + other@.0 <= max_mantissa()
                ==> opt_parts(r) == Some(((self@.0 + other@.0) as i128, self@.1)),
    {
        let a = Decimal::from_i128_with_scale(self.mantissa, self.scale);
        let b = Decimal::from_i128_with_scale(other.mantissa, other.scale);
        match a.checked_add(b) {
            Some(c) => Some(Dec { mantissa: c.mantissa(), scale: c.scale() }),
            None => None,
        }
    }

    /// `Decimal::checked_sub`.  Two decimals of the same scale whose
    /// mantissas differ by at most 96 bits subtract exactly, at that scale;
    /// what it returns otherwise is left to the name.
    #[verifier::external_body]
    pub(crate) fn checked_sub(self, other: Dec) -> (r: Option<Dec>)
        ensures
            opt_parts(r) == decimal_checked_sub(self@, other@),
            self@.1 == other@.1 && -max_mantissa() <= self@.0 - other@.0 <= max_mantissa()
                ==> opt_parts(r) == Some(((self@.0 - other@.0) as i128, self@.1)),
    {
        let a = Decimal::from_i128_with_scale(self.mantissa, self.scale);
        let b = Decimal::from_i128_with_scale(other.mantissa, other.scale);
        match a.checked_sub(b) {
            Some(c) => Some(Dec { mantissa: c.mantissa(), scale: c.scale() }),
            None => None,
        }
    }

    /// `Decimal::checked_mul`.  A product with a zero factor is zero at
    /// scale 0; a product of non-zero factors whose mantissas multiply to at
    /// most 96 bits, with scales adding up to at most 28, is exact at the sum
    /// of the scales; what it returns otherwise (rounding, overflow) is left
    /// to the name.
    #[verifier::external_body]
    pub(crate) fn checked_mul(self, other: Dec) -> (r: Option<Dec>)
        ensures
            opt_parts(r) == decimal_checked_mul(self@, other@),
            self@.0 == 0 || other@.0 == 0 ==> opt_parts(r) == Some((0i128, 0u32)),
            self@.0 != 0 && other@.0 != 0 && self@.1 + other@.1 <= max_scale() && -max_mantissa()
                <= self@.0 * other@.0 <= max_mantissa() ==> opt_parts(r) == Some(
                ((self@.0 * other@.0) as i128, (self@.1 + other@.1) as u32),
            ),
    {
        let a = Decimal::from_i128_with_scale(self.mantissa, self.scale);
        let b = Decimal::from_i128_with_scale(other.mantissa, other.scale);
        match a.checked_mul(b) {
            Some(c) => Some(Dec { mantissa: c.mantissa(), scale: c.scale() }),
            None => None,
        }
    }

    /// `Decimal::checked_div` (`None` when dividing by zero or on overflow).
    #[verifier::external_body]
    pub(crate) fn checked_div(self, other: Dec) -> (r: Option<Dec>)
        ensures
            opt_parts(r) == decimal_checked_div(self@, other@),
    {
        let a = Decimal::from_i128_with_scale(self.mantissa, self.scale);
        let b = Decimal::from_i128_with_scale(other.mantissa, other.scale);
        match a.checked_div(b) {
            Some(c) => Some(Dec { mantissa: c.mantissa(), scale: c.scale() }),
            None => None,
        }
    }

    /// `Decimal`'s `Display` text (`to_string`).
    #[verifier::external_body]
    pub(crate) fn to_text(&self) -> (s: String)
        ensures
            s@ == decimal_to_string(self@),
    {
        Decimal::from_i128_with_scale(self.mantissa, self.scale).to_string()
    }

    /// `Decimal::from_str`, `None` on text it refuses.
    #[verifier::external_body]
    pub(crate) fn parse(s: &str) -> (r: Option<Dec>)
        ensures
            opt_parts(r) == decimal_from_str(s@),
    {
        match s.parse::<Decimal>() {
            Ok(c) => Some(Dec { mantissa: c.mantissa(), scale: c.scale() }),
            Err(_) => None,
        }
    }

    /// `self + other`, `None` on overflow; exact at the common scale when
    /// both have the same scale and the sum fits.
    pub fn add(self, other: Dec) -> (r: Option<Dec>)
        ensures
            r == dec_add(self, other),
            self@.1 == other@.1 && -max_mantissa() <= self@.0 + other@.0 <= max_mantissa() ==> r
                == Some(Dec::spec_new((self@.0 + other@.0) as i128, self@.1)),
    {
        let r = self.checked_add(other);
        proof {
            lemma_opt_parts(r);
        }
        r
    }

    /// `self - other`, `None` on overflow; exact at the common scale when
    /// both have the same scale and the difference fits.
    pub fn sub(self, other: Dec) -> (r: Option<Dec>)
        ensures
            r == dec_sub(self, other),
            self@.1 == other@.1 && -max_mantissa() <= self@.0 - other@.0 <= max_mantissa() ==> r
                == Some(Dec::spec_new((self@.0 - other@.0) as i128, self@.1)),
    {
        let r = self.checked_sub(other);
        proof {
            lemma_opt_parts(r);
        }
        r
    }

    /// `self * other`, `None` on overflow; zero (scale 0) with a zero
    /// factor, and exact at the sum of the scales when that is at most 28 and
    /// the product fits.
    pub fn mul(self, other: Dec) -> (r: Option<Dec>)
        ensures
            r == dec_mul(self, other),
            self@.0 == 0 || other@.0 == 0 ==> r == Some(Dec::spec_zero()),
            self@.0 != 0 && other@.0 != 0 && self@.1 + other@.1 <= max_scale() && -max_mantissa()
                <= self@.0 * other@.0 <= max_mantissa() ==> r == Some(
                Dec::spec_new((self@.0 * other@.0) as i128, (self@.1 + other@.1) as u32),
            ),
    {
        let r = self.checked_mul(other);
        proof {
            lemma_opt_parts(r);
        }
        r
    }

    /// `self / other`, `None` on overflow or division by zero.
    pub fn div(self, other: Dec) -> (r: Option<Dec>)
        ensures
            r == dec_div(self, other),
    {
        let r = self.checked_div(other);
        proof {
            lemma_opt_parts(r);
        }
        r
    }
}

} // verus!
