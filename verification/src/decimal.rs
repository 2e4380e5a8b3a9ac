//! Fixed-point decimals: a signed 96-bit mantissa and a scale of at most 28
//! fractional digits. Prices and quantities are held in this form so that the
//! comparison at the crossing boundary is exact.

use vstd::prelude::*;
use vstd::std_specs::cmp::PartialEqSpecImpl;

verus! {

/// The largest number of fractional digits.
pub const MAX_SCALE: u32 = 28;

/// The largest magnitude of a mantissa, `2^96 - 1`.
pub const MAX_MANTISSA: i128 = 0xFFFF_FFFF_FFFF_FFFF_FFFF_FFFF;

/// `10^e`.
pub open spec fn pow10(e: nat) -> nat
    decreases e,
{
    if e == 0 {
        1
    } else {
        10 * pow10((e - 1) as nat)
    }
}

/// The number `mantissa / 10^scale`.
pub struct DecimalView {
    pub mantissa: int,
    pub scale: nat,
}

impl DecimalView {
    /// Whether a `FixedDecimal` can hold this mantissa and scale.
    pub open spec fn representable(self) -> bool {
        &&& self.scale <= MAX_SCALE
        &&& -MAX_MANTISSA <= self.mantissa <= MAX_MANTISSA
    }

    /// `self <= other` as numbers: both sides brought to a common denominator.
    pub open spec fn le(self, other: DecimalView) -> bool {
        self.mantissa * pow10(other.scale) <= other.mantissa * pow10(self.scale)
    }

    /// `self >= other` as numbers.
    pub open spec fn ge(self, other: DecimalView) -> bool {
        other.le(self)
    }

    /// `self == other` as numbers, whatever their scales (`1.0` and `1.00`).
    pub open spec fn same_value(self, other: DecimalView) -> bool {
        self.mantissa * pow10(other.scale) == other.mantissa * pow10(self.scale)
    }

    /// `self > 0`.
    pub open spec fn positive(self) -> bool {
        self.mantissa > 0
    }
}

/// A fixed-point decimal number.
#[derive(Clone, Copy, Debug)]
pub struct FixedDecimal {
    mantissa: i128,
    scale: u32,
}

impl View for FixedDecimal {
    type V = DecimalView;

    closed spec fn view(&self) -> DecimalView {
        DecimalView { mantissa: self.mantissa as int, scale: self.scale as nat }
    }
}

/// `rust_decimal::Decimal::from_i128_with_scale` on each operand, then `<=`
/// between the two decimals. The constructor panics on a scale above 28 or a
/// mantissa beyond 96 bits, which the precondition leaves out. The comparison
/// is numeric: it brings both operands to one scale and compares the
/// mantissas, so `1.0 <= 1.00` and `1.00 <= 1.0` both hold.
#[verifier::external_body]
fn decimal_le(a_mantissa: i128, a_scale: u32, b_mantissa: i128, b_scale: u32) -> (r: bool)
    requires
        (DecimalView { mantissa: a_mantissa as int, scale: a_scale as nat }).representable(),
        (DecimalView { mantissa: b_mantissa as int, scale: b_scale as nat }).representable(),
    ensures
        r == (DecimalView { mantissa: a_mantissa as int, scale: a_scale as nat }).le(
            DecimalView { mantissa: b_mantissa as int, scale: b_scale as nat },
        ),
{
    rust_decimal::Decimal::from_i128_with_scale(a_mantissa, a_scale)
        <= rust_decimal::Decimal::from_i128_with_scale(b_mantissa, b_scale)
}

impl FixedDecimal {
    #[verifier::type_invariant]
    spec fn in_range(self) -> bool {
        self@.representable()
    }

    /// The decimal `mantissa / 10^scale`, if it is representable.
    pub fn new(mantissa: i128, scale: u32) -> (r: Option<FixedDecimal>)
        ensures
            match r {
                Some(d) => d@ == (DecimalView { mantissa: mantissa as int, scale: scale as nat })
                    && d@.representable(),
                None => !(DecimalView {
                    mantissa: mantissa as int,
                    scale: scale as nat,
                }).representable(),
            },
    {
        if scale <= MAX_SCALE && -MAX_MANTISSA <= mantissa && mantissa <= MAX_MANTISSA {
            Some(FixedDecimal { mantissa, scale })
        } else {
            None
        }
    }

    /// The whole number `n`.
    pub fn from_int(n: i64) -> (d: FixedDecimal)
        ensures
            d@ == (DecimalView { mantissa: n as int, scale: 0 }),
            d@.representable(),
    {
        FixedDecimal { mantissa: n as i128, scale: 0 }
    }

    /// The digits of the number as a whole number.
    pub fn mantissa(&self) -> (m: i128)
        ensures
            m == self@.mantissa,
            self@.representable(),
    {
        proof {
            use_type_invariant(self);
        }
        self.mantissa
    }

    /// How many of the digits stand behind the decimal point.
    pub fn scale(&self) -> (s: u32)
        ensures
            s == self@.scale,
            self@.representable(),
    {
        proof {
            use_type_invariant(self);
        }
        self.scale
    }

    /// `self <= other`, exactly.
    pub fn le(&self, other: &FixedDecimal) -> (r: bool)
        ensures
            r == self@.le(other@),
    {
        proof {
            use_type_invariant(self);
            use_type_invariant(other);
        }
        decimal_le(self.mantissa, self.scale, other.mantissa, other.scale)
    }

    /// `self >= other`, exactly.
    pub fn ge(&self, other: &FixedDecimal) -> (r: bool)
        ensures
            r == self@.ge(other@),
    {
        other.le(self)
    }

    /// `self > 0`.
    pub fn is_positive(&self) -> (r: bool)
        ensures
            r == self@.positive(),
    {
        self.mantissa > 0
    }
}

impl PartialEq for FixedDecimal {
    /// Numeric equality: `1.0 == 1.00`.
    fn eq(&self, other: &FixedDecimal) -> (r: bool) {
        self.le(other) && other.le(self)
    }
}

impl PartialEqSpecImpl for FixedDecimal {
    open spec fn obeys_eq_spec() -> bool {
        true
    }

    open spec fn eq_spec(&self, other: &FixedDecimal) -> bool {
        self@.same_value(other@)
    }
}

/// Every power of ten is positive.
pub proof fn lemma_pow10_positive(e: nat)
    ensures
        pow10(e) > 0,
    decreases e,
{
    if e > 0 {
        lemma_pow10_positive((e - 1) as nat);
    }
}

/// Any two decimals are comparable, and they are equal in value exactly when
/// each is at most the other.
pub proof fn lemma_le_total(a: DecimalView, b: DecimalView)
    ensures
        a.le(b) || b.le(a),
        a.le(b) && b.le(a) <==> a.same_value(b),
        a.le(a),
{
}

/// `<=` is transitive.
pub proof fn lemma_le_transitive(a: DecimalView, b: DecimalView, c: DecimalView)
    requires
        a.le(b),
        b.le(c),
    ensures
        a.le(c),
{
    lemma_pow10_positive(a.scale);
    lemma_pow10_positive(b.scale);
    lemma_pow10_positive(c.scale);
    let pa = pow10(a.scale) as int;
    let pb = pow10(b.scale) as int;
    let pc = pow10(c.scale) as int;
    assert(a.mantissa * pb * pc <= b.mantissa * pa * pc) by (nonlinear_arith)
        requires
            a.mantissa * pb <= b.mantissa * pa,
            pc > 0,
    ;
    assert(b.mantissa * pc * pa <= c.mantissa * pb * pa) by (nonlinear_arith)
        requires
            b.mantissa * pc <= c.mantissa * pb,
            pa > 0,
    ;
    assert(a.mantissa * pc <= c.mantissa * pa) by (nonlinear_arith)
        requires
            a.mantissa * pb * pc <= b.mantissa * pa * pc,
            b.mantissa * pc * pa <= c.mantissa * pb * pa,
            pb > 0,
    ;
}

} // verus!
