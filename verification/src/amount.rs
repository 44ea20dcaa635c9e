//! Monetary amounts.
//!
//! An [`Amount`] holds, as plain values, what a `rust_decimal::Decimal`
//! holds: a signed mantissa of at most 96 bits and a scale (the number of
//! decimal places) between 0 and 28. Its value is `mantissa / 10^scale`.
//! Arithmetic and comparison are done by `rust_decimal` itself, through the
//! trusted wrappers at the end of this file.
use rust_decimal::Decimal;
use vstd::prelude::*;

verus! {

/// `rust_decimal::Decimal`, carried through as an opaque value.
#[verifier::external_type_specification]
#[verifier::external_body]
pub struct ExDecimal(rust_decimal::Decimal);

/// Largest mantissa magnitude a decimal can hold: 2^96 - 1.
pub const MAX_MANTISSA: i128 = 79228162514264337593543950335;

/// Largest number of decimal places a decimal can hold.
pub const MAX_SCALE: u32 = 28;

/// `10^n`.
pub open spec fn pow10(n: nat) -> nat
    decreases n,
{
    if n == 0 {
        1
    } else {
        10 * pow10((n - 1) as nat)
    }
}

/// The largest value a decimal can hold, counted in units of `10^-28`.
pub open spec fn max_units() -> int {
    MAX_MANTISSA * pow10(28)
}

/// Whether a value, counted in units of `10^-28`, lies in the range of a decimal.
pub open spec fn units_in_range(u: int) -> bool {
    -max_units() <= u <= max_units()
}

/// `10^x * 10^y == 10^(x + y)`.
pub proof fn lemma_pow10_add(x: nat, y: nat)
    ensures
        pow10(x) * pow10(y) == pow10(x + y),
    decreases x,
{
    if x > 0 {
        lemma_pow10_add((x - 1) as nat, y);
        assert(pow10(x) * pow10(y) == 10 * (pow10((x - 1) as nat) * pow10(y))) by (nonlinear_arith)
            requires
                pow10(x) == 10 * pow10((x - 1) as nat),
        ;
        assert(pow10(x + y) == 10 * pow10(((x - 1) as nat + y) as nat));
    } else {
        assert(pow10(x) == 1);
    }
}

/// A decimal number `mantissa / 10^scale`.
#[derive(Clone, Copy, Debug)]
pub struct Amount {
    mantissa: i128,
    scale: u32,
}

/// The larger of two scales.
pub open spec fn max_scale(a: int, b: int) -> int {
    if a >= b {
        a
    } else {
        b
    }
}

impl Amount {
    /// The mantissa fits in 96 bits and the scale is at most 28.
    #[verifier::type_invariant]
    pub closed spec fn valid(self) -> bool {
        &&& -MAX_MANTISSA <= self.mantissa <= MAX_MANTISSA
        &&& self.scale <= MAX_SCALE
    }

    /// The signed mantissa.
    pub closed spec fn mantissa_of(self) -> int {
        self.mantissa as int
    }

    /// The number of decimal places.
    pub closed spec fn scale_of(self) -> int {
        self.scale as int
    }

    /// The value, counted in units of `10^-28`: two amounts are equal in value
    /// exactly when their units are equal, whatever their scales.
    pub closed spec fn units(self) -> int {
        self.mantissa * pow10((28 - self.scale) as nat)
    }

    /// The amount with the given mantissa and scale.
    pub closed spec fn from_parts(mantissa: int, scale: int) -> Amount {
        Amount { mantissa: mantissa as i128, scale: scale as u32 }
    }

    /// The value in units of `10^-28` is the mantissa times `10^(28 - scale)`.
    pub proof fn lemma_units(self)
        ensures
            self.units() == self.mantissa_of() * pow10((28 - self.scale_of()) as nat),
    {
    }

    /// A valid amount's mantissa fits in 96 bits and its scale is at most 28.
    pub proof fn lemma_valid_parts(self)
        requires
            self.valid(),
        ensures
            mantissa_fits(self.mantissa_of()),
            0 <= self.scale_of() <= MAX_SCALE,
    {
    }

    /// An amount built from a mantissa and scale in range gives them back.
    pub proof fn lemma_from_parts(mantissa: int, scale: int)
        requires
            mantissa_fits(mantissa),
            0 <= scale <= MAX_SCALE,
        ensures
            Amount::from_parts(mantissa, scale).mantissa_of() == mantissa,
            Amount::from_parts(mantissa, scale).scale_of() == scale,
            Amount::from_parts(mantissa, scale).valid(),
    {
    }

    /// Zero with no decimal places, what `Decimal::default()` is.
    pub open spec fn zero_spec() -> Amount {
        Amount::from_parts(0, 0)
    }

    /// Zero is a valid amount.
    pub proof fn lemma_zero_valid()
        ensures
            Amount::zero_spec().valid(),
            Amount::zero_spec().units() == 0,
    {
        let z = Amount::zero_spec();
        assert(z.mantissa == 0);
        assert(z.units() == 0 * pow10((28 - z.scale) as nat));
    }

    /// `mantissa / 10^scale`, as `Decimal::new` builds it.
    pub fn new(mantissa: i64, scale: u32) -> (r: Amount)
        requires
            scale <= MAX_SCALE,
        ensures
            r.mantissa_of() == mantissa,
            r.scale_of() == scale,
            r == Amount::from_parts(mantissa as int, scale as int),
    {
        Amount { mantissa: mantissa as i128, scale }
    }

    /// Zero with no decimal places.
    pub fn zero() -> (r: Amount)
        ensures
            r == Amount::zero_spec(),
            r.units() == 0,
            r.mantissa_of() == 0,
            r.scale_of() == 0,
    {
        Amount { mantissa: 0, scale: 0 }
    }

    /// The signed mantissa.
    pub fn mantissa(&self) -> (r: i128)
        ensures
            r == self.mantissa_of(),
    {
        self.mantissa
    }

    /// The number of decimal places.
    pub fn scale(&self) -> (r: u32)
        ensures
            r == self.scale_of(),
    {
        self.scale
    }

    /// The amount that holds the same mantissa and scale as `d`.
    pub fn from_decimal(d: Decimal) -> (r: Amount)
        ensures
            r.mantissa_of() == decimal_mantissa_of(d),
            r.scale_of() == decimal_scale_of(d),
    {
        let mantissa = decimal_mantissa(&d);
        let scale = decimal_scale(&d);
        Amount { mantissa, scale }
    }

    /// The decimal with this amount's mantissa and scale.
    pub fn to_decimal(&self) -> (r: Decimal)
        ensures
            decimal_mantissa_of(r) == self.mantissa_of(),
            decimal_scale_of(r) == self.scale_of(),
    {
        proof {
            use_type_invariant(self);
        }
        decimal_from_parts(self.mantissa, self.scale)
    }
}


/// The mantissa `a` has once aligned to `scale` decimal places.
pub open spec fn aligned_mantissa(a: Amount, scale: int) -> int {
    a.mantissa_of() * pow10((scale - a.scale_of()) as nat)
}

/// Mantissa and scale of the sum of `a` and `b` when no rounding is needed,
/// as `Decimal` addition forms them: a zero left operand gives the right one
/// unchanged, a zero right operand gives the left one, and otherwise both
/// are aligned to the larger scale and added.
pub open spec fn sum_parts(a: Amount, b: Amount) -> (int, int) {
    if a.mantissa_of() == 0 {
        (b.mantissa_of(), b.scale_of())
    } else if b.mantissa_of() == 0 {
        (a.mantissa_of(), a.scale_of())
    } else {
        let s = max_scale(a.scale_of(), b.scale_of());
        (aligned_mantissa(a, s) + aligned_mantissa(b, s), s)
    }
}

/// Mantissa and scale of `a - b` when no rounding is needed: a zero left
/// operand gives `b` negated at `b`'s scale, a zero right operand gives `a`,
/// and otherwise both are aligned to the larger scale and subtracted.
pub open spec fn difference_parts(a: Amount, b: Amount) -> (int, int) {
    if a.mantissa_of() == 0 {
        (-b.mantissa_of(), b.scale_of())
    } else if b.mantissa_of() == 0 {
        (a.mantissa_of(), a.scale_of())
    } else {
        let s = max_scale(a.scale_of(), b.scale_of());
        (aligned_mantissa(a, s) - aligned_mantissa(b, s), s)
    }
}

/// Whether a mantissa fits in 96 bits.
pub open spec fn mantissa_fits(m: int) -> bool {
    -MAX_MANTISSA <= m <= MAX_MANTISSA
}

/// Whether `a + b` is exact: its aligned mantissa fits in 96 bits.
pub open spec fn sum_fits(a: Amount, b: Amount) -> bool {
    mantissa_fits(sum_parts(a, b).0)
}

/// Whether `a - b` is exact: its aligned mantissa fits in 96 bits.
pub open spec fn difference_fits(a: Amount, b: Amount) -> bool {
    mantissa_fits(difference_parts(a, b).0)
}

/// Mantissa and scale of an optional amount.
pub open spec fn amount_parts(o: Option<Amount>) -> Option<(int, int)> {
    match o {
        Some(x) => Some((x.mantissa_of(), x.scale_of())),
        None => None,
    }
}

/// The optional amount with the given mantissa and scale.
pub open spec fn parts_amount(o: Option<(int, int)>) -> Option<Amount> {
    match o {
        Some(p) => Some(Amount::from_parts(p.0, p.1)),
        None => None,
    }
}

/// What `Decimal::checked_add` returns for two decimals given by mantissa
/// and scale: the parts of the sum, or `None` on overflow.
pub uninterp spec fn decimal_checked_add(
    a_mantissa: int,
    a_scale: int,
    b_mantissa: int,
    b_scale: int,
) -> Option<(int, int)>;

/// What `Decimal::checked_sub` returns for two decimals given by mantissa
/// and scale: the parts of the difference, or `None` on overflow.
pub uninterp spec fn decimal_checked_sub(
    a_mantissa: int,
    a_scale: int,
    b_mantissa: int,
    b_scale: int,
) -> Option<(int, int)>;

/// `a + b` as `Decimal` computes it: exact when the sum fits, otherwise
/// rounded (or `None` on overflow) as `Decimal::checked_add` does.
pub open spec fn checked_sum(a: Amount, b: Amount) -> Option<Amount> {
    if sum_fits(a, b) {
        Some(Amount::from_parts(sum_parts(a, b).0, sum_parts(a, b).1))
    } else {
        parts_amount(decimal_checked_add(a.mantissa_of(), a.scale_of(), b.mantissa_of(), b.scale_of()))
    }
}

/// `a - b` as `Decimal` computes it: exact when the difference fits,
/// otherwise rounded (or `None` on overflow) as `Decimal::checked_sub` does.
pub open spec fn checked_difference(a: Amount, b: Amount) -> Option<Amount> {
    if difference_fits(a, b) {
        Some(Amount::from_parts(difference_parts(a, b).0, difference_parts(a, b).1))
    } else {
        parts_amount(decimal_checked_sub(a.mantissa_of(), a.scale_of(), b.mantissa_of(), b.scale_of()))
    }
}

/// Aligning to a larger scale keeps the value.
proof fn lemma_aligned_units(a: Amount, s: int)
    requires
        a.valid(),
        a.scale_of() <= s <= 28,
    ensures
        aligned_mantissa(a, s) * pow10((28 - s) as nat) == a.units(),
{
    let k = (s - a.scale_of()) as nat;
    let rest = (28 - s) as nat;
    lemma_pow10_add(k, rest);
    assert(k + rest == (28 - a.scale) as nat);
    let m = a.mantissa as int;
    assert(m * pow10(k) * pow10(rest) == m * (pow10(k) * pow10(rest))) by (nonlinear_arith);
}

/// Where `a + b` fits, `Decimal` addition is exact.
pub proof fn lemma_sum_exact(a: Amount, b: Amount)
    requires
        a.valid(),
        b.valid(),
        sum_fits(a, b),
    ensures
        checked_sum(a, b) is Some,
        checked_sum(a, b).unwrap().valid(),
        checked_sum(a, b).unwrap().units() == a.units() + b.units(),
{
    let r = checked_sum(a, b).unwrap();
    if a.mantissa == 0 {
        assert(r == b);
        assert(a.units() == 0);
    } else if b.mantissa == 0 {
        assert(r == a);
        assert(b.units() == 0);
    } else {
        let s = max_scale(a.scale_of(), b.scale_of());
        let p = pow10((28 - s) as nat);
        let x = aligned_mantissa(a, s);
        let y = aligned_mantissa(b, s);
        lemma_aligned_units(a, s);
        lemma_aligned_units(b, s);
        assert((x + y) * p == x * p + y * p) by (nonlinear_arith);
        assert(r.units() == (x + y) * p);
    }
}

/// Where `a - b` fits, `Decimal` subtraction is exact.
pub proof fn lemma_difference_exact(a: Amount, b: Amount)
    requires
        a.valid(),
        b.valid(),
        difference_fits(a, b),
    ensures
        checked_difference(a, b) is Some,
        checked_difference(a, b).unwrap().valid(),
        checked_difference(a, b).unwrap().units() == a.units() - b.units(),
{
    let r = checked_difference(a, b).unwrap();
    if a.mantissa == 0 {
        let m = b.mantissa as int;
        let p = pow10((28 - b.scale) as nat);
        assert((-m) * p == -(m * p)) by (nonlinear_arith);
        assert(a.units() == 0);
    } else if b.mantissa == 0 {
        assert(r == a);
        assert(b.units() == 0);
    } else {
        let s = max_scale(a.scale_of(), b.scale_of());
        let p = pow10((28 - s) as nat);
        let x = aligned_mantissa(a, s);
        let y = aligned_mantissa(b, s);
        lemma_aligned_units(a, s);
        lemma_aligned_units(b, s);
        assert((x - y) * p == x * p - y * p) by (nonlinear_arith);
        assert(r.units() == (x - y) * p);
    }
}

proof fn lemma_pow10_positive(n: nat)
    ensures
        pow10(n) >= 1,
    decreases n,
{
    if n > 0 {
        lemma_pow10_positive((n - 1) as nat);
    }
}

/// An aligned mantissa `x` whose value `x * 10^(28 - s)`, with `s <= 4`, lies
/// within `MAX_MANTISSA * 10^24` fits in 96 bits.
proof fn lemma_four_places_fit(x: int, s: int)
    requires
        0 <= s <= 4,
        -(MAX_MANTISSA * pow10(24)) <= x * pow10((28 - s) as nat) <= MAX_MANTISSA * pow10(24),
    ensures
        mantissa_fits(x),
{
    let q = pow10(24);
    let r = pow10((4 - s) as nat);
    lemma_pow10_add(24, (4 - s) as nat);
    assert((24 + (4 - s) as nat) as nat == (28 - s) as nat);
    lemma_pow10_positive(24);
    lemma_pow10_positive((4 - s) as nat);
    let m = MAX_MANTISSA as int;
    assert(-m <= x <= m) by (nonlinear_arith)
        requires
            q >= 1,
            r >= 1,
            m >= 0,
            -(m * q) <= x * (q * r) <= m * q,
    ;
}

/// Amounts of at most four decimal places add exactly, and keep at most four
/// places, as long as the sum stays within `MAX_MANTISSA / 10^4` in value.
pub proof fn law_four_places_sum_exact(a: Amount, b: Amount)
    requires
        a.valid(),
        b.valid(),
        a.scale_of() <= 4,
        b.scale_of() <= 4,
        -(MAX_MANTISSA * pow10(24)) <= a.units() + b.units() <= MAX_MANTISSA * pow10(24),
    ensures
        sum_fits(a, b),
        checked_sum(a, b) is Some,
        checked_sum(a, b).unwrap().units() == a.units() + b.units(),
        checked_sum(a, b).unwrap().scale_of() <= 4,
        checked_sum(a, b).unwrap().valid(),
{
    if a.mantissa != 0 && b.mantissa != 0 {
        let s = max_scale(a.scale_of(), b.scale_of());
        let p = pow10((28 - s) as nat);
        let x = aligned_mantissa(a, s);
        let y = aligned_mantissa(b, s);
        lemma_aligned_units(a, s);
        lemma_aligned_units(b, s);
        assert((x + y) * p == x * p + y * p) by (nonlinear_arith);
        lemma_four_places_fit(x + y, s);
    }
    lemma_sum_exact(a, b);
}

/// Amounts of at most four decimal places subtract exactly, and keep at
/// most four places, as long as the difference stays within
/// `MAX_MANTISSA / 10^4` in value.
pub proof fn law_four_places_difference_exact(a: Amount, b: Amount)
    requires
        a.valid(),
        b.valid(),
        a.scale_of() <= 4,
        b.scale_of() <= 4,
        -(MAX_MANTISSA * pow10(24)) <= a.units() - b.units() <= MAX_MANTISSA * pow10(24),
    ensures
        difference_fits(a, b),
        checked_difference(a, b) is Some,
        checked_difference(a, b).unwrap().units() == a.units() - b.units(),
        checked_difference(a, b).unwrap().scale_of() <= 4,
        checked_difference(a, b).unwrap().valid(),
{
    if a.mantissa != 0 && b.mantissa != 0 {
        let s = max_scale(a.scale_of(), b.scale_of());
        let p = pow10((28 - s) as nat);
        let x = aligned_mantissa(a, s);
        let y = aligned_mantissa(b, s);
        lemma_aligned_units(a, s);
        lemma_aligned_units(b, s);
        assert((x - y) * p == x * p - y * p) by (nonlinear_arith);
        lemma_four_places_fit(x - y, s);
    }
    lemma_difference_exact(a, b);
}

impl Amount {
    /// `self + other`, or `None` where `Decimal` addition overflows.
    pub fn checked_add(&self, other: &Amount) -> (r: Option<Amount>)
        ensures
            r == checked_sum(*self, *other),
            r is None ==> !units_in_range(self.units() + other.units()),
    {
        decimal_checked_add_amounts(self, other)
    }

    /// `self - other`, or `None` where `Decimal` subtraction overflows.
    pub fn checked_sub(&self, other: &Amount) -> (r: Option<Amount>)
        ensures
            r == checked_difference(*self, *other),
            r is None ==> !units_in_range(self.units() - other.units()),
    {
        decimal_checked_sub_amounts(self, other)
    }

    /// Whether `self` is at least `other` in value.
    pub fn is_at_least(&self, other: &Amount) -> (r: bool)
        ensures
            r == (self.units() >= other.units()),
    {
        decimal_ge(self, other)
    }
}

/// What `Decimal::mantissa` returns for `d`: its signed mantissa.
pub uninterp spec fn decimal_mantissa_of(d: Decimal) -> int;

/// What `Decimal::scale` returns for `d`: its number of decimal places.
pub uninterp spec fn decimal_scale_of(d: Decimal) -> int;

/// `Decimal::mantissa`: the signed mantissa of `d`, named by
/// `decimal_mantissa_of`; its magnitude is below 2^96, as the type documents.
#[verifier::external_body]
fn decimal_mantissa(d: &Decimal) -> (r: i128)
    ensures
        r == decimal_mantissa_of(*d),
        mantissa_fits(r as int),
{
    d.mantissa()
}

/// `Decimal::scale`: the number of decimal places of `d`, named by
/// `decimal_scale_of`; it is at most 28, as the type documents.
#[verifier::external_body]
fn decimal_scale(d: &Decimal) -> (r: u32)
    ensures
        r == decimal_scale_of(*d),
        r <= MAX_SCALE,
{
    d.scale()
}

/// `Decimal::from_i128_with_scale`, which panics outside the decimal range;
/// `requires` leaves those inputs out. The decimal it builds has the given
/// mantissa and scale: `mantissa` and `scale` give them back.
#[verifier::external_body]
fn decimal_from_parts(mantissa: i128, scale: u32) -> (r: Decimal)
    requires
        mantissa_fits(mantissa as int),
        scale <= MAX_SCALE,
    ensures
        decimal_mantissa_of(r) == mantissa,
        decimal_scale_of(r) == scale,
{
    Decimal::from_i128_with_scale(mantissa, scale)
}

/// `Decimal::checked_add` on the decimals that `a` and `b` hold. Its result is
/// named by `decimal_checked_add`; where the aligned sum fits in 96 bits it is
/// that exact sum (as `sum_parts` forms it), and it is `None` only where the
/// exact sum lies outside the decimal range.
#[verifier::external_body]
fn decimal_checked_add_amounts(a: &Amount, b: &Amount) -> (r: Option<Amount>)
    ensures
        amount_parts(r) == decimal_checked_add(
            a.mantissa_of(),
            a.scale_of(),
            b.mantissa_of(),
            b.scale_of(),
        ),
        sum_fits(*a, *b) ==> amount_parts(r) == Some(sum_parts(*a, *b)),
        r is None ==> !units_in_range(a.units() + b.units()),
{
    let x = Decimal::from_i128_with_scale(a.mantissa, a.scale);
    let y = Decimal::from_i128_with_scale(b.mantissa, b.scale);
    match x.checked_add(y) {
        Some(d) => Some(Amount { mantissa: d.mantissa(), scale: d.scale() }),
        None => None,
    }
}

/// `Decimal::checked_sub` on the decimals that `a` and `b` hold. Its result is
/// named by `decimal_checked_sub`; where the aligned difference fits in 96 bits
/// it is that exact difference (as `difference_parts` forms it), and it is
/// `None` only where the exact difference lies outside the decimal range.
#[verifier::external_body]
fn decimal_checked_sub_amounts(a: &Amount, b: &Amount) -> (r: Option<Amount>)
    ensures
        amount_parts(r) == decimal_checked_sub(
            a.mantissa_of(),
            a.scale_of(),
            b.mantissa_of(),
            b.scale_of(),
        ),
        difference_fits(*a, *b) ==> amount_parts(r) == Some(difference_parts(*a, *b)),
        r is None ==> !units_in_range(a.units() - b.units()),
{
    let x = Decimal::from_i128_with_scale(a.mantissa, a.scale);
    let y = Decimal::from_i128_with_scale(b.mantissa, b.scale);
    match x.checked_sub(y) {
        Some(d) => Some(Amount { mantissa: d.mantissa(), scale: d.scale() }),
        None => None,
    }
}

/// `>=` on the decimals that `a` and `b` hold: `Decimal` orders by value,
/// whatever the scales.
#[verifier::external_body]
fn decimal_ge(a: &Amount, b: &Amount) -> (r: bool)
    ensures
        r == (a.units() >= b.units()),
{
    Decimal::from_i128_with_scale(a.mantissa, a.scale) >= Decimal::from_i128_with_scale(
        b.mantissa,
        b.scale,
    )
}

/// `==` on the decimals that `a` and `b` hold: `Decimal` compares by value,
/// whatever the scales.
#[verifier::external_body]
fn decimal_eq(a: &Amount, b: &Amount) -> (r: bool)
    ensures
        r == (a.units() == b.units()),
{
    Decimal::from_i128_with_scale(a.mantissa, a.scale) == Decimal::from_i128_with_scale(
        b.mantissa,
        b.scale,
    )
}

impl PartialEq for Amount {
    fn eq(&self, other: &Amount) -> (r: bool) {
        decimal_eq(self, other)
    }
}

impl vstd::std_specs::cmp::PartialEqSpecImpl for Amount {
    open spec fn obeys_eq_spec() -> bool {
        true
    }

    open spec fn eq_spec(&self, other: &Amount) -> bool {
        self.units() == other.units()
    }
}

} // verus!
