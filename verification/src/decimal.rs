//! Amounts of money: decimal numbers of 96 bits with up to 28 decimal places.

use rust_decimal::Decimal;
use std::str::FromStr;
use vstd::prelude::*;
use vstd::string::*;

use crate::text::{digits, numeral};

verus! {

/// The largest mantissa of an amount: 96 bits, all set.
pub const MAX_MANTISSA: i128 = 79228162514264337593543950335;

/// The most decimal places an amount can have.
pub const MAX_SCALE: u32 = 28;

/// The powers of ten.
pub open spec fn pow10(k: nat) -> nat
    decreases k,
{
    if k == 0 {
        1
    } else {
        10 * pow10((k - 1) as nat)
    }
}

/// The magnitude of an integer.
pub open spec fn magnitude(n: int) -> nat {
    if n < 0 {
        (-n) as nat
    } else {
        n as nat
    }
}

/// A decimal number: `mantissa` with the point `scale` places from its right.
#[verifier::ext_equal]
pub struct Dec {
    pub mantissa: int,
    pub scale: nat,
}

/// `m` divided by ten to the `places`, rounded to the nearest integer and
/// from the middle to the even one.
pub open spec fn rounded(m: int, places: nat) -> int {
    let unit = pow10(places);
    let low = magnitude(m) / unit;
    let rest = magnitude(m) % unit;
    let up = 2 * rest > unit || (2 * rest == unit && low % 2 == 1);
    let nearest = low as int + if up { 1int } else { 0int };
    if m < 0 {
        -nearest
    } else {
        nearest
    }
}

/// `m` with `scale` decimal places, with as few of them rounded off, `drop`
/// or more, as bring the mantissa into 96 bits; nothing where even the whole
/// number is too large.
pub open spec fn fitted(m: int, scale: nat, drop: nat) -> Option<Dec>
    decreases scale + 1 - drop,
{
    if drop > scale {
        None
    } else if magnitude(rounded(m, drop)) <= MAX_MANTISSA {
        Some(Dec { mantissa: rounded(m, drop), scale: (scale - drop) as nat })
    } else {
        fitted(m, scale, drop + 1)
    }
}

impl Dec {
    /// The range of amounts.
    pub open spec fn wf(self) -> bool {
        &&& magnitude(self.mantissa) <= MAX_MANTISSA
        &&& self.scale <= MAX_SCALE
    }

    /// Nothing.
    pub open spec fn zero() -> Dec {
        Dec { mantissa: 0, scale: 0 }
    }

    /// The number in units of the smallest decimal place.
    pub open spec fn units(self) -> int {
        self.mantissa * pow10((MAX_SCALE - self.scale) as nat)
    }

    /// The mantissa that the number has with `scale` decimal places.
    pub open spec fn mantissa_at(self, scale: nat) -> int {
        self.mantissa * pow10((scale - self.scale) as nat)
    }

    /// The number of decimal places in which `self` and `other` are added.
    pub open spec fn common_scale(self, other: Dec) -> nat {
        if self.scale < other.scale {
            other.scale
        } else {
            self.scale
        }
    }

    /// The mantissa of the exact sum in the common decimal places.
    pub open spec fn sum_mantissa(self, other: Dec) -> int {
        self.mantissa_at(self.common_scale(other)) + other.mantissa_at(self.common_scale(other))
    }

    /// The sum, rounded where 96 bits do not hold it, or nothing where it is
    /// out of range. Adding nothing changes nothing.
    pub open spec fn plus(self, other: Dec) -> Option<Dec> {
        if self.mantissa == 0 {
            Some(other)
        } else if other.mantissa == 0 {
            Some(self)
        } else {
            fitted(self.sum_mantissa(other), self.common_scale(other), 0)
        }
    }

    /// The number with the opposite sign.
    pub open spec fn negated(self) -> Dec {
        Dec { mantissa: -self.mantissa, scale: self.scale }
    }

    /// The difference, rounded as the sum is.
    pub open spec fn minus(self, other: Dec) -> Option<Dec> {
        self.plus(other.negated())
    }

    /// The number written with `places` decimal places: those behind are cut
    /// off, those missing are zeros.
    pub open spec fn text(self, places: nat) -> Seq<char> {
        let unit = pow10(self.scale);
        let whole = magnitude(self.mantissa) / unit;
        let part = magnitude(self.mantissa) % unit;
        let shown = if places <= self.scale {
            part / pow10((self.scale - places) as nat)
        } else {
            part * pow10((places - self.scale) as nat)
        };
        let sign = if self.mantissa < 0 {
            seq!['-']
        } else {
            Seq::empty()
        };
        let point = if places == 0 {
            Seq::empty()
        } else {
            seq!['.'] + digits(shown, places)
        };
        sign + numeral(whole) + point
    }

    /// The number written with all its decimal places.
    pub open spec fn plain_text(self) -> Seq<char> {
        self.text(self.scale)
    }
}

impl Dec {
    /// Whether `text` is the number, written with all its decimal places.
    pub open spec fn writes(self, text: Seq<char>) -> bool {
        self.wf() && text == self.plain_text()
    }

    /// The number as mantissa and decimal places that were read.
    pub open spec fn parts(self) -> Result<(int, nat), Seq<char>> {
        Ok((self.mantissa, self.scale))
    }
}

/// What reading `text` as a decimal number gives: mantissa and decimal
/// places, or the words in which the reading fails.
pub uninterp spec fn decimal_read(text: Seq<char>) -> Result<(int, nat), Seq<char>>;

/// What reading `text` as an amount gives.
pub open spec fn amount_read(text: Seq<char>) -> Result<Dec, Seq<char>> {
    match decimal_read(text) {
        Ok((mantissa, scale)) => Ok(Dec { mantissa, scale }),
        Err(words) => Err(words),
    }
}

impl Dec {
    /// Whether the sum needs no rounding.
    pub open spec fn adds_exactly(self, other: Dec) -> bool {
        ||| self.mantissa == 0
        ||| other.mantissa == 0
        ||| magnitude(self.sum_mantissa(other)) <= MAX_MANTISSA
    }
}

/// Powers of ten are positive and multiply by adding their exponents.
pub proof fn lemma_pow10(a: nat, b: nat)
    ensures
        pow10(a) > 0,
        pow10(b) > 0,
        pow10(a + b) == pow10(a) * pow10(b),
    decreases a,
{
    lemma_pow10_positive(a);
    lemma_pow10_positive(b);
    let y = pow10(b);
    if a == 0 {
        assert(pow10(a) * y == y) by (nonlinear_arith)
            requires
                pow10(a) == 1,
        ;
    } else {
        lemma_pow10((a - 1) as nat, b);
        let x = pow10((a - 1) as nat);
        assert((a + b - 1) as nat == (a - 1) as nat + b);
        assert(pow10(a) * y == 10 * (x * y)) by (nonlinear_arith)
            requires
                pow10(a) == 10 * x,
        ;
    }
}

/// Powers of ten are positive.
pub proof fn lemma_pow10_positive(a: nat)
    ensures
        pow10(a) > 0,
    decreases a,
{
    if a > 0 {
        lemma_pow10_positive((a - 1) as nat);
    }
}

/// The sum of two amounts is an amount again.
pub proof fn lemma_plus_wf(a: Dec, b: Dec)
    requires
        a.wf(),
        b.wf(),
    ensures
        a.plus(b) matches Some(s) ==> s.wf(),
{
    lemma_fitted_wf(a.sum_mantissa(b), a.common_scale(b), 0);
}

proof fn lemma_fitted_wf(m: int, scale: nat, drop: nat)
    requires
        scale <= MAX_SCALE,
    ensures
        fitted(m, scale, drop) matches Some(s) ==> s.wf(),
    decreases scale + 1 - drop,
{
    if drop <= scale && !(magnitude(rounded(m, drop)) <= MAX_MANTISSA) {
        lemma_fitted_wf(m, scale, drop + 1);
    }
}

/// A sum that needs no rounding is the sum: its units are those of its parts
/// together.
pub proof fn lemma_plus_exact(a: Dec, b: Dec)
    requires
        a.wf(),
        b.wf(),
        a.adds_exactly(b),
    ensures
        a.plus(b) matches Some(s) && s.wf() && s.units() == a.units() + b.units(),
{
    let scale = a.common_scale(b);
    let rest = (MAX_SCALE - scale) as nat;
    lemma_pow10((scale - a.scale) as nat, rest);
    lemma_pow10((scale - b.scale) as nat, rest);
    let (x, y, p, q, r) = (
        a.mantissa,
        b.mantissa,
        pow10((scale - a.scale) as nat) as int,
        pow10((scale - b.scale) as nat) as int,
        pow10(rest) as int,
    );
    assert((x * p + y * q) * r == x * (p * r) + y * (q * r)) by (nonlinear_arith);
    if a.mantissa == 0 {
        assert(0 * pow10((MAX_SCALE - a.scale) as nat) == 0) by (nonlinear_arith);
    } else if b.mantissa == 0 {
        assert(0 * pow10((MAX_SCALE - b.scale) as nat) == 0) by (nonlinear_arith);
    } else {
        let m = a.sum_mantissa(b);
        assert(rounded(m, 0) == m) by {
            assert(pow10(0) == 1);
            assert(magnitude(m) / 1 == magnitude(m));
            assert(magnitude(m) % 1 == 0);
        }
        assert((scale - a.scale) as nat + rest == (MAX_SCALE - a.scale) as nat);
        assert((scale - b.scale) as nat + rest == (MAX_SCALE - b.scale) as nat);
    }
}

/// An amount and its opposite add up to nothing.
pub proof fn lemma_opposites_cancel(a: Dec)
    requires
        a.wf(),
    ensures
        a.negated().wf(),
        a.plus(a.negated()) matches Some(s) && s.mantissa == 0,
        a.negated().plus(a) matches Some(s) && s.mantissa == 0,
{
    let p = pow10(0) as int;
    let x = a.mantissa;
    assert(x * p + (-x) * p == 0) by (nonlinear_arith);
    assert((-x) * p + x * p == 0) by (nonlinear_arith);
    assert(rounded(0, 0) == 0);
}

/// An amount of money.
#[derive(Debug, Clone, Copy)]
pub struct Amount {
    mantissa: i128,
    scale: u32,
}

impl View for Amount {
    type V = Dec;

    closed spec fn view(&self) -> Dec {
        Dec { mantissa: self.mantissa as int, scale: self.scale as nat }
    }
}

/// The mantissa and decimal places of an amount that was read, or the words
/// in which the reading failed.
pub open spec fn parts_of(read: Result<Amount, String>) -> Result<(int, nat), Seq<char>> {
    match read {
        Ok(a) => Ok((a@.mantissa, a@.scale)),
        Err(words) => Err(words@),
    }
}

/// `Decimal::checked_add`: the sum, with the decimal places of the operand
/// that has more of them; where that mantissa is over 96 bits it loses as
/// many places as it must, rounded half to even, and where it has none left
/// to lose there is no sum. A zero operand gives the other one back.
#[verifier::external_body]
fn decimal_checked_add(a: Amount, b: Amount) -> (sum: Option<Amount>)
    requires
        a@.wf(),
        b@.wf(),
    ensures
        match sum {
            Some(s) => a@.plus(b@) == Some(s@),
            None => a@.plus(b@) is None,
        },
{
    Decimal::from_i128_with_scale(a.mantissa, a.scale)
        .checked_add(Decimal::from_i128_with_scale(b.mantissa, b.scale))
        .map(|d| Amount { mantissa: d.mantissa(), scale: d.scale() })
}

/// `Decimal`'s `==`: two decimals are equal when they are the same number,
/// however many decimal places each has.
#[verifier::external_body]
fn decimal_equal(a: Amount, b: Amount) -> (equal: bool)
    requires
        a@.wf(),
        b@.wf(),
    ensures
        equal == (a@.units() == b@.units()),
{
    Decimal::from_i128_with_scale(a.mantissa, a.scale)
        == Decimal::from_i128_with_scale(b.mantissa, b.scale)
}

/// `Decimal`'s `to_string`: sign, whole part, point and all decimal places.
#[verifier::external_body]
fn decimal_to_string(a: Amount) -> (s: String)
    requires
        a@.wf(),
    ensures
        s@ == a@.plain_text(),
{
    Decimal::from_i128_with_scale(a.mantissa, a.scale).to_string()
}

/// `Decimal`'s formatting with a precision: the decimal places are cut off
/// or filled up with zeros, without rounding. The digits are put together in
/// 32 bytes, which hold the largest whole part, the point and two places.
#[verifier::external_body]
fn decimal_with_places(a: Amount, places: usize) -> (s: String)
    requires
        a@.wf(),
        places <= 2,
    ensures
        s@ == a@.text(places as nat),
{
    format!("{:.*}", places, Decimal::from_i128_with_scale(a.mantissa, a.scale))
}

/// `Decimal::from_str`: what it makes of a text depends on the text alone; a
/// number written with all its decimal places is read back as it was.
#[verifier::external_body]
fn decimal_from_str(s: &str) -> (read: Result<Amount, String>)
    ensures
        parts_of(read) == decimal_read(s@),
        read matches Ok(a) ==> a@.wf(),
        forall|d: Dec| #[trigger] d.writes(s@) ==> parts_of(read) == d.parts(),
{
    match Decimal::from_str(s) {
        Ok(d) => Ok(Amount { mantissa: d.mantissa(), scale: d.scale() }),
        Err(e) => Err(e.to_string()),
    }
}

impl Amount {
    #[verifier::type_invariant]
    spec fn in_range(self) -> bool {
        self@.wf()
    }

    /// Nothing.
    pub fn zero() -> (a: Amount)
        ensures
            a@ == Dec::zero(),
    {
        Amount { mantissa: 0, scale: 0 }
    }

    /// The whole amount `n`.
    pub fn from_integer(n: i64) -> (a: Amount)
        ensures
            a@ == (Dec { mantissa: n as int, scale: 0 }),
    {
        Amount { mantissa: n as i128, scale: 0 }
    }

    /// Reads an amount from a text, or says in words why it cannot be read.
    pub fn parse(s: &str) -> (read: Result<Amount, String>)
        ensures
            match read {
                Ok(a) => amount_read(s@) == Ok::<Dec, Seq<char>>(a@) && a@.wf(),
                Err(words) => amount_read(s@) == Err::<Dec, Seq<char>>(words@),
            },
            forall|d: Dec| #[trigger] d.writes(s@) ==> (read matches Ok(a) && a@ == d),
    {
        decimal_from_str(s)
    }

    /// Whether the amount is nothing.
    pub fn is_zero(&self) -> (zero: bool)
        ensures
            zero == (self@.mantissa == 0),
    {
        self.mantissa == 0
    }

    /// Whether the amount is over nothing.
    pub fn is_positive(&self) -> (positive: bool)
        ensures
            positive == (self@.mantissa > 0),
    {
        self.mantissa > 0
    }

    /// Whether the amount is under nothing.
    pub fn is_negative(&self) -> (negative: bool)
        ensures
            negative == (self@.mantissa < 0),
    {
        self.mantissa < 0
    }

    /// The amount with the opposite sign.
    pub fn negate(&self) -> (a: Amount)
        ensures
            a@ == self@.negated(),
            a@.wf(),
    {
        proof {
            use_type_invariant(self);
        }
        Amount { mantissa: -self.mantissa, scale: self.scale }
    }

    /// The sum of two amounts, or nothing where it is out of range.
    pub fn checked_plus(&self, other: &Amount) -> (sum: Option<Amount>)
        ensures
            match sum {
                Some(s) => self@.plus(other@) == Some(s@),
                None => self@.plus(other@) is None,
            },
            self@.wf(),
            other@.wf(),
    {
        proof {
            use_type_invariant(self);
            use_type_invariant(other);
        }
        decimal_checked_add(*self, *other)
    }

    /// The sum of two amounts.
    pub fn plus(&self, other: &Amount) -> (sum: Amount)
        requires
            self@.plus(other@) is Some,
        ensures
            self@.plus(other@) == Some(sum@),
            self@.adds_exactly(other@) ==> sum@.units() == self@.units() + other@.units(),
    {
        let sum = self.checked_plus(other);
        proof {
            if self@.adds_exactly(other@) {
                lemma_plus_exact(self@, other@);
            }
        }
        sum.unwrap()
    }

    /// The difference of two amounts.
    pub fn minus(&self, other: &Amount) -> (difference: Amount)
        requires
            self@.minus(other@) is Some,
        ensures
            self@.minus(other@) == Some(difference@),
            self@.adds_exactly(other@.negated()) ==> difference@.units() == self@.units()
                - other@.units(),
    {
        proof {
            let p = pow10((MAX_SCALE - other@.scale) as nat) as int;
            let m = other@.mantissa;
            assert((-m) * p == -(m * p)) by (nonlinear_arith);
        }
        self.plus(&other.negate())
    }

    /// The amount written with all its decimal places.
    pub fn to_text(&self) -> (s: String)
        ensures
            s@ == self@.plain_text(),
    {
        proof {
            use_type_invariant(self);
        }
        decimal_to_string(*self)
    }

    /// The amount written with two decimal places.
    pub fn to_money_text(&self) -> (s: String)
        ensures
            s@ == self@.text(2),
    {
        proof {
            use_type_invariant(self);
        }
        decimal_with_places(*self, 2)
    }
}

impl PartialEq for Amount {
    fn eq(&self, other: &Amount) -> (equal: bool) {
        proof {
            use_type_invariant(self);
            use_type_invariant(other);
        }
        decimal_equal(*self, *other)
    }
}

impl vstd::std_specs::cmp::PartialEqSpecImpl for Amount {
    open spec fn obeys_eq_spec() -> bool {
        true
    }

    open spec fn eq_spec(&self, other: &Amount) -> bool {
        self@.units() == other@.units()
    }
}

impl Eq for Amount {
}

impl Default for Amount {
    fn default() -> (a: Amount)
        ensures
            a@ == Dec::zero(),
    {
        Amount::zero()
    }
}

} // verus!
