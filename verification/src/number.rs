//! Numbers: integers, floats and decimals.

use vstd::prelude::*;
use crate::wire::le_bytes;

verus! {

/// The sixteen bytes in which `rust_decimal` reads back what it laid out from `bytes`:
/// four bytes of flags (the scale and the sign), then the 96-bit magnitude, least
/// significant byte first.
pub uninterp spec fn decimal_canonical_form(bytes: Seq<u8>) -> Seq<u8>;

/// Calls `Decimal::deserialize` and lays the decimal out again with `Decimal::serialize`.
/// Flag bits that mean nothing are dropped and too large a scale is brought into range;
/// doing it a second time changes nothing.
#[verifier::external_body]
fn decimal_canonical(bytes: &[u8; 16]) -> (canonical: [u8; 16])
    ensures
        canonical@ == decimal_canonical_form(bytes@),
        decimal_canonical_form(canonical@) == canonical@,
{
    rust_decimal::Decimal::deserialize(*bytes).serialize()
}

/// The whole part of the decimal that the sixteen bytes lay out, where it fits an integer
/// of 64 bits.
pub uninterp spec fn decimal_integer(bytes: Seq<u8>) -> Option<i64>;

/// Calls `Decimal::deserialize` and then `ToPrimitive::to_i64`, which cuts the fraction
/// off and gives nothing where the whole part does not fit.
#[verifier::external_body]
fn decimal_to_integer(bytes: &[u8; 16]) -> (whole: Option<i64>)
    ensures
        whole == decimal_integer(bytes@),
{
    rust_decimal::prelude::ToPrimitive::to_i64(&rust_decimal::Decimal::deserialize(*bytes))
}

/// The text that `rust_decimal` writes for the decimal that the sixteen bytes lay out.
pub uninterp spec fn decimal_text(bytes: Seq<u8>) -> Seq<char>;

/// Calls `Decimal::deserialize` and then `Decimal::to_string`.
#[verifier::external_body]
fn decimal_to_text(bytes: &[u8; 16]) -> (text: String)
    ensures
        text@ == decimal_text(bytes@),
{
    rust_decimal::Decimal::deserialize(*bytes).to_string()
}

/// The sixteen bytes of the decimal that `rust_decimal` reads from a text, where it reads
/// one.
pub uninterp spec fn text_decimal(text: Seq<char>) -> Option<Seq<u8>>;

/// Calls `Decimal::from_str` through `str::parse`, and lays the decimal out with
/// `Decimal::serialize`.
#[verifier::external_body]
fn decimal_from_text(text: &str) -> (bytes: Option<[u8; 16]>)
    ensures
        match bytes {
            Some(bytes) => text_decimal(text@) == Some(bytes@),
            None => text_decimal(text@) is None,
        },
{
    match text.parse::<rust_decimal::Decimal>() {
        Ok(decimal) => Some(decimal.serialize()),
        Err(_) => None,
    }
}

/// The sixteen bytes of a whole number as a decimal: no scale, the sign in the highest
/// bit of the flags, and the size of the number in the twelve bytes of the magnitude,
/// least significant byte first.
pub open spec fn integer_bytes(i: int) -> Seq<u8> {
    seq![
        0u8,
        0u8,
        0u8,
        if i < 0 {
            128u8
        } else {
            0u8
        },
    ] + le_bytes(
        (if i < 0 {
            -i
        } else {
            i
        }) as nat,
        12,
    )
}

/// Whether a whole number fits the 96 bits of a decimal's magnitude.
pub open spec fn fits_decimal(i: int) -> bool {
    -0x1_0000_0000_0000_0000_0000_0000 < i < 0x1_0000_0000_0000_0000_0000_0000
}

/// Calls `Decimal::try_from_i128_with_scale` with the scale zero, and lays the decimal
/// out with `Decimal::serialize`. A number whose size fits 96 bits gives a decimal with
/// the scale zero, the sign of the number, and its size as the magnitude; read back and
/// laid out again, the bytes stay as they are. Any other number gives nothing.
#[verifier::external_body]
fn decimal_from_wide(i: i128) -> (bytes: Option<[u8; 16]>)
    ensures
        match bytes {
            Some(bytes) => fits_decimal(i as int) && bytes@ == integer_bytes(i as int)
                && decimal_canonical_form(bytes@) == bytes@,
            None => !fits_decimal(i as int),
        },
{
    match rust_decimal::Decimal::try_from_i128_with_scale(i, 0) {
        Ok(decimal) => Some(decimal.serialize()),
        Err(_) => None,
    }
}

/// How `rust_decimal` orders the decimals that two runs of sixteen bytes lay out: below
/// zero where the first is the smaller, zero where they are the same number, and above
/// zero where the first is the greater.
pub uninterp spec fn decimal_order(a: Seq<u8>, b: Seq<u8>) -> int;

/// Calls `Decimal::deserialize` on both and then `Decimal::cmp`.
#[verifier::external_body]
fn decimal_compare(a: &[u8; 16], b: &[u8; 16]) -> (order: i8)
    ensures
        order == decimal_order(a@, b@),
        -1 <= order <= 1,
{
    match rust_decimal::Decimal::deserialize(*a).cmp(&rust_decimal::Decimal::deserialize(*b)) {
        std::cmp::Ordering::Less => -1,
        std::cmp::Ordering::Equal => 0,
        std::cmp::Ordering::Greater => 1,
    }
}

/// The sum of the decimals that two runs of sixteen bytes lay out, as `rust_decimal`
/// lays it out, where it fits a decimal.
pub uninterp spec fn decimal_sum(a: Seq<u8>, b: Seq<u8>) -> Option<Seq<u8>>;

/// Calls `Decimal::deserialize` on both and then `Decimal::checked_add`, which gives nothing where the sum does not fit,
/// and lays the result out with `Decimal::serialize`.
#[verifier::external_body]
fn decimal_add(a: &[u8; 16], b: &[u8; 16]) -> (bytes: Option<[u8; 16]>)
    ensures
        match bytes {
            Some(bytes) => decimal_sum(a@, b@) == Some(bytes@),
            None => decimal_sum(a@, b@) is None,
        },
{
    let left = rust_decimal::Decimal::deserialize(*a);
    match left.checked_add(rust_decimal::Decimal::deserialize(*b)) {
        Some(result) => Some(result.serialize()),
        None => None,
    }
}

/// The first of two decimals less the second, as `rust_decimal` lays it out, where it
/// fits a decimal.
pub uninterp spec fn decimal_difference(a: Seq<u8>, b: Seq<u8>) -> Option<Seq<u8>>;

/// Calls `Decimal::deserialize` on both and then `Decimal::checked_sub`, which gives nothing where the difference does not fit,
/// and lays the result out with `Decimal::serialize`.
#[verifier::external_body]
fn decimal_subtract(a: &[u8; 16], b: &[u8; 16]) -> (bytes: Option<[u8; 16]>)
    ensures
        match bytes {
            Some(bytes) => decimal_difference(a@, b@) == Some(bytes@),
            None => decimal_difference(a@, b@) is None,
        },
{
    let left = rust_decimal::Decimal::deserialize(*a);
    match left.checked_sub(rust_decimal::Decimal::deserialize(*b)) {
        Some(result) => Some(result.serialize()),
        None => None,
    }
}

/// The product of two decimals, as `rust_decimal` lays it out, where it fits a decimal.
pub uninterp spec fn decimal_product(a: Seq<u8>, b: Seq<u8>) -> Option<Seq<u8>>;

/// Calls `Decimal::deserialize` on both and then `Decimal::checked_mul`, which gives nothing where the product does not fit,
/// and lays the result out with `Decimal::serialize`.
#[verifier::external_body]
fn decimal_multiply(a: &[u8; 16], b: &[u8; 16]) -> (bytes: Option<[u8; 16]>)
    ensures
        match bytes {
            Some(bytes) => decimal_product(a@, b@) == Some(bytes@),
            None => decimal_product(a@, b@) is None,
        },
{
    let left = rust_decimal::Decimal::deserialize(*a);
    match left.checked_mul(rust_decimal::Decimal::deserialize(*b)) {
        Some(result) => Some(result.serialize()),
        None => None,
    }
}

/// The first of two decimals divided by the second, as `rust_decimal` lays it out, where
/// the second is not zero and the quotient fits a decimal.
pub uninterp spec fn decimal_quotient(a: Seq<u8>, b: Seq<u8>) -> Option<Seq<u8>>;

/// Calls `Decimal::deserialize` on both and then `Decimal::checked_div`, which gives nothing where the second decimal is zero or the quotient does not fit,
/// and lays the result out with `Decimal::serialize`.
#[verifier::external_body]
fn decimal_divide(a: &[u8; 16], b: &[u8; 16]) -> (bytes: Option<[u8; 16]>)
    ensures
        match bytes {
            Some(bytes) => decimal_quotient(a@, b@) == Some(bytes@),
            None => decimal_quotient(a@, b@) is None,
        },
{
    let left = rust_decimal::Decimal::deserialize(*a);
    match left.checked_div(rust_decimal::Decimal::deserialize(*b)) {
        Some(result) => Some(result.serialize()),
        None => None,
    }
}

/// What is left of the first of two decimals when it is divided by the second, as
/// `rust_decimal` lays it out, where the second is not zero.
pub uninterp spec fn decimal_remainder(a: Seq<u8>, b: Seq<u8>) -> Option<Seq<u8>>;

/// Calls `Decimal::deserialize` on both and then `Decimal::checked_rem`, which gives nothing where the second decimal is zero or the result does not fit,
/// and lays the result out with `Decimal::serialize`.
#[verifier::external_body]
fn decimal_rest(a: &[u8; 16], b: &[u8; 16]) -> (bytes: Option<[u8; 16]>)
    ensures
        match bytes {
            Some(bytes) => decimal_remainder(a@, b@) == Some(bytes@),
            None => decimal_remainder(a@, b@) is None,
        },
{
    let left = rust_decimal::Decimal::deserialize(*a);
    match left.checked_rem(rust_decimal::Decimal::deserialize(*b)) {
        Some(result) => Some(result.serialize()),
        None => None,
    }
}

/// Whether the decimal that the sixteen bytes lay out is zero: its magnitude is.
pub open spec fn decimal_is_zero(bytes: Seq<u8>) -> bool {
    forall|i: int| 4 <= i < 16 ==> bytes[i] == 0
}

/// A 128-bit fixed-point decimal, held as the sixteen bytes that `rust_decimal` lays it
/// out in.
#[derive(Clone, Copy, Debug)]
pub struct Decimal {
    bytes: [u8; 16],
}

impl View for Decimal {
    type V = Seq<u8>;

    closed spec fn view(&self) -> Seq<u8> {
        self.bytes@
    }
}

impl Decimal {
    /// The bytes are as `rust_decimal` lays a decimal out.
    pub open spec fn wf(&self) -> bool {
        self@.len() == 16 && decimal_canonical_form(self@) == self@
    }

    /// The decimal that `bytes` lay out.
    pub fn from_bytes(bytes: [u8; 16]) -> (d: Decimal)
        ensures
            d.wf(),
            d@ == decimal_canonical_form(bytes@),
    {
        Decimal { bytes: decimal_canonical(&bytes) }
    }

    /// The decimal that `bytes` lay out, if they are laid out as `rust_decimal` does it.
    pub fn from_canonical_bytes(bytes: [u8; 16]) -> (d: Option<Decimal>)
        ensures
            match d {
                Some(d) => d.wf() && d@ == bytes@,
                None => decimal_canonical_form(bytes@) != bytes@,
            },
    {
        let canonical = decimal_canonical(&bytes);
        if crate::order::bytes_equal(canonical.as_slice(), bytes.as_slice()) {
            Some(Decimal { bytes })
        } else {
            None
        }
    }

    pub fn to_bytes(&self) -> (bytes: [u8; 16])
        ensures
            bytes@ == self@,
    {
        self.bytes
    }

    /// The decimal of a whole number.
    pub fn from_integer(i: i64) -> (d: Decimal)
        ensures
            d.wf(),
            d@ == integer_bytes(i as int),
    {
        match decimal_from_wide(i as i128) {
            Some(bytes) => Decimal { bytes },
            None => Decimal { bytes: decimal_canonical(&[0u8; 16]) },
        }
    }

    /// The decimal of a whole number, where its size fits 96 bits.
    pub fn from_wide(i: i128) -> (d: Option<Decimal>)
        ensures
            match d {
                Some(d) => d.wf() && fits_decimal(i as int) && d@ == integer_bytes(i as int),
                None => !fits_decimal(i as int),
            },
    {
        match decimal_from_wide(i) {
            Some(bytes) => Some(Decimal { bytes }),
            None => None,
        }
    }

    /// How the decimal stands to another: below zero where it is the smaller, zero where
    /// they are the same number, above zero where it is the greater.
    pub fn order(&self, other: &Decimal) -> (order: i8)
        ensures
            order == decimal_order(self@, other@),
            -1 <= order <= 1,
    {
        decimal_compare(&self.bytes, &other.bytes)
    }

    /// The whole part of the decimal, where it fits an integer of 64 bits.
    pub fn to_integer(&self) -> (whole: Option<i64>)
        ensures
            whole == decimal_integer(self@),
    {
        decimal_to_integer(&self.bytes)
    }

    /// The decimal as text.
    pub fn to_text(&self) -> (text: String)
        ensures
            text@ == decimal_text(self@),
    {
        decimal_to_text(&self.bytes)
    }

    /// The decimal that a text spells, where it spells one.
    pub fn from_text(text: &str) -> (d: Option<Decimal>)
        ensures
            match d {
                Some(d) => d.wf() && text_decimal(text@) is Some && d@ == decimal_canonical_form(
                    text_decimal(text@)->Some_0,
                ),
                None => text_decimal(text@) is None,
            },
    {
        match decimal_from_text(text) {
            Some(bytes) => Some(Decimal::from_bytes(bytes)),
            None => None,
        }
    }

    /// The sum of the decimal and another, where `rust_decimal` gives one.
    pub fn plus(&self, other: &Decimal) -> (result: Option<Decimal>)
        ensures
            match result {
                Some(d) => d.wf() && decimal_sum(self@, other@) is Some && d@ == decimal_canonical_form(
                    decimal_sum(self@, other@)->Some_0,
                ),
                None => decimal_sum(self@, other@) is None,
            },
    {
        match decimal_add(&self.bytes, &other.bytes) {
            Some(bytes) => Some(Decimal::from_bytes(bytes)),
            None => None,
        }
    }

    /// The decimal less another, where `rust_decimal` gives one.
    pub fn minus(&self, other: &Decimal) -> (result: Option<Decimal>)
        ensures
            match result {
                Some(d) => d.wf() && decimal_difference(self@, other@) is Some && d@ == decimal_canonical_form(
                    decimal_difference(self@, other@)->Some_0,
                ),
                None => decimal_difference(self@, other@) is None,
            },
    {
        match decimal_subtract(&self.bytes, &other.bytes) {
            Some(bytes) => Some(Decimal::from_bytes(bytes)),
            None => None,
        }
    }

    /// The product of the decimal and another, where `rust_decimal` gives one.
    pub fn times(&self, other: &Decimal) -> (result: Option<Decimal>)
        ensures
            match result {
                Some(d) => d.wf() && decimal_product(self@, other@) is Some && d@ == decimal_canonical_form(
                    decimal_product(self@, other@)->Some_0,
                ),
                None => decimal_product(self@, other@) is None,
            },
    {
        match decimal_multiply(&self.bytes, &other.bytes) {
            Some(bytes) => Some(Decimal::from_bytes(bytes)),
            None => None,
        }
    }

    /// The decimal divided by another, where `rust_decimal` gives one.
    pub fn divided_by(&self, other: &Decimal) -> (result: Option<Decimal>)
        ensures
            match result {
                Some(d) => d.wf() && decimal_quotient(self@, other@) is Some && d@ == decimal_canonical_form(
                    decimal_quotient(self@, other@)->Some_0,
                ),
                None => decimal_quotient(self@, other@) is None,
            },
    {
        match decimal_divide(&self.bytes, &other.bytes) {
            Some(bytes) => Some(Decimal::from_bytes(bytes)),
            None => None,
        }
    }

    /// What is left of the decimal when it is divided by another, where `rust_decimal` gives one.
    pub fn remainder_of(&self, other: &Decimal) -> (result: Option<Decimal>)
        ensures
            match result {
                Some(d) => d.wf() && decimal_remainder(self@, other@) is Some && d@ == decimal_canonical_form(
                    decimal_remainder(self@, other@)->Some_0,
                ),
                None => decimal_remainder(self@, other@) is None,
            },
    {
        match decimal_rest(&self.bytes, &other.bytes) {
            Some(bytes) => Some(Decimal::from_bytes(bytes)),
            None => None,
        }
    }

    /// Whether the decimal is zero.
    pub fn is_zero(&self) -> (zero: bool)
        ensures
            zero == decimal_is_zero(self@),
    {
        let mut i: usize = 4;
        while i < 16
            invariant
                4 <= i <= 16,
                forall|j: int| 4 <= j < i ==> self.bytes@[j] == 0,
            decreases 16 - i,
        {
            if self.bytes[i] != 0 {
                return false;
            }
            i += 1;
        }
        true
    }
}

/// What a `Number` stands for.
pub enum NumberView {
    /// The bits of a double-precision float.
    Float(u64),
    Integer(i64),
    /// The sixteen bytes of a decimal.
    Decimal(Seq<u8>),
}

impl NumberView {
    pub open spec fn wf(self) -> bool {
        match self {
            NumberView::Decimal(bytes) => bytes.len() == 16 && decimal_canonical_form(bytes)
                == bytes,
            _ => true,
        }
    }
}

/// A number. A float is held as the 64 bits of its IEEE 754 double-precision form.
#[derive(Clone, Copy, Debug)]
pub enum Number {
    Float(u64),
    Integer(i64),
    Decimal(Decimal),
}

impl View for Number {
    type V = NumberView;

    open spec fn view(&self) -> NumberView {
        match self {
            Number::Float(bits) => NumberView::Float(*bits),
            Number::Integer(i) => NumberView::Integer(*i),
            Number::Decimal(d) => NumberView::Decimal(d@),
        }
    }
}

} // verus!
