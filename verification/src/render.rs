//! The rendering capability: a conversion from a value to a bounded string
//! together with a maximum length that does not depend on the value.
//! Integer rendering is done by the `to_arraystring` crate; its output is
//! pinned down here as the ordinary decimal numeral.

use vstd::prelude::*;

use crate::bounded::BoundedString;
use crate::bounded::StrView;

verus! {

/// The character for a single decimal digit.
pub open spec fn decimal_digit(d: nat) -> char {
    if d == 0 {
        '0'
    } else if d == 1 {
        '1'
    } else if d == 2 {
        '2'
    } else if d == 3 {
        '3'
    } else if d == 4 {
        '4'
    } else if d == 5 {
        '5'
    } else if d == 6 {
        '6'
    } else if d == 7 {
        '7'
    } else if d == 8 {
        '8'
    } else {
        '9'
    }
}

/// The decimal numeral of a natural number, most significant digit first,
/// with no sign, padding or separators.
pub open spec fn spec_decimal(n: nat) -> Seq<char>
    decreases n,
{
    if n < 10 {
        seq![decimal_digit(n)]
    } else {
        spec_decimal(n / 10).push(decimal_digit(n % 10))
    }
}

pub open spec fn pow10(k: nat) -> nat
    decreases k,
{
    if k == 0 {
        1
    } else {
        10 * pow10((k - 1) as nat)
    }
}

/// A number below the k-th power of ten has at most k decimal digits.
pub proof fn lemma_decimal_len(n: nat, k: nat)
    requires
        1 <= k,
        n < pow10(k),
    ensures
        spec_decimal(n).len() <= k,
    decreases k,
{
    if n < 10 {
    } else {
        assert(n / 10 < pow10((k - 1) as nat)) by (nonlinear_arith)
            requires
                n < 10 * pow10((k - 1) as nat),
        ;
        lemma_decimal_len(n / 10, (k - 1) as nat);
    }
}

/// The powers of ten that bound the integer types rendered here.
pub proof fn lemma_pow10_values()
    ensures
        pow10(3) == 1000,
        pow10(5) == 100000,
        pow10(10) == 10000000000,
{
    reveal_with_fuel(pow10, 11);
}

/// The decimal numeral of a signed number: a leading minus sign when the
/// number is negative, then the numeral of its magnitude.
pub open spec fn spec_signed_decimal(n: int) -> Seq<char> {
    if n < 0 {
        seq!['-'] + spec_decimal((-n) as nat)
    } else {
        spec_decimal(n as nat)
    }
}

/// The text `bool` renders to.
pub open spec fn spec_bool_text(v: bool) -> Seq<char> {
    if v {
        "true"@
    } else {
        "false"@
    }
}

/// The rendering capability every formatting argument offers: a pure
/// conversion to a bounded string whose capacity, `spec_max_length`, bounds
/// the rendering of every value of the type.
pub trait ToArrayString: Sized {
    /// The invariant the value carries, if any; rendering is only promised
    /// to fit for values that satisfy it.
    spec fn arg_wf(&self) -> bool;

    /// The declared maximum rendered length.
    spec fn spec_max_length(&self) -> nat;

    /// The rendered text.
    spec fn spec_rendered(&self) -> Seq<char>;

    fn to_arraystring(self) -> (r: BoundedString)
        requires
            self.arg_wf(),
        ensures
            r@ == (StrView { chars: self.spec_rendered(), cap: self.spec_max_length() }),
            r.wf(),
    ;
}

/// Relies on `u8::to_arraystring` (crate `to_arraystring`, through `itoa`):
/// the value's plain decimal numeral.
#[verifier::external_body]
fn u8_digits(v: u8) -> (r: String)
    ensures
        r@ == spec_decimal(v as nat),
{
    String::from(to_arraystring::ToArrayString::to_arraystring(v).as_str())
}

/// Relies on `u16::to_arraystring` (crate `to_arraystring`, through `itoa`):
/// the value's plain decimal numeral.
#[verifier::external_body]
fn u16_digits(v: u16) -> (r: String)
    ensures
        r@ == spec_decimal(v as nat),
{
    String::from(to_arraystring::ToArrayString::to_arraystring(v).as_str())
}

/// Relies on `u32::to_arraystring` (crate `to_arraystring`, through `itoa`):
/// the value's plain decimal numeral.
#[verifier::external_body]
fn u32_digits(v: u32) -> (r: String)
    ensures
        r@ == spec_decimal(v as nat),
{
    String::from(to_arraystring::ToArrayString::to_arraystring(v).as_str())
}

/// Relies on `i32::to_arraystring` (crate `to_arraystring`, through `itoa`):
/// the value's plain decimal numeral, minus-signed when negative.
#[verifier::external_body]
fn i32_digits(v: i32) -> (r: String)
    ensures
        r@ == spec_signed_decimal(v as int),
{
    String::from(to_arraystring::ToArrayString::to_arraystring(v).as_str())
}

/// Relies on `bool::to_arraystring` (crate `to_arraystring`): `"true"` or
/// `"false"`.
#[verifier::external_body]
fn bool_text(v: bool) -> (r: String)
    ensures
        r@ == spec_bool_text(v),
{
    String::from(to_arraystring::ToArrayString::to_arraystring(v).as_str())
}

impl ToArrayString for u8 {
    open spec fn arg_wf(&self) -> bool {
        true
    }

    open spec fn spec_max_length(&self) -> nat {
        3
    }

    open spec fn spec_rendered(&self) -> Seq<char> {
        spec_decimal(*self as nat)
    }

    fn to_arraystring(self) -> (r: BoundedString) {
        let s = u8_digits(self);
        proof {
            lemma_pow10_values();
            lemma_decimal_len(self as nat, 3);
        }
        BoundedString::from_parts(s, 3)
    }
}

impl ToArrayString for u16 {
    open spec fn arg_wf(&self) -> bool {
        true
    }

    open spec fn spec_max_length(&self) -> nat {
        5
    }

    open spec fn spec_rendered(&self) -> Seq<char> {
        spec_decimal(*self as nat)
    }

    fn to_arraystring(self) -> (r: BoundedString) {
        let s = u16_digits(self);
        proof {
            lemma_pow10_values();
            lemma_decimal_len(self as nat, 5);
        }
        BoundedString::from_parts(s, 5)
    }
}

impl ToArrayString for u32 {
    open spec fn arg_wf(&self) -> bool {
        true
    }

    open spec fn spec_max_length(&self) -> nat {
        10
    }

    open spec fn spec_rendered(&self) -> Seq<char> {
        spec_decimal(*self as nat)
    }

    fn to_arraystring(self) -> (r: BoundedString) {
        let s = u32_digits(self);
        proof {
            lemma_pow10_values();
            lemma_decimal_len(self as nat, 10);
        }
        BoundedString::from_parts(s, 10)
    }
}

impl ToArrayString for i32 {
    open spec fn arg_wf(&self) -> bool {
        true
    }

    open spec fn spec_max_length(&self) -> nat {
        11
    }

    open spec fn spec_rendered(&self) -> Seq<char> {
        spec_signed_decimal(*self as int)
    }

    fn to_arraystring(self) -> (r: BoundedString) {
        let s = i32_digits(self);
        proof {
            lemma_pow10_values();
            if self < 0 {
                lemma_decimal_len((-(self as int)) as nat, 10);
            } else {
                lemma_decimal_len(self as nat, 10);
            }
        }
        BoundedString::from_parts(s, 11)
    }
}

impl ToArrayString for bool {
    open spec fn arg_wf(&self) -> bool {
        true
    }

    open spec fn spec_max_length(&self) -> nat {
        5
    }

    open spec fn spec_rendered(&self) -> Seq<char> {
        spec_bool_text(*self)
    }

    fn to_arraystring(self) -> (r: BoundedString) {
        let s = bool_text(self);
        proof {
            reveal_strlit("true");
            reveal_strlit("false");
        }
        BoundedString::from_parts(s, 5)
    }
}

impl ToArrayString for BoundedString {
    /// A bounded string passed through as an argument must already fit
    /// its own capacity.
    open spec fn arg_wf(&self) -> bool {
        self.wf()
    }

    open spec fn spec_max_length(&self) -> nat {
        self@.cap
    }

    open spec fn spec_rendered(&self) -> Seq<char> {
        self@.chars
    }

    fn to_arraystring(self) -> (r: BoundedString) {
        self
    }
}

} // verus!
