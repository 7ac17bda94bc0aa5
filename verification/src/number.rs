//! Numbers as BB source writes them: digits in base 2, 8, 10 or 16.

use vstd::prelude::*;

verus! {

/// Why a text is not a number of the wanted type.
#[derive(Clone, Copy, Debug, PartialEq, Eq, Structural)]
pub enum NumberFault {
    /// The text is empty.
    Empty,
    /// A character is no digit of the base, or a sign stands alone or out of
    /// place.
    InvalidDigit,
    /// The number is too large for the type.
    PosOverflow,
    /// The number is too small for the type.
    NegOverflow,
    /// The number is zero where zero is not allowed.
    Zero,
    /// Any other reason.
    Other,
}

impl NumberFault {
    /// The fault in words.
    pub open spec fn text(self) -> Seq<char> {
        match self {
            NumberFault::Empty => "cannot parse integer from empty string"@,
            NumberFault::InvalidDigit => "invalid digit found in string"@,
            NumberFault::PosOverflow => "number too large to fit in target type"@,
            NumberFault::NegOverflow => "number too small to fit in target type"@,
            NumberFault::Zero => "number would be zero for non-zero type"@,
            NumberFault::Other => "not a number"@,
        }
    }

    /// The fault in words.
    pub fn to_string(&self) -> (text: String)
        ensures
            text@ == self.text(),
    {
        match self {
            NumberFault::Empty => "cannot parse integer from empty string".to_owned(),
            NumberFault::InvalidDigit => "invalid digit found in string".to_owned(),
            NumberFault::PosOverflow => "number too large to fit in target type".to_owned(),
            NumberFault::NegOverflow => "number too small to fit in target type".to_owned(),
            NumberFault::Zero => "number would be zero for non-zero type".to_owned(),
            NumberFault::Other => "not a number".to_owned(),
        }
    }
}

/// What a character is worth as a digit: `0` to `9`, then `a` to `z` or `A`
/// to `Z` for ten to thirty-five.
pub open spec fn digit_of(c: char) -> Option<nat> {
    if '0' <= c <= '9' {
        Some((c as int - '0' as int) as nat)
    } else if 'a' <= c <= 'z' {
        Some((c as int - 'a' as int + 10) as nat)
    } else if 'A' <= c <= 'Z' {
        Some((c as int - 'A' as int + 10) as nat)
    } else {
        None
    }
}

/// The number that a run of digits writes in base `radix`, the empty run
/// writing zero; `None` where a character is no digit of that base.
pub open spec fn digits_value(digits: Seq<char>, radix: nat) -> Option<nat>
    decreases digits.len(),
{
    if digits.len() == 0 {
        Some(0)
    } else {
        match (digits_value(digits.drop_last(), radix), digit_of(digits.last())) {
            (Some(high), Some(low)) => if low < radix {
                Some(high * radix + low)
            } else {
                None
            },
            _ => None,
        }
    }
}

/// The number that `text` writes in base `radix`: an optional `+` and then
/// one digit or more. `None` for any other text.
pub open spec fn radix_number(text: Seq<char>, radix: nat) -> Option<nat> {
    let digits = if text.len() > 0 && text[0] == '+' {
        text.drop_first()
    } else {
        text
    };
    if digits.len() == 0 {
        None
    } else {
        digits_value(digits, radix)
    }
}

/// The fault that parsing `text` as a `u32` in base `radix` reports, where it
/// reports one.
pub uninterp spec fn u32_radix_fault(text: Seq<char>, radix: u32) -> NumberFault;

/// The fault that parsing `text` as a `usize` in base `radix` reports, where
/// it reports one.
pub uninterp spec fn usize_radix_fault(text: Seq<char>, radix: u32) -> NumberFault;

/// `<u32 as num_traits::Num>::from_str_radix`, which hands the text to
/// `u32::from_str_radix`. Trusted: it succeeds exactly on an optional `+`
/// followed by one or more digits of the base whose value fits a `u32`, and
/// then returns that value; which fault it reports otherwise is known only by
/// name. The base must lie between 2 and 36, else the call panics.
#[verifier::external_body]
pub(crate) fn u32_from_str_radix(text: &str, radix: u32) -> (r: Result<u32, NumberFault>)
    requires
        2 <= radix <= 36,
    ensures
        r matches Ok(v) ==> radix_number(text@, radix as nat) == Some(v as nat),
        r is Ok <==> (radix_number(text@, radix as nat) matches Some(n) && n <= u32::MAX),
        r matches Err(fault) ==> fault == u32_radix_fault(text@, radix),
{
    match <u32 as num_traits::Num>::from_str_radix(text, radix) {
        Ok(v) => Ok(v),
        Err(e) => Err(
            match e.kind() {
                core::num::IntErrorKind::Empty => NumberFault::Empty,
                core::num::IntErrorKind::InvalidDigit => NumberFault::InvalidDigit,
                core::num::IntErrorKind::PosOverflow => NumberFault::PosOverflow,
                core::num::IntErrorKind::NegOverflow => NumberFault::NegOverflow,
                core::num::IntErrorKind::Zero => NumberFault::Zero,
                _ => NumberFault::Other,
            },
        ),
    }
}

/// `<usize as num_traits::Num>::from_str_radix`, which hands the text to
/// `usize::from_str_radix`. Trusted in the same way as the `u32` form, with
/// the bound of `usize`.
#[verifier::external_body]
pub(crate) fn usize_from_str_radix(text: &str, radix: u32) -> (r: Result<usize, NumberFault>)
    requires
        2 <= radix <= 36,
    ensures
        r matches Ok(v) ==> radix_number(text@, radix as nat) == Some(v as nat),
        r is Ok <==> (radix_number(text@, radix as nat) matches Some(n) && n <= usize::MAX),
        r matches Err(fault) ==> fault == usize_radix_fault(text@, radix),
{
    match <usize as num_traits::Num>::from_str_radix(text, radix) {
        Ok(v) => Ok(v),
        Err(e) => Err(
            match e.kind() {
                core::num::IntErrorKind::Empty => NumberFault::Empty,
                core::num::IntErrorKind::InvalidDigit => NumberFault::InvalidDigit,
                core::num::IntErrorKind::PosOverflow => NumberFault::PosOverflow,
                core::num::IntErrorKind::NegOverflow => NumberFault::NegOverflow,
                core::num::IntErrorKind::Zero => NumberFault::Zero,
                _ => NumberFault::Other,
            },
        ),
    }
}

/// What parsing `text` in base `radix` yields for a type whose largest value
/// is `limit` and whose fault on this text is `fault`.
pub open spec fn parsed_number(text: Seq<char>, radix: nat, limit: nat, fault: NumberFault) -> Result<
    nat,
    NumberFault,
> {
    match radix_number(text, radix) {
        Some(n) => if n <= limit {
            Ok(n)
        } else {
            Err(fault)
        },
        None => Err(fault),
    }
}

/// The integer types that BB numbers are read into.
pub trait Number: Sized {
    /// The value as a natural number.
    spec fn value(&self) -> nat;

    /// The largest value of the type.
    spec fn limit() -> nat;

    /// The name of the type.
    spec fn name() -> Seq<char>;

    /// The fault reported for a text that is no number of the type.
    spec fn fault(text: Seq<char>, radix: u32) -> NumberFault;

    /// The name of the type, as diagnostics print it.
    fn type_label() -> (name: String)
        ensures
            name@ == Self::name(),
    ;

    /// Parses `text` in base `radix`.
    fn from_str_radix(text: &str, radix: u32) -> (r: Result<Self, NumberFault>)
        requires
            2 <= radix <= 36,
        ensures
            match r {
                Ok(n) => parsed_number(text@, radix as nat, Self::limit(), Self::fault(text@, radix))
                    == Ok::<nat, NumberFault>(n.value()),
                Err(fault) => parsed_number(
                    text@,
                    radix as nat,
                    Self::limit(),
                    Self::fault(text@, radix),
                ) == Err::<nat, NumberFault>(fault),
            },
    ;
}

impl Number for u32 {
    open spec fn value(&self) -> nat {
        *self as nat
    }

    open spec fn limit() -> nat {
        u32::MAX as nat
    }

    open spec fn name() -> Seq<char> {
        "u32"@
    }

    open spec fn fault(text: Seq<char>, radix: u32) -> NumberFault {
        u32_radix_fault(text, radix)
    }

    fn type_label() -> (name: String) {
        "u32".to_owned()
    }

    fn from_str_radix(text: &str, radix: u32) -> (r: Result<Self, NumberFault>) {
        u32_from_str_radix(text, radix)
    }
}

impl Number for usize {
    open spec fn value(&self) -> nat {
        *self as nat
    }

    open spec fn limit() -> nat {
        usize::MAX as nat
    }

    open spec fn name() -> Seq<char> {
        "usize"@
    }

    open spec fn fault(text: Seq<char>, radix: u32) -> NumberFault {
        usize_radix_fault(text, radix)
    }

    fn type_label() -> (name: String) {
        "usize".to_owned()
    }

    fn from_str_radix(text: &str, radix: u32) -> (r: Result<Self, NumberFault>) {
        usize_from_str_radix(text, radix)
    }
}

} // verus!
