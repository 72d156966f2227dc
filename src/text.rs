//! The textual form `(numerator/denominator)` of a fraction.

use vstd::prelude::*;

verus! {

use vstd::string::StringExecFns;
use crate::divisor::abs;
use crate::fractions::Frac32;

/// The character of a decimal digit `d < 10`.
pub open spec fn digit_char(d: nat) -> char {
    if d == 0 { '0' }
    else if d == 1 { '1' }
    else if d == 2 { '2' }
    else if d == 3 { '3' }
    else if d == 4 { '4' }
    else if d == 5 { '5' }
    else if d == 6 { '6' }
    else if d == 7 { '7' }
    else if d == 8 { '8' }
    else { '9' }
}

/// Decimal digits of `n`, most significant first, without leading zeros.
pub open spec fn digits(n: nat) -> Seq<char>
    decreases n,
{
    if n < 10 { seq![digit_char(n)] } else { digits(n / 10).push(digit_char(n % 10)) }
}

/// Decimal form of `n`, with `-` before a negative number.
pub open spec fn decimal(n: int) -> Seq<char> {
    if n < 0 { seq!['-'] + digits(abs(n)) } else { digits(n as nat) }
}

/// Relies on `ToString` for `i32`, which writes the `Display` form of an
/// integer: its decimal digits, with `-` before a negative number.
#[verifier::external_body]
fn decimal_text(n: i32) -> (r: String)
    ensures
        r@ == decimal(n as int),
{
    n.to_string()
}

impl Frac32 {
    /// The text `(numerator/denominator)`, as given, without reduction.
    pub fn to_text(&self) -> (r: String)
        ensures
            r@ == seq!['('] + decimal(self.numerator as int) + seq!['/'] + decimal(
                self.denominator as int,
            ) + seq![')'],
    {
        proof {
            reveal_strlit("(");
            reveal_strlit("/");
            reveal_strlit(")");
        }
        let mut s = String::from_str("(");
        let n = decimal_text(self.numerator);
        s.append(n.as_str());
        s.append("/");
        let d = decimal_text(self.denominator);
        s.append(d.as_str());
        s.append(")");
        assert(s@ =~= seq!['('] + decimal(self.numerator as int) + seq!['/'] + decimal(
            self.denominator as int,
        ) + seq![')']);
        s
    }
}

} // verus!
