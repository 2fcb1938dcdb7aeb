use vstd::prelude::*;

verus! {

/// The character of a decimal digit.
pub open spec fn digit(d: nat) -> char {
    if d == 0 {
        '0'
    } else if d == 1 {
        '1'
    } else if d == 2 {
        '2'
    } else if d == 3 {
        '3'
    } else if d == 4 {
        '4'
    } else if d == 5 {
        '5'
    } else if d == 6 {
        '6'
    } else if d == 7 {
        '7'
    } else if d == 8 {
        '8'
    } else {
        '9'
    }
}

/// A number written in decimal digits, without leading zeros.
pub open spec fn decimal(n: nat) -> Seq<char>
    decreases n,
{
    if n < 10 {
        seq![digit(n)]
    } else {
        decimal(n / 10).push(digit(n % 10))
    }
}

/// `base`, a hyphen, and `label`.
pub open spec fn labelled(base: Seq<char>, label: Seq<char>) -> Seq<char> {
    base + seq!['-'] + label
}

/// `base`, a hyphen, and `n` in decimal digits.
pub open spec fn numbered(base: Seq<char>, n: nat) -> Seq<char> {
    base + seq!['-'] + decimal(n)
}

/// Joins a name and a label with a hyphen. Rests on `format!`, which writes
/// a string slice as it stands.
#[verifier::external_body]
pub(crate) fn join_label(base: &str, label: &str) -> (r: String)
    ensures
        r@ == labelled(base@, label@),
{
    format!("{}-{}", base, label)
}

/// Joins a name and a number with a hyphen. Rests on `format!`, which
/// writes an unsigned integer in decimal digits without leading zeros.
#[verifier::external_body]
pub(crate) fn join_number(base: &str, n: usize) -> (r: String)
    ensures
        r@ == numbered(base@, n as nat),
{
    format!("{}-{}", base, n)
}

} // verus!
