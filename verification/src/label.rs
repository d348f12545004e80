//! The record count as the viewer shows it: in decimal, the digits grouped in
//! threes.

use num_format::{Locale, ToFormattedString};
use vstd::prelude::*;
use crate::scene::Scene;

verus! {

/// The character of a decimal digit.
pub open spec fn digit(d: nat) -> char {
    if d == 0 {
        '0'
    } else if d == 1 {
        '1'
    } else if d == 2 {
        '2'
    } else if d == 3 {
        '3'
    } else if d == 4 {
        '4'
    } else if d == 5 {
        '5'
    } else if d == 6 {
        '6'
    } else if d == 7 {
        '7'
    } else if d == 8 {
        '8'
    } else {
        '9'
    }
}

/// A number below 1000 in decimal, without leading zeros.
pub open spec fn leading_group(n: nat) -> Seq<char> {
    if n < 10 {
        seq![digit(n)]
    } else if n < 100 {
        seq![digit(n / 10), digit(n % 10)]
    } else {
        seq![digit(n / 100), digit((n / 10) % 10), digit(n % 10)]
    }
}

/// A number in decimal, a comma before every group of three digits but the
/// first: `1,234,567`.
pub open spec fn grouped(n: nat) -> Seq<char>
    decreases n,
{
    if n < 1000 {
        leading_group(n)
    } else {
        grouped(n / 1000) + seq![
            ',',
            digit((n % 1000) / 100),
            digit(((n % 1000) / 10) % 10),
            digit(n % 10),
        ]
    }
}

/// `num_format::ToFormattedString::to_formatted_string` with `Locale::en`,
/// for a `usize`. That locale groups the digits in threes with a comma, and
/// an unsigned number has no sign: the result is the decimal numeral with a
/// comma put in before every third digit counted from the right, none at the
/// front.
#[verifier::external_body]
fn format_en(count: usize) -> (text: String)
    ensures
        text@ == grouped(count as nat),
{
    count.to_formatted_string(&Locale::en)
}

impl Scene {
    /// The number of records, for display.
    pub fn splat_count_label(&self) -> (label: String)
        ensures
            label@ == grouped(self@.splat_count),
    {
        format_en(self.splat_count())
    }
}

} // verus!
