//! The numbering prefix: a space-padded decimal line number and a tab.

use vstd::prelude::*;

verus! {

/// The decimal digits of `n`, most significant first.
pub open spec fn spec_digits(n: nat) -> Seq<u8>
    decreases n,
{
    if n < 10 {
        seq![(48 + n) as u8]
    } else {
        spec_digits(n / 10).push((48 + n % 10) as u8)
    }
}

/// How many spaces pad the number: the numeric field is at least six
/// characters wide, and simply grows past six digits.
pub open spec fn spec_space_count(n: nat) -> nat {
    if n < 10 {
        5
    } else if n < 100 {
        4
    } else if n < 1000 {
        3
    } else if n < 10000 {
        2
    } else if n < 100000 {
        1
    } else {
        0
    }
}

/// The padding that precedes the number.
pub open spec fn spec_spaces(n: nat) -> Seq<u8> {
    Seq::new(spec_space_count(n), |i: int| 32u8)
}

/// The whole prefix of a numbered line: padding, digits, and a tab.
pub open spec fn spec_number_field(n: nat) -> Seq<u8> {
    spec_spaces(n) + spec_digits(n) + seq![9u8]
}

/// The decimal digits of `line_number`, most significant first.
pub fn decimal_digits(line_number: u64) -> (r: Vec<u8>)
    ensures
        r@ == spec_digits(line_number as nat),
    decreases line_number,
{
    if line_number < 10 {
        let mut r: Vec<u8> = Vec::new();
        r.push(48 + line_number as u8);
        proof {
            assert(r@ =~= spec_digits(line_number as nat));
        }
        r
    } else {
        let mut r = decimal_digits(line_number / 10);
        r.push(48 + (line_number % 10) as u8);
        proof {
            assert((line_number / 10) as nat == (line_number as nat) / 10);
            assert((line_number % 10) as nat == (line_number as nat) % 10);
        }
        r
    }
}

/// The spaces that pad the number to the numeric field width.
pub fn numbering_prefix(line_number: u64) -> (r: Vec<u8>)
    ensures
        r@ == spec_spaces(line_number as nat),
{
    let r: Vec<u8> = if line_number < 10 {
        vec![32u8, 32u8, 32u8, 32u8, 32u8]
    } else if line_number < 100 {
        vec![32u8, 32u8, 32u8, 32u8]
    } else if line_number < 1000 {
        vec![32u8, 32u8, 32u8]
    } else if line_number < 10000 {
        vec![32u8, 32u8]
    } else if line_number < 100000 {
        vec![32u8]
    } else {
        Vec::new()
    };
    proof {
        assert(r@ =~= spec_spaces(line_number as nat));
    }
    r
}

/// The whole prefix of a numbered line: padding, digits, and a tab.
pub fn number_field(line_number: u64) -> (r: Vec<u8>)
    ensures
        r@ == spec_number_field(line_number as nat),
{
    let mut r = numbering_prefix(line_number);
    let mut d = decimal_digits(line_number);
    r.append(&mut d);
    r.push(9);
    proof {
        assert(r@ =~= spec_number_field(line_number as nat));
    }
    r
}

} // verus!
