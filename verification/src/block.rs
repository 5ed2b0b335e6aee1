//! The header of an IEEE 488.2 definite-length binary block, `#NDDD...`:
//! after `#`, one digit `N` gives how many length digits follow, and those
//! digits give the number of data bytes.
use vstd::prelude::*;
use crate::endpoint::ascii_bytes;
use crate::text::{
    char_byte_roundtrip, decimal, is_digit, lemma_decimal_digits, lemma_decimal_reads_back, parse_unsigned, unsigned_value,
};

verus! {

/// Why a block header is rejected.
#[derive(Debug, Clone, Copy, PartialEq, Eq)]
pub enum BlockError {
    /// The digit count is 0 or more than 12.
    InvalidDigitCount(usize),
    /// The length digits do not read as a `usize`.
    InvalidLength,
}

/// The byte that opens a block.
pub const BLOCK_START: u8 = 35;

/// The most length digits a header may announce.
pub const MAX_LENGTH_DIGITS: usize = 12;

/// The bytes read as characters, one character per byte.
pub open spec fn byte_chars(s: Seq<u8>) -> Seq<char> {
    s.map_values(|b: u8| b as char)
}

/// The number of length digits that the digit-count byte `b` announces.
pub open spec fn digit_count(b: u8) -> int {
    b - 48
}

/// Reads the digit-count byte of a header.
pub fn block_digit_count(b: u8) -> (r: Result<usize, BlockError>)
    requires
        b >= 48,
    ensures
        1 <= digit_count(b) <= 12 ==> r == Ok::<usize, BlockError>(digit_count(b) as usize),
        !(1 <= digit_count(b) <= 12) ==> r == Err::<usize, BlockError>(
            BlockError::InvalidDigitCount(digit_count(b) as usize),
        ),
{
    let dc = (b - 48) as usize;
    if dc == 0 || dc > MAX_LENGTH_DIGITS {
        Err(BlockError::InvalidDigitCount(dc))
    } else {
        Ok(dc)
    }
}

/// A header written for `n` data bytes, with its length in decimal, reads
/// back: its digit count is accepted (when at most 12 digits) and its length
/// digits give `n`.
pub proof fn lemma_header_reads_back(n: nat)
    requires
        decimal(n).len() <= 12,
    ensures
        1 <= digit_count((48 + decimal(n).len()) as u8) <= 12,
        digit_count((48 + decimal(n).len()) as u8) == decimal(n).len(),
        unsigned_value(byte_chars(ascii_bytes(decimal(n)))) == Some(n),
{
    let d = decimal(n);
    lemma_decimal_digits(n);
    lemma_decimal_reads_back(n);
    assert forall|i: int| 0 <= i < d.len() implies (d[i] as u8) as char == d[i] by {
        char_byte_roundtrip(d[i]);
    }
    assert(byte_chars(ascii_bytes(d)) =~= d);
}

/// Reads the length digits of a header as `str::parse::<usize>` reads them:
/// an optional `+` then decimal digits, at most `usize::MAX`.
pub fn block_data_len(digits: &[u8]) -> (r: Result<usize, BlockError>)
    ensures
        match unsigned_value(byte_chars(digits@)) {
            Some(v) => if v <= usize::MAX {
                r == Ok::<usize, BlockError>(v as usize)
            } else {
                r == Err::<usize, BlockError>(BlockError::InvalidLength)
            },
            None => r == Err::<usize, BlockError>(BlockError::InvalidLength),
        },
{
    let mut cs: Vec<char> = Vec::new();
    let mut i: usize = 0;
    while i < digits.len()
        invariant
            i <= digits@.len(),
            cs@ == byte_chars(digits@.subrange(0, i as int)),
        decreases digits@.len() - i,
    {
        cs.push(digits[i] as char);
        i = i + 1;
        assert(cs@ =~= byte_chars(digits@.subrange(0, i as int)));
    }
    assert(digits@.subrange(0, i as int) =~= digits@);
    match parse_unsigned(&cs, usize::MAX as u64) {
        Some(v) => Ok(v as usize),
        None => Err(BlockError::InvalidLength),
    }
}

} // verus!
