//! Hemisphere split: dividing each full-globe raster row into its west and
//! east column halves. The caller streams the raster row by row and writes
//! each pair of halves to the two output files, so peak memory stays bounded
//! by one row.

use vstd::prelude::*;

use crate::Error;

verus! {

/// Splits one full-globe row into its west half (the first `len / 2`
/// columns) and its east half (the rest).
///
/// Fails exactly when the row's length is odd.
pub fn split_row(row: &Vec<u8>) -> (r: Result<(Vec<u8>, Vec<u8>), Error>)
    ensures
        r is Ok <==> row@.len() % 2 == 0,
        r is Err ==> r == Err::<(Vec<u8>, Vec<u8>), Error>(Error::NonDivisibleDimensions),
        r matches Ok(halves) ==> halves.0@ == row@.subrange(0, row@.len() as int / 2)
            && halves.1@ == row@.subrange(row@.len() as int / 2, row@.len() as int),
{
    let n = row.len();
    if n % 2 != 0 {
        return Err(Error::NonDivisibleDimensions);
    }
    let half = n / 2;
    let mut west: Vec<u8> = Vec::new();
    let mut i: usize = 0;
    while i < half
        invariant
            half == n / 2,
            n == row@.len(),
            i <= half,
            west@.len() == i,
            forall|k: int| 0 <= k < i ==> west@[k] == row@[k],
        decreases half - i,
    {
        let b = row[i];
        west.push(b);
        i = i + 1;
    }
    let mut east: Vec<u8> = Vec::new();
    while i < n
        invariant
            half == n / 2,
            half <= n,
            n == row@.len(),
            half <= i <= n,
            west@.len() == half,
            forall|k: int| 0 <= k < half ==> west@[k] == row@[k],
            east@.len() == i - half,
            forall|k: int| half <= k < i ==> east@[k - half] == row@[k],
        decreases n - i,
    {
        let b = row[i];
        east.push(b);
        i = i + 1;
    }
    proof {
        assert(west@ =~= row@.subrange(0, row@.len() as int / 2));
        assert(east@ =~= row@.subrange(row@.len() as int / 2, row@.len() as int));
    }
    Ok((west, east))
}

/// Law: concatenating the west and east halves of a row of even length
/// reconstructs the row byte for byte.
pub proof fn lemma_split_concat(row: Seq<u8>)
    requires
        row.len() % 2 == 0,
    ensures
        row.subrange(0, row.len() as int / 2) + row.subrange(
            row.len() as int / 2,
            row.len() as int,
        ) == row,
{
    assert(row.subrange(0, row.len() as int / 2) + row.subrange(
        row.len() as int / 2,
        row.len() as int,
    ) =~= row);
}

} // verus!
