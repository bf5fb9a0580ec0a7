//! Remapping of CCI land-cover class codes to USGS land-use codes.
//!
//! The table is fixed and total over exactly 38 input codes; any other byte
//! is a data-corruption condition and is rejected rather than defaulted.

use vstd::prelude::*;

use crate::Error;

verus! {

/// The fixed CCI-to-USGS class table: `Some(usgs)` for each of the 38 known
/// CCI codes, `None` for every other byte.
pub open spec fn usgs_code(c: u8) -> Option<u8> {
    match c {
        0 => Some(0),
        10 => Some(102),
        11 => Some(102),
        12 => Some(115),
        20 => Some(103),
        30 => Some(106),
        40 => Some(106),
        50 => Some(113),
        60 => Some(111),
        61 => Some(111),
        62 => Some(111),
        70 => Some(114),
        71 => Some(114),
        72 => Some(114),
        80 => Some(112),
        81 => Some(112),
        82 => Some(112),
        90 => Some(115),
        100 => Some(109),
        110 => Some(109),
        120 => Some(108),
        121 => Some(108),
        122 => Some(108),
        130 => Some(107),
        140 => Some(123),
        150 => Some(119),
        151 => Some(119),
        152 => Some(119),
        153 => Some(119),
        160 => Some(118),
        170 => Some(118),
        180 => Some(117),
        190 => Some(101),
        200 => Some(119),
        201 => Some(119),
        202 => Some(119),
        210 => Some(116),
        220 => Some(124),
        _ => None,
    }
}

/// Whether `c` is one of the 38 CCI codes the table covers.
pub open spec fn code_known(c: u8) -> bool {
    usgs_code(c) is Some
}

/// Maps one CCI class code to its USGS code, or reports the unknown code.
///
/// Defined for exactly the codes of the fixed table; every other byte value
/// is an `UnknownClassCode` error.
pub fn cci_to_usgs(x: u8) -> (r: Result<u8, Error>)
    ensures
        r == (if code_known(x) {
            Ok::<u8, Error>(usgs_code(x).unwrap())
        } else {
            Err::<u8, Error>(Error::UnknownClassCode(x))
        }),
{
    match x {
        0 => Ok(0),
        10 => Ok(102),
        11 => Ok(102),
        12 => Ok(115),
        20 => Ok(103),
        30 => Ok(106),
        40 => Ok(106),
        50 => Ok(113),
        60 => Ok(111),
        61 => Ok(111),
        62 => Ok(111),
        70 => Ok(114),
        71 => Ok(114),
        72 => Ok(114),
        80 => Ok(112),
        81 => Ok(112),
        82 => Ok(112),
        90 => Ok(115),
        100 => Ok(109),
        110 => Ok(109),
        120 => Ok(108),
        121 => Ok(108),
        122 => Ok(108),
        130 => Ok(107),
        140 => Ok(123),
        150 => Ok(119),
        151 => Ok(119),
        152 => Ok(119),
        153 => Ok(119),
        160 => Ok(118),
        170 => Ok(118),
        180 => Ok(117),
        190 => Ok(101),
        200 => Ok(119),
        201 => Ok(119),
        202 => Ok(119),
        210 => Ok(116),
        220 => Ok(124),
        _ => Err(Error::UnknownClassCode(x)),
    }
}

/// Rewrites every cell of a raster buffer from CCI to USGS codes, in place.
///
/// Succeeds exactly when every byte is a known CCI code; on the first
/// unknown code it fails with that code and leaves the buffer unchanged.
pub fn convert_classes(data: &mut Vec<u8>) -> (r: Result<(), Error>)
    ensures
        r is Ok <==> (forall|i: int| 0 <= i < old(data)@.len() ==> code_known(old(data)@[i])),
        r is Ok ==> final(data)@ == old(data)@.map_values(|c: u8| usgs_code(c).unwrap()),
        r is Err ==> final(data)@ == old(data)@,
        r matches Err(e) ==> exists|i: int|
            0 <= i < old(data)@.len() && !code_known(old(data)@[i]) && e
                == Error::UnknownClassCode(old(data)@[i]) && (forall|j: int|
                0 <= j < i ==> code_known(old(data)@[j])),
{
    let n = data.len();
    let mut i: usize = 0;
    while i < n
        invariant
            n == data@.len(),
            data@ == old(data)@,
            i <= n,
            forall|j: int| 0 <= j < i ==> code_known(data@[j]),
        decreases n - i,
    {
        let c = data[i];
        match cci_to_usgs(c) {
            Ok(_) => {},
            Err(e) => {
                return Err(e);
            },
        }
        i = i + 1;
    }
    let mut i: usize = 0;
    while i < n
        invariant
            n == data@.len(),
            i <= n,
            forall|j: int| 0 <= j < n ==> code_known(old(data)@[j]),
            forall|j: int| i <= j < n ==> data@[j] == old(data)@[j],
            forall|j: int| 0 <= j < i ==> data@[j] == usgs_code(old(data)@[j]).unwrap(),
        decreases n - i,
    {
        let c = data[i];
        match cci_to_usgs(c) {
            Ok(u) => {
                data[i] = u;
            },
            Err(_) => {
                proof {
                    assert(code_known(old(data)@[i as int]));
                }
            },
        }
        i = i + 1;
    }
    proof {
        assert(data@ =~= old(data)@.map_values(|c: u8| usgs_code(c).unwrap()));
    }
    Ok(())
}

} // verus!
