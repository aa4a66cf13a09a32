//! The built-in fallback bank.
//!
//! A minimal single-instrument soundbank, embedded byte-for-byte: one
//! looped single-cycle sine-like wave at MIDI key sixty, exposed as bank
//! zero, program zero under the name `Sine Wave`. It is registered
//! automatically at construction so a fresh player makes sound with no
//! setup.

use vstd::prelude::*;

verus! {

/// The embedded bytes of the built-in bank: a RIFF soundbank form holding
/// four cycles of a thirty-two-point sine-like wave with its trailing
/// quiet points, one looped instrument, and one preset at bank zero,
/// program zero.
pub const DEFAULT_BANK_DATA: [u8; 790] = [
    82, 73, 70, 70, 14, 3, 0, 0, 115, 102, 98, 107, 76, 73, 83, 84,
    50, 0, 0, 0, 73, 78, 70, 79, 105, 102, 105, 108, 4, 0, 0, 0,
    2, 0, 0, 0, 105, 115, 110, 103, 8, 0, 0, 0, 69, 77, 85, 56,
    48, 48, 48, 0, 73, 78, 65, 77, 10, 0, 0, 0, 83, 105, 110, 101,
    32, 66, 97, 110, 107, 0, 76, 73, 83, 84, 104, 1, 0, 0, 115, 100,
    116, 97, 115, 109, 112, 108, 92, 1, 0, 0, 0, 0, 37, 9, 240, 17,
    11, 26, 37, 33, 250, 38, 79, 43, 249, 45, 224, 46, 249, 45, 79, 43,
    250, 38, 37, 33, 11, 26, 240, 17, 37, 9, 0, 0, 219, 246, 16, 238,
    245, 229, 219, 222, 6, 217, 177, 212, 7, 210, 32, 209, 7, 210, 177, 212,
    6, 217, 219, 222, 245, 229, 16, 238, 219, 246, 0, 0, 37, 9, 240, 17,
    11, 26, 37, 33, 250, 38, 79, 43, 249, 45, 224, 46, 249, 45, 79, 43,
    250, 38, 37, 33, 11, 26, 240, 17, 37, 9, 0, 0, 219, 246, 16, 238,
    245, 229, 219, 222, 6, 217, 177, 212, 7, 210, 32, 209, 7, 210, 177, 212,
    6, 217, 219, 222, 245, 229, 16, 238, 219, 246, 0, 0, 37, 9, 240, 17,
    11, 26, 37, 33, 250, 38, 79, 43, 249, 45, 224, 46, 249, 45, 79, 43,
    250, 38, 37, 33, 11, 26, 240, 17, 37, 9, 0, 0, 219, 246, 16, 238,
    245, 229, 219, 222, 6, 217, 177, 212, 7, 210, 32, 209, 7, 210, 177, 212,
    6, 217, 219, 222, 245, 229, 16, 238, 219, 246, 0, 0, 37, 9, 240, 17,
    11, 26, 37, 33, 250, 38, 79, 43, 249, 45, 224, 46, 249, 45, 79, 43,
    250, 38, 37, 33, 11, 26, 240, 17, 37, 9, 0, 0, 219, 246, 16, 238,
    245, 229, 219, 222, 6, 217, 177, 212, 7, 210, 32, 209, 7, 210, 177, 212,
    6, 217, 219, 222, 245, 229, 16, 238, 219, 246, 0, 0, 0, 0, 0, 0,
    0, 0, 0, 0, 0, 0, 0, 0, 0, 0, 0, 0, 0, 0, 0, 0,
    0, 0, 0, 0, 0, 0, 0, 0, 0, 0, 0, 0, 0, 0, 0, 0,
    0, 0, 0, 0, 0, 0, 0, 0, 0, 0, 0, 0, 0, 0, 0, 0,
    0, 0, 0, 0, 0, 0, 0, 0, 0, 0, 0, 0, 0, 0, 0, 0,
    0, 0, 0, 0, 0, 0, 0, 0, 0, 0, 0, 0, 0, 0, 0, 0,
    0, 0, 0, 0, 0, 0, 76, 73, 83, 84, 88, 1, 0, 0, 112, 100,
    116, 97, 112, 104, 100, 114, 76, 0, 0, 0, 83, 105, 110, 101, 32, 87,
    97, 118, 101, 0, 0, 0, 0, 0, 0, 0, 0, 0, 0, 0, 0, 0,
    0, 0, 0, 0, 0, 0, 0, 0, 0, 0, 0, 0, 0, 0, 0, 0,
    69, 79, 80, 0, 0, 0, 0, 0, 0, 0, 0, 0, 0, 0, 0, 0,
    0, 0, 0, 0, 0, 0, 0, 0, 1, 0, 0, 0, 0, 0, 0, 0,
    0, 0, 0, 0, 0, 0, 112, 98, 97, 103, 8, 0, 0, 0, 0, 0,
    0, 0, 1, 0, 0, 0, 112, 109, 111, 100, 10, 0, 0, 0, 0, 0,
    0, 0, 0, 0, 0, 0, 0, 0, 112, 103, 101, 110, 8, 0, 0, 0,
    41, 0, 0, 0, 0, 0, 0, 0, 105, 110, 115, 116, 44, 0, 0, 0,
    83, 105, 110, 101, 32, 73, 110, 115, 116, 0, 0, 0, 0, 0, 0, 0,
    0, 0, 0, 0, 0, 0, 69, 79, 83, 0, 0, 0, 0, 0, 0, 0,
    0, 0, 0, 0, 0, 0, 0, 0, 0, 0, 2, 0, 105, 98, 97, 103,
    8, 0, 0, 0, 0, 0, 0, 0, 2, 0, 0, 0, 105, 109, 111, 100,
    10, 0, 0, 0, 0, 0, 0, 0, 0, 0, 0, 0, 0, 0, 105, 103,
    101, 110, 12, 0, 0, 0, 54, 0, 1, 0, 53, 0, 0, 0, 0, 0,
    0, 0, 115, 104, 100, 114, 92, 0, 0, 0, 115, 105, 110, 101, 0, 0,
    0, 0, 0, 0, 0, 0, 0, 0, 0, 0, 0, 0, 0, 0, 0, 0,
    0, 0, 128, 0, 0, 0, 32, 0, 0, 0, 96, 0, 0, 0, 68, 172,
    0, 0, 60, 0, 0, 0, 1, 0, 69, 79, 83, 0, 0, 0, 0, 0,
    0, 0, 0, 0, 0, 0, 0, 0, 0, 0, 0, 0, 0, 0, 0, 0,
    0, 0, 0, 0, 0, 0, 0, 0, 0, 0, 0, 0, 0, 0, 0, 0,
    0, 0, 0, 0, 0, 0,
];

/// The byte sequence of the built-in bank, for contracts.
pub open spec fn default_bank_seq() -> Seq<u8> {
    DEFAULT_BANK_DATA@
}

/// The bytes of the built-in bank.
pub fn default_bank_bytes() -> (r: Vec<u8>)
    ensures
        r@ == default_bank_seq(),
{
    let mut v: Vec<u8> = Vec::new();
    let mut i: usize = 0;
    while i < 790
        invariant
            i <= 790,
            v@ == DEFAULT_BANK_DATA@.subrange(0, i as int),
        decreases 790 - i,
    {
        v.push(DEFAULT_BANK_DATA[i]);
        proof {
            assert(v@ =~= DEFAULT_BANK_DATA@.subrange(0, i as int + 1));
        }
        i = i + 1;
    }
    proof {
        assert(v@ =~= DEFAULT_BANK_DATA@);
    }
    v
}

} // verus!
