//! The extension filter of the path enumerator: which file extensions,
//! compared case-insensitively, name images the browser accepts. The
//! enumerator itself walks the filesystem outside the core and hands each
//! extension here as bytes.

use vstd::prelude::*;
use vstd::assert_seqs_equal;

verus! {

/// ASCII lowercase of one byte; other bytes are left alone.
pub open spec fn spec_lower_byte(b: u8) -> u8 {
    if 65 <= b <= 90 {
        (b + 32) as u8
    } else {
        b
    }
}

/// The fixed allow-list, after lowercasing: "jpg", "jpeg", "png", "gif", "bmp".
pub open spec fn spec_is_image_extension(ext: Seq<u8>) -> bool {
    ||| ext.map_values(|b: u8| spec_lower_byte(b)) == seq![106u8, 112u8, 103u8]
    ||| ext.map_values(|b: u8| spec_lower_byte(b)) == seq![106u8, 112u8, 101u8, 103u8]
    ||| ext.map_values(|b: u8| spec_lower_byte(b)) == seq![112u8, 110u8, 103u8]
    ||| ext.map_values(|b: u8| spec_lower_byte(b)) == seq![103u8, 105u8, 102u8]
    ||| ext.map_values(|b: u8| spec_lower_byte(b)) == seq![98u8, 109u8, 112u8]
}

fn lower_byte(b: u8) -> (r: u8)
    ensures
        r == spec_lower_byte(b),
{
    if 65 <= b && b <= 90 {
        b + 32
    } else {
        b
    }
}

/// Whether the bytes, lowercased, equal the pattern.
fn lowered_eq(ext: &[u8], pat: &Vec<u8>) -> (r: bool)
    ensures
        r == (ext@.map_values(|b: u8| spec_lower_byte(b)) == pat@),
{
    if ext.len() != pat.len() {
        proof {
            assert(ext@.map_values(|b: u8| spec_lower_byte(b)).len() == ext@.len());
        }
        return false;
    }
    let mut i: usize = 0;
    while i < ext.len()
        invariant
            0 <= i <= ext@.len(),
            ext@.len() == pat@.len(),
            forall|j: int| 0 <= j < i ==> spec_lower_byte(ext@[j]) == pat@[j],
        decreases ext@.len() - i,
    {
        if lower_byte(ext[i]) != pat[i] {
            proof {
                assert(ext@.map_values(|b: u8| spec_lower_byte(b))[i as int] != pat@[i as int]);
            }
            return false;
        }
        i += 1;
    }
    proof {
        assert_seqs_equal!(ext@.map_values(|b: u8| spec_lower_byte(b)) == pat@);
    }
    true
}

/// Whether a file extension, taken case-insensitively, is on the allow-list
/// of recognized image formats.
pub fn is_image_extension(ext: &[u8]) -> (r: bool)
    ensures
        r == spec_is_image_extension(ext@),
{
    let jpg: Vec<u8> = vec![106, 112, 103];
    let jpeg: Vec<u8> = vec![106, 112, 101, 103];
    let png: Vec<u8> = vec![112, 110, 103];
    let gif: Vec<u8> = vec![103, 105, 102];
    let bmp: Vec<u8> = vec![98, 109, 112];
    let r = lowered_eq(ext, &jpg) || lowered_eq(ext, &jpeg) || lowered_eq(ext, &png)
        || lowered_eq(ext, &gif) || lowered_eq(ext, &bmp);
    r
}

} // verus!
