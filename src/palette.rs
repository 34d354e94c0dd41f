//! Mapping of an iteration count to a grayscale RGB colour.
use vstd::prelude::*;

verus! {

/// The cap on the number of escape steps; a point that reaches it is taken
/// to lie inside the set.
pub const MAX_ITERATIONS: usize = 100;

/// The grey level of a count: white for a point inside the set, otherwise
/// the count wrapped modulo 255.
pub open spec fn shade_of(iter: usize) -> u8 {
    if iter == MAX_ITERATIONS {
        255u8
    } else {
        (iter % 255) as u8
    }
}

/// The colour of a count: its shade on all three channels.
pub open spec fn colour_of(iter: usize) -> Seq<u8> {
    seq![shade_of(iter), shade_of(iter), shade_of(iter)]
}

/// The RGB channels of the pixel that shows a point which took `iter` steps.
pub fn get_colour(iter: usize) -> (r: [u8; 3])
    ensures
        r@ == colour_of(iter),
        iter == MAX_ITERATIONS ==> r@ == seq![255u8, 255u8, 255u8],
        iter < MAX_ITERATIONS ==> r@ == seq![(iter % 255) as u8, (iter % 255) as u8, (iter % 255) as u8],
{
    if iter == MAX_ITERATIONS {
        return [255, 255, 255];
    }
    let colour: u8 = (iter % 255) as u8;
    [colour, colour, colour]
}

} // verus!
