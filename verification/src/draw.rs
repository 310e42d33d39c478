//! Random numbers.

use vstd::prelude::*;

verus! {

/// Whether `n` came of a draw of a 16-bit number.
pub closed spec fn is_drawn_u16(n: u16) -> bool {
    call_ensures(random_u16, (), n)
}

/// Whether `n` came of a draw of a 32-bit number.
pub closed spec fn is_drawn_u32(n: u32) -> bool {
    call_ensures(random_u32, (), n)
}

/// Draws a number with `random` of rand's thread generator. Any value may come,
/// so nothing is claimed of it.
#[verifier::external_body]
fn random_u16() -> u16 {
    rand::Rng::random::<u16>(&mut rand::rng())
}

/// Draws a number with `random` of rand's thread generator. Any value may come,
/// so nothing is claimed of it.
#[verifier::external_body]
fn random_u32() -> u32 {
    rand::Rng::random::<u32>(&mut rand::rng())
}

/// Draws a 16-bit number.
pub(crate) fn draw_u16() -> (r: u16)
    ensures
        is_drawn_u16(r),
{
    random_u16()
}

/// Draws a 32-bit number.
pub(crate) fn draw_u32() -> (r: u32)
    ensures
        is_drawn_u32(r),
{
    random_u32()
}

} // verus!
