//! The random generator that places the mines.
//!
//! Nothing in this file is proved: it states what the board's code relies
//! on from the `nanorand` crate.

use vstd::prelude::*;

verus! {

/// The handle on a thread's generator that `nanorand::tls_rng` returns.
#[verifier::external_type_specification]
#[verifier::external_body]
pub struct ExTlsWyRand(nanorand::tls::TlsWyRand);

/// `nanorand::tls_rng` hands out the calling thread's generator. Nothing is
/// claimed of the numbers it will give.
pub assume_specification[ nanorand::tls_rng ]() -> (rng: nanorand::tls::TlsWyRand);

/// `nanorand::Rng::shuffle` walks the slice once and swaps each element with
/// one at a position that the generator picks inside the slice. Whatever
/// the generator picks, the buffer afterwards holds the same bytes as
/// before, each as often as before, in some order.
#[verifier::external_body]
pub(crate) fn shuffle_cells(rng: &mut nanorand::tls::TlsWyRand, cells: &mut Vec<i8>)
    ensures
        final(cells)@.len() == old(cells)@.len(),
        final(cells)@.to_multiset() == old(cells)@.to_multiset(),
{
    nanorand::Rng::shuffle(rng, cells);
}

} // verus!
