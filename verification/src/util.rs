//! Small utilities around formatting results.

use vstd::prelude::*;

verus! {

/// The opaque error of the standard formatting machinery, declared so
/// that results carrying it can pass through verified code.
#[verifier::external_type_specification]
#[verifier::external_body]
pub struct ExFmtError(core::fmt::Error);

/// Folds a sequence of formatting results into one: the error of the
/// last failed entry, where the sequence ends in one, else success. Each
/// step of the fold looks only at its element, so only the last entry
/// decides.
pub fn fold_results(results: Vec<core::fmt::Result>) -> (r: core::fmt::Result)
    ensures
        results@.len() == 0 ==> r == Ok::<(), core::fmt::Error>(()),
        results@.len() > 0 ==> r == (match results@.last() {
            Err(e) => Err::<(), core::fmt::Error>(e),
            Ok(_) => Ok::<(), core::fmt::Error>(()),
        }),
{
    let mut r: core::fmt::Result = Ok(());
    let mut i: usize = 0;
    while i < results.len()
        invariant
            i <= results@.len(),
            i == 0 ==> r == Ok::<(), core::fmt::Error>(()),
            i > 0 ==> r == (match results@[i - 1] {
                Err(e) => Err::<(), core::fmt::Error>(e),
                Ok(_) => Ok::<(), core::fmt::Error>(()),
            }),
        decreases results@.len() - i,
    {
        r = match &results[i] {
            Err(x) => Err(*x),
            _ => Ok(()),
        };
        i += 1;
    }
    r
}

} // verus!
