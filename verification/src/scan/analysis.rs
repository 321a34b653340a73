//! Bookkeeping of the analysis stage of a scan: which content hash keys a
//! file's thumbnail, which hash is newly stored, and how outcomes count.
use vstd::prelude::*;

verus! {

/// The content hash analysis works with, given the stored one and the one
/// read from disk (`None` when the file could not be read): the stored hash
/// when there is one, else the hash just read, which is then also stored.
/// `None` when there is neither; the file stays pending for the next scan.
pub fn analysis_hash(stored: Option<[u8; 32]>, read: Option<[u8; 32]>) -> (r: Option<([u8; 32], Option<[u8; 32]>)>)
    ensures
        stored matches Some(h) ==> r == Some((h, None::<[u8; 32]>)),
        stored is None ==> r == match read {
            Some(h) => Some((h, Some(h))),
            None => None::<([u8; 32], Option<[u8; 32]>)>,
        },
{
    match stored {
        Some(h) => Some((h, None)),
        None => match read {
            Some(h) => Some((h, Some(h))),
            None => None,
        },
    }
}

/// Among the first `n` outcomes (`None`: unreadable; `Some(soft)`: row
/// written, `soft` when part of the analysis failed), the rows written.
pub open spec fn analyzed_count(outcomes: Seq<Option<bool>>, n: int) -> nat
    decreases n,
{
    if n <= 0 {
        0
    } else {
        analyzed_count(outcomes, n - 1) + if outcomes[n - 1] is Some { 1nat } else { 0nat }
    }
}

/// Among the first `n` outcomes, the errors: unreadable files and soft
/// failures alike.
pub open spec fn analysis_errors(outcomes: Seq<Option<bool>>, n: int) -> nat
    decreases n,
{
    if n <= 0 {
        0
    } else {
        analysis_errors(outcomes, n - 1) + match outcomes[n - 1] {
            None => 1nat,
            Some(soft) => if soft { 1nat } else { 0nat },
        }
    }
}

/// Counts a batch of analysis outcomes: the rows written and the errors.
pub fn tally_analysis(outcomes: &[Option<bool>]) -> (r: (u64, u64))
    ensures
        r.0 == analyzed_count(outcomes@, outcomes@.len() as int),
        r.1 == analysis_errors(outcomes@, outcomes@.len() as int),
{
    let mut analyzed: u64 = 0;
    let mut errors: u64 = 0;
    let mut i: usize = 0;
    while i < outcomes.len()
        invariant
            i <= outcomes@.len(),
            analyzed == analyzed_count(outcomes@, i as int),
            errors == analysis_errors(outcomes@, i as int),
            analyzed <= i,
            errors <= i,
        decreases outcomes@.len() - i,
    {
        match outcomes[i] {
            None => {
                errors = errors + 1;
            },
            Some(soft) => {
                analyzed = analyzed + 1;
                if soft {
                    errors = errors + 1;
                }
            },
        }
        i += 1;
    }
    (analyzed, errors)
}

} // verus!
