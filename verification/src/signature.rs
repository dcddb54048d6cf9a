//! The decision on a verified detached signature of a release's checksum list.
use vstd::prelude::*;

verus! {

/// Why a signature was not accepted.
#[derive(Debug, Clone, Copy, PartialEq, Eq, Structural)]
pub enum SignatureError {
    /// No signature in any signature group checked out against the trusted key.
    NoValidSignature,
}

/// Some signature of some signature group verified.
pub open spec fn any_valid(groups: Seq<Seq<bool>>) -> bool {
    exists|g: int, k: int| 0 <= g < groups.len() && 0 <= k < groups[g].len() && #[trigger] groups[g][k]
}

/// Accepts the message when some signature group holds a signature that
/// verified with the trusted key. `groups` holds, for each signature group
/// of the message, whether each of its signatures verified.
pub fn check_signature_groups(groups: &Vec<Vec<bool>>) -> (r: Result<(), SignatureError>)
    ensures
        r is Ok <==> any_valid(groups.deep_view()),
        r is Err ==> r == Err::<(), SignatureError>(SignatureError::NoValidSignature),
{
    let ghost gs = groups.deep_view();
    let mut g: usize = 0;
    while g < groups.len()
        invariant
            g <= groups@.len(),
            gs == groups.deep_view(),
            forall|a: int, k: int| 0 <= a < g && 0 <= k < gs[a].len() ==> !#[trigger] gs[a][k],
        decreases groups@.len() - g,
    {
        let results = &groups[g];
        assert(results@ =~= gs[g as int]);
        let mut k: usize = 0;
        while k < results.len()
            invariant
                g < groups@.len(),
                gs == groups.deep_view(),
                gs.len() == groups@.len(),
                k <= results@.len(),
                results@ == gs[g as int],
                forall|j: int| 0 <= j < k ==> !#[trigger] results@[j],
            decreases results@.len() - k,
        {
            if results[k] {
                assert(0 <= g < gs.len() && 0 <= k < gs[g as int].len() && gs[g as int][k as int]);
                return Ok(());
            }
            k += 1;
        }
        g += 1;
    }
    Err(SignatureError::NoValidSignature)
}

/// A message is accepted exactly when at least one signature, at any
/// position of any group, verified: one valid signature anywhere suffices,
/// and with none the message is refused.
pub proof fn lemma_any_valid_iff_some_signature(groups: Seq<Seq<bool>>)
    ensures
        forall|g: int, k: int|
            0 <= g < groups.len() && 0 <= k < groups[g].len() && #[trigger] groups[g][k]
                ==> any_valid(groups),
        (forall|g: int, k: int|
            0 <= g < groups.len() && 0 <= k < groups[g].len() ==> !#[trigger] groups[g][k])
            ==> !any_valid(groups),
{
}

} // verus!
