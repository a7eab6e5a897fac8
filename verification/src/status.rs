//! The terminal statuses a worker reports for one request.

use vstd::prelude::*;

verus! {

/// The status of a fetch that produced and stored a fresh artifact.
pub open spec fn status_success() -> Seq<char> {
    "success"@
}

/// The status of a lyrics lookup the provider answered as absent.
pub open spec fn status_not_found() -> Seq<char> {
    "not_found"@
}

/// The status of a request that failed; the result carries a message.
pub open spec fn status_error() -> Seq<char> {
    "error"@
}

/// The status of a request whose key the store already held.
pub open spec fn status_already_cached() -> Seq<char> {
    "already_cached"@
}

/// The four statuses are pairwise distinct.
pub proof fn lemma_status_distinct()
    ensures
        status_success() != status_error(),
        status_success() != status_not_found(),
        status_success() != status_already_cached(),
        status_error() != status_not_found(),
        status_error() != status_already_cached(),
        status_not_found() != status_already_cached(),
{
    reveal_strlit("success");
    reveal_strlit("not_found");
    reveal_strlit("error");
    reveal_strlit("already_cached");
    assert("success"@.len() == 7);
    assert("not_found"@.len() == 9);
    assert("error"@.len() == 5);
    assert("already_cached"@.len() == 14);
}

/// The text of the success status.
pub fn status_success_str() -> (r: &'static str)
    ensures
        r@ == status_success(),
{
    "success"
}

/// The text of the not-found status.
pub fn status_not_found_str() -> (r: &'static str)
    ensures
        r@ == status_not_found(),
{
    "not_found"
}

/// The text of the error status.
pub fn status_error_str() -> (r: &'static str)
    ensures
        r@ == status_error(),
{
    "error"
}

/// The text of the already-cached status.
pub fn status_already_cached_str() -> (r: &'static str)
    ensures
        r@ == status_already_cached(),
{
    "already_cached"
}

} // verus!
