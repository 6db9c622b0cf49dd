use vstd::prelude::*;

verus! {

/// A stable identity token for the principal behind a call. Resolving a real
/// principal to its token is the identity provider's job, outside this crate;
/// the ledgers only compare tokens for equality.
pub type AccountId = u64;

} // verus!
