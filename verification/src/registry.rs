//! The registry of running jobs: a concurrent map from the job's identifier
//! to the handle through which its run is cancelled.

use dashmap::DashMap;
use tokio_util::sync::CancellationToken;
use vstd::prelude::*;

verus! {

/// Declares `tokio_util::sync::CancellationToken`, the handle through which
/// a run is asked to stop, as a type of which nothing is known.
#[verifier::external_type_specification]
#[verifier::external_body]
pub struct ExCancellationToken(CancellationToken);

/// Declares `dashmap::DashMap`, the concurrent map, as a type of which
/// nothing is known but what the functions below say.
#[verifier::external_type_specification]
#[verifier::external_body]
#[verifier::reject_recursive_types(K)]
#[verifier::reject_recursive_types(V)]
#[verifier::reject_recursive_types(S)]
pub struct ExDashMap<K, V, S>(DashMap<K, V, S>);

/// The identifiers under which `map` holds a handle.
pub uninterp spec fn registered(map: DashMap<String, CancellationToken>) -> Set<Seq<char>>;

/// Calls `DashMap::new`: a map that holds nothing.
#[verifier::external_body]
pub(crate) fn registry_new() -> (map: DashMap<String, CancellationToken>)
    ensures
        registered(map) == Set::<Seq<char>>::empty(),
{
    DashMap::new()
}

/// Calls `DashMap::insert`: afterwards the map holds a handle under `id`,
/// in place of the one it held there before, if any, and what it holds under
/// other identifiers is as before.
#[verifier::external_body]
pub(crate) fn registry_insert(
    map: &mut DashMap<String, CancellationToken>,
    id: String,
    token: CancellationToken,
)
    ensures
        registered(*final(map)) == registered(*old(map)).insert(id@),
{
    map.insert(id, token);
}

/// Calls `DashMap::remove`: afterwards the map holds nothing under `id`, and
/// what it holds under other identifiers is as before.
#[verifier::external_body]
pub(crate) fn registry_remove(map: &mut DashMap<String, CancellationToken>, id: &str)
    ensures
        registered(*final(map)) == registered(*old(map)).remove(id@),
{
    map.remove(id);
}

/// Calls `DashMap::get` and clones the handle found, with `Ref::value` and
/// `CancellationToken::clone`: there is one exactly if the map holds one
/// under `id`.
#[verifier::external_body]
pub(crate) fn registry_token(map: &DashMap<String, CancellationToken>, id: &str) -> (token: Option<
    CancellationToken,
>)
    ensures
        token is Some <==> registered(*map).contains(id@),
{
    map.get(id).map(|entry| entry.value().clone())
}

/// Calls `DashMap::len`: the number of identifiers under which the map holds a handle.
#[verifier::external_body]
pub(crate) fn registry_len(map: &DashMap<String, CancellationToken>) -> (count: usize)
    ensures
        count == registered(*map).len(),
{
    map.len()
}

/// Calls `CancellationToken::new`: a handle through which nothing was asked yet.
#[verifier::external_body]
pub(crate) fn new_token() -> (token: CancellationToken) {
    CancellationToken::new()
}

/// Calls `CancellationToken::clone`: a second handle for the same run.
#[verifier::external_body]
pub(crate) fn share_token(token: &CancellationToken) -> (shared: CancellationToken) {
    token.clone()
}

/// Calls `CancellationToken::cancel`: asks the run that holds a clone of the
/// handle to stop. Nothing here says whether or when it does.
#[verifier::external_body]
pub(crate) fn cancel_token(token: &CancellationToken) {
    token.cancel();
}

} // verus!
