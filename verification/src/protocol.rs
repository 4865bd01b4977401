//! Request dispatch and response filtering over the broadcast topic.
//!
//! The broadcast channel delivers every payload to every subscriber;
//! point-to-point semantics are realized by filtering.  A request in mode
//! `All` is always answered; one in mode `One(target)` only by the peer
//! whose identity is `target`.  A response is only consumed by the peer
//! named in its `receiver` field; every other peer drops it.

use vstd::prelude::*;

use crate::store::public_subset;
use crate::types::ListMode;
use crate::types::ListModeView;
use crate::types::ListRequest;
use crate::types::ListRequestView;
use crate::types::ListResponse;
use crate::types::Recipe;

verus! {

/// Does a request in this mode oblige the peer `local` to answer?
pub open spec fn spec_should_respond(q: ListRequestView, local: Seq<char>) -> bool {
    match q.mode {
        ListModeView::All => true,
        ListModeView::One(target) => target == local,
    }
}

/// Whether this peer must answer `req`: always for `All`, and for
/// `One(target)` exactly when `target` is this peer's identity.
pub fn should_respond(req: &ListRequest, local_id: &String) -> (b: bool)
    ensures
        b == spec_should_respond(req@, local_id@),
{
    match &req.mode {
        ListMode::All => true,
        ListMode::One(target) => target.eq(local_id),
    }
}

/// The reply to a list request: the public subset of the local
/// collection, in mode `All`, addressed to `receiver`.
pub fn build_response(recipes: &Vec<Recipe>, receiver: &String) -> (r: ListResponse)
    ensures
        r.mode is All,
        r.data@ == recipes@.filter(|x: Recipe| x.public),
        forall|k: int| 0 <= k < r.data@.len() ==> (#[trigger] r.data@[k]).public,
        r.receiver == *receiver,
{
    ListResponse {
        mode: ListMode::All,
        data: public_subset(recipes),
        receiver: receiver.clone(),
    }
}

/// Whether a response on the shared topic is addressed to this peer; only
/// then is it consumed.
pub fn accept_response(resp: &ListResponse, local_id: &String) -> (b: bool)
    ensures
        b == (resp.receiver@ == local_id@),
{
    resp.receiver.eq(local_id)
}

} // verus!
