//! The event loop's decisions.
//!
//! One cooperative loop merges four event sources — operator input,
//! locally queued outbound responses, discovery events, and broadcast
//! messages — into a single stream.  [`Node::handle_event`] turns each
//! event into the actions the surrounding loop must perform: publish a
//! payload, adjust the broadcast partial view, touch the store, or show
//! something to the operator.  The loop itself (the waiting, the I/O, the
//! spawning of background responders) lives outside; every decision is
//! made here.

use vstd::prelude::*;

use crate::codec::decode;
use crate::codec::encode_request;
use crate::codec::encode_response;
use crate::codec::request_json;
use crate::codec::response_json;
use crate::codec::spec_decode;
use crate::commands::parse_command;
use crate::commands::spec_parse_command;
use crate::commands::Command;
use crate::commands::CommandView;
use crate::overlay::contains_peer;
use crate::overlay::distinct_peers;
use crate::overlay::has_peer;
use crate::overlay::Overlay;
use crate::protocol::accept_response;
use crate::protocol::should_respond;
use crate::protocol::spec_should_respond;
use crate::types::Decoded;
use crate::types::DecodedView;
use crate::types::ListMode;
use crate::types::ListModeView;
use crate::types::ListRequest;
use crate::types::ListRequestView;
use crate::types::ListResponse;
use crate::types::UserInputError;

verus! {

/// One event drawn from the four merged sources.
pub enum AppEvent {
    /// One line of operator input.
    Input(String),
    /// A locally produced reply, queued by a background responder.
    Outbound(ListResponse),
    /// Discovery reported a peer at an address.
    Discovered { peer: String, address: String },
    /// Discovery expired a peer; `live` is the discovery service's
    /// current listing, queried at that moment.
    Expired { peer: String, address: String, live: Vec<String> },
    /// A payload arrived on the broadcast topic.
    Message { source: String, data: String },
}

/// What the surrounding loop must do for one event.
pub enum Action {
    /// Publish this payload on the broadcast topic.
    Broadcast(String),
    /// Add the peer to the broadcast channel's partial view.
    AddNeighbor(String),
    /// Remove the peer from the broadcast channel's partial view.
    RemoveNeighbor(String),
    /// Show these peer identities to the operator.
    ShowPeers(Vec<String>),
    /// Read the store and show the local collection to the operator.
    ShowLocalRecipes,
    /// Run the store's create flow with these fields.
    CreateRecipe { name: String, ingredients: String, instructions: String },
    /// Run the store's publish flow with this id.
    PublishRecipe(usize),
    /// Spawn a background responder: read the public subset and queue a
    /// response addressed to `receiver`.
    RespondPublic { receiver: String },
    /// Show a response addressed to this peer to the operator.
    ShowResponse(ListResponse),
    /// Report a malformed command to the operator.
    ReportInputError(UserInputError),
}

/// The application context: this peer's identity and its overlay
/// membership state, created once at startup.
pub struct Node {
    pub local_id: String,
    pub overlay: Overlay,
}

impl Node {
    pub open spec fn wf(&self) -> bool {
        self.overlay.wf()
    }

    /// A node with the given identity and an empty overlay.
    pub fn new(local_id: String) -> (r: Node)
        ensures
            r.wf(),
            r.local_id == local_id,
            forall|q: Seq<char>| !r.overlay.knows(q),
            forall|q: Seq<char>| !r.overlay.neighbor(q),
    {
        Node { local_id, overlay: Overlay::new() }
    }

    /// Dispatches one event, mutating only the overlay state and
    /// returning the actions the loop must perform:
    ///
    /// * operator input is interpreted per the command table, errors
    ///   included, and never touches the overlay;
    /// * a queued outbound response is encoded and broadcast;
    /// * discovery events reconcile the known set and the partial view,
    ///   removing a neighbor only when the live listing no longer
    ///   reports it;
    /// * broadcast payloads are decoded; a response is surfaced only if
    ///   addressed to this peer, a request is answered only if this peer
    ///   is obliged, and an unrecognized payload does nothing at all.
    pub fn handle_event(&mut self, event: AppEvent) -> (actions: Vec<Action>)
        requires
            old(self).wf(),
        ensures
            final(self).wf(),
            final(self).local_id == old(self).local_id,
            match event {
                AppEvent::Input(line) => final(self).overlay == old(self).overlay && match (
                spec_parse_command(line@)) {
                    Ok(CommandView::ListPeers) => actions@.len() == 1 && (actions@[0] matches
                        Action::ShowPeers(ps) && distinct_peers(ps@) && forall|q: Seq<char>|
                        has_peer(ps@, q) <==> old(self).overlay.knows(q)),
                    Ok(CommandView::ListLocal) => actions@.len() == 1 && actions@[0]
                        is ShowLocalRecipes,
                    Ok(CommandView::RequestAll) => actions@.len() == 1 && (actions@[0] matches
                        Action::Broadcast(p) && p@ == request_json(
                        ListRequestView { mode: ListModeView::All },
                    )),
                    Ok(CommandView::RequestOne(peer)) => actions@.len() == 1 && (actions@[0]
                        matches Action::Broadcast(p) && p@ == request_json(
                        ListRequestView { mode: ListModeView::One(peer) },
                    )),
                    Ok(CommandView::Create { name, ingredients, instructions }) => actions@.len()
                        == 1 && (actions@[0] matches Action::CreateRecipe {
                        name: n2,
                        ingredients: g2,
                        instructions: s2,
                    } && n2@ == name && g2@ == ingredients && s2@ == instructions),
                    Ok(CommandView::Publish(id)) => actions@.len() == 1 && (actions@[0] matches
                        Action::PublishRecipe(id2) && id2 == id),
                    Err(e) => actions@.len() == 1 && (actions@[0] matches
                        Action::ReportInputError(e2) && e2 == e),
                },
                AppEvent::Outbound(resp) => final(self).overlay == old(self).overlay
                    && actions@.len() == 1 && (actions@[0] matches Action::Broadcast(p) && p@
                    == response_json(resp@)),
                AppEvent::Discovered { peer, address } => {
                    &&& forall|q: Seq<char>|
                        #[trigger] final(self).overlay.knows(q) <==> (old(self).overlay.knows(q)
                            || q == peer@)
                    &&& forall|q: Seq<char>|
                        #[trigger] final(self).overlay.neighbor(q) <==> (old(
                            self,
                        ).overlay.neighbor(q) || q == peer@)
                    &&& actions@.len() == 1
                    &&& (actions@[0] matches Action::AddNeighbor(p2) && p2@ == peer@)
                },
                AppEvent::Expired { peer, address, live } => {
                    &&& forall|q: Seq<char>|
                        #[trigger] final(self).overlay.knows(q) <==> (old(self).overlay.knows(q)
                            && q != peer@)
                    &&& has_peer(live@, peer@) ==> (forall|q: Seq<char>|
                        #[trigger] final(self).overlay.neighbor(q) <==> old(
                            self,
                        ).overlay.neighbor(q)) && actions@.len() == 0
                    &&& !has_peer(live@, peer@) ==> (forall|q: Seq<char>|
                        #[trigger] final(self).overlay.neighbor(q) <==> (old(
                            self,
                        ).overlay.neighbor(q) && q != peer@)) && actions@.len() == 1 && (
                    actions@[0] matches Action::RemoveNeighbor(p2) && p2@ == peer@)
                },
                AppEvent::Message { source, data } => final(self).overlay == old(self).overlay
                    && match spec_decode(data@) {
                    DecodedView::Response(p) => if p.receiver == old(self).local_id@ {
                        actions@.len() == 1 && (actions@[0] matches Action::ShowResponse(r2)
                            && r2@ == p)
                    } else {
                        actions@.len() == 0
                    },
                    DecodedView::Request(q) => if spec_should_respond(
                        q,
                        old(self).local_id@,
                    ) {
                        actions@.len() == 1 && (actions@[0] matches Action::RespondPublic {
                            receiver,
                        } && receiver@ == source@)
                    } else {
                        actions@.len() == 0
                    },
                    DecodedView::Unrecognized => actions@.len() == 0,
                },
            },
    {
        let mut actions: Vec<Action> = Vec::new();
        match event {
            AppEvent::Input(line) => {
                match parse_command(line.as_str()) {
                    Ok(Command::ListPeers) => {
                        actions.push(Action::ShowPeers(self.overlay.known_peers()));
                    },
                    Ok(Command::ListLocal) => {
                        actions.push(Action::ShowLocalRecipes);
                    },
                    Ok(Command::RequestAll) => {
                        let req = ListRequest { mode: ListMode::All };
                        actions.push(Action::Broadcast(encode_request(&req)));
                    },
                    Ok(Command::RequestOne(peer)) => {
                        let req = ListRequest { mode: ListMode::One(peer) };
                        actions.push(Action::Broadcast(encode_request(&req)));
                    },
                    Ok(Command::Create { name, ingredients, instructions }) => {
                        actions.push(Action::CreateRecipe { name, ingredients, instructions });
                    },
                    Ok(Command::Publish(id)) => {
                        actions.push(Action::PublishRecipe(id));
                    },
                    Err(e) => {
                        actions.push(Action::ReportInputError(e));
                    },
                }
            },
            AppEvent::Outbound(resp) => {
                actions.push(Action::Broadcast(encode_response(&resp)));
            },
            AppEvent::Discovered { peer, address: _ } => {
                self.overlay.peer_appeared(&peer);
                actions.push(Action::AddNeighbor(peer));
            },
            AppEvent::Expired { peer, address: _, live } => {
                let still_live = contains_peer(&live, &peer);
                self.overlay.peer_disappeared(&peer, &live);
                if !still_live {
                    actions.push(Action::RemoveNeighbor(peer));
                }
            },
            AppEvent::Message { source, data } => {
                match decode(data.as_str()) {
                    Decoded::Response(resp) => {
                        if accept_response(&resp, &self.local_id) {
                            actions.push(Action::ShowResponse(resp));
                        }
                    },
                    Decoded::Request(req) => {
                        if should_respond(&req, &self.local_id) {
                            actions.push(Action::RespondPublic { receiver: source });
                        }
                    },
                    Decoded::Unrecognized => {},
                }
            },
        }
        actions
    }
}

} // verus!
