use recipes::codec::decode;
use recipes::codec::encode_request;
use recipes::events::Action;
use recipes::events::AppEvent;
use recipes::events::Node;
use recipes::protocol::accept_response;
use recipes::protocol::build_response;
use recipes::protocol::should_respond;
use recipes::store::create;
use recipes::store::publish;
use recipes::types::Decoded;
use recipes::types::ListMode;
use recipes::types::ListRequest;
use recipes::types::Recipe;
use recipes::types::UserInputError;

fn node() -> Node {
    Node::new(String::from("QmLocal"))
}

#[test]
fn input_ls_p_shows_known_peers() {
    let mut n = node();
    n.handle_event(AppEvent::Discovered {
        peer: String::from("QmA"),
        address: String::from("/ip4/10.0.0.1/tcp/1"),
    });
    n.handle_event(AppEvent::Discovered {
        peer: String::from("QmA"),
        address: String::from("/ip4/10.0.0.2/tcp/2"),
    });
    n.handle_event(AppEvent::Discovered {
        peer: String::from("QmB"),
        address: String::from("/ip4/10.0.0.3/tcp/3"),
    });
    let actions = n.handle_event(AppEvent::Input(String::from("ls p")));
    assert_eq!(actions.len(), 1);
    match &actions[0] {
        Action::ShowPeers(peers) => {
            let mut names: Vec<&str> = peers.iter().map(|p| p.as_str()).collect();
            names.sort();
            assert_eq!(names, vec!["QmA", "QmB"]);
        },
        _ => panic!("expected a peer listing"),
    }
}

#[test]
fn input_ls_r_all_broadcasts_request() {
    let mut n = node();
    let actions = n.handle_event(AppEvent::Input(String::from("ls r all")));
    assert_eq!(actions.len(), 1);
    match &actions[0] {
        Action::Broadcast(payload) => assert_eq!(payload, "{\"mode\":\"ALL\"}"),
        _ => panic!("expected a broadcast"),
    }
}

#[test]
fn input_ls_r_peer_broadcasts_targeted_request() {
    let mut n = node();
    let actions = n.handle_event(AppEvent::Input(String::from("ls r QmB")));
    assert_eq!(actions.len(), 1);
    match &actions[0] {
        Action::Broadcast(payload) => {
            assert_eq!(payload, "{\"mode\":{\"One\":\"QmB\"}}")
        },
        _ => panic!("expected a broadcast"),
    }
}

#[test]
fn input_create_yields_store_action() {
    let mut n = node();
    let actions = n.handle_event(AppEvent::Input(String::from("create r Pie|apples|bake")));
    assert_eq!(actions.len(), 1);
    match &actions[0] {
        Action::CreateRecipe { name, ingredients, instructions } => {
            assert_eq!(name, " Pie");
            assert_eq!(ingredients, "apples");
            assert_eq!(instructions, "bake");
        },
        _ => panic!("expected a create action"),
    }
}

#[test]
fn input_publish_yields_store_action() {
    let mut n = node();
    let actions = n.handle_event(AppEvent::Input(String::from("publish r 3")));
    assert_eq!(actions.len(), 1);
    assert!(matches!(actions[0], Action::PublishRecipe(3)));
}

#[test]
fn malformed_input_is_reported_and_loop_continues() {
    let mut n = node();
    let actions = n.handle_event(AppEvent::Input(String::from("publish r soon")));
    assert_eq!(actions.len(), 1);
    assert!(matches!(actions[0], Action::ReportInputError(UserInputError::InvalidId)));
    // The node still works afterwards.
    let after = n.handle_event(AppEvent::Input(String::from("ls r all")));
    assert_eq!(after.len(), 1);
}

#[test]
fn discovered_peer_is_added_to_partial_view() {
    let mut n = node();
    let actions = n.handle_event(AppEvent::Discovered {
        peer: String::from("QmA"),
        address: String::from("/ip4/10.0.0.1/tcp/1"),
    });
    assert_eq!(actions.len(), 1);
    match &actions[0] {
        Action::AddNeighbor(peer) => assert_eq!(peer, "QmA"),
        _ => panic!("expected a neighbor addition"),
    }
}

#[test]
fn expired_peer_still_reported_live_is_kept() {
    // Peer A disappears from one discovery source while a second,
    // overlapping source still reports it: A stays in the partial view.
    let mut n = node();
    n.handle_event(AppEvent::Discovered {
        peer: String::from("QmA"),
        address: String::from("/ip4/10.0.0.1/tcp/1"),
    });
    let actions = n.handle_event(AppEvent::Expired {
        peer: String::from("QmA"),
        address: String::from("/ip4/10.0.0.1/tcp/1"),
        live: vec![String::from("QmA"), String::from("QmB")],
    });
    assert_eq!(actions.len(), 0);
}

#[test]
fn expired_peer_no_longer_live_is_removed() {
    let mut n = node();
    n.handle_event(AppEvent::Discovered {
        peer: String::from("QmA"),
        address: String::from("/ip4/10.0.0.1/tcp/1"),
    });
    let actions = n.handle_event(AppEvent::Expired {
        peer: String::from("QmA"),
        address: String::from("/ip4/10.0.0.1/tcp/1"),
        live: vec![String::from("QmB")],
    });
    assert_eq!(actions.len(), 1);
    match &actions[0] {
        Action::RemoveNeighbor(peer) => assert_eq!(peer, "QmA"),
        _ => panic!("expected a neighbor removal"),
    }
}

#[test]
fn response_for_another_peer_does_nothing() {
    // A response whose receiver is not this peer triggers no store
    // access and no surfaced output.
    let mut n = node();
    let mut store: Vec<Recipe> = Vec::new();
    create(&mut store, String::from("Soup"), String::from("w"), String::from("b"));
    let foreign = build_response(&store, &String::from("QmSomeoneElse"));
    assert!(!accept_response(&foreign, &String::from("QmLocal")));
    let payload = recipes::codec::encode_response(&foreign);
    let actions = n.handle_event(AppEvent::Message {
        source: String::from("QmB"),
        data: payload,
    });
    assert_eq!(actions.len(), 0);
}

#[test]
fn response_addressed_here_is_surfaced() {
    let mut n = node();
    let store: Vec<Recipe> = Vec::new();
    let mine = build_response(&store, &String::from("QmLocal"));
    let payload = recipes::codec::encode_response(&mine);
    let actions = n.handle_event(AppEvent::Message {
        source: String::from("QmB"),
        data: payload,
    });
    assert_eq!(actions.len(), 1);
    match &actions[0] {
        Action::ShowResponse(resp) => assert_eq!(resp.receiver, "QmLocal"),
        _ => panic!("expected the response to surface"),
    }
}

#[test]
fn all_request_is_always_answered() {
    let mut n = node();
    let req = ListRequest { mode: ListMode::All };
    let actions = n.handle_event(AppEvent::Message {
        source: String::from("QmAsker"),
        data: encode_request(&req),
    });
    assert_eq!(actions.len(), 1);
    match &actions[0] {
        Action::RespondPublic { receiver } => assert_eq!(receiver, "QmAsker"),
        _ => panic!("expected a responder spawn"),
    }
}

#[test]
fn targeted_request_is_answered_only_by_its_target() {
    let mut n = node();
    let at_me = ListRequest { mode: ListMode::One(String::from("QmLocal")) };
    let actions = n.handle_event(AppEvent::Message {
        source: String::from("QmAsker"),
        data: encode_request(&at_me),
    });
    assert_eq!(actions.len(), 1);
    assert!(matches!(&actions[0], Action::RespondPublic { .. }));
    let at_other = ListRequest { mode: ListMode::One(String::from("QmOther")) };
    assert!(!should_respond(&at_other, &String::from("QmLocal")));
    let none = n.handle_event(AppEvent::Message {
        source: String::from("QmAsker"),
        data: encode_request(&at_other),
    });
    assert_eq!(none.len(), 0);
}

#[test]
fn malformed_broadcast_bytes_do_nothing() {
    // Malformed payloads on the topic are dropped silently and the loop
    // keeps processing later events.
    let mut n = node();
    for text in ["not json at all", "{\"mode\":", "{\"price\":3}"] {
        let actions = n.handle_event(AppEvent::Message {
            source: String::from("QmB"),
            data: String::from(text),
        });
        assert_eq!(actions.len(), 0, "payload {:?} must be dropped", text);
    }
    let after = n.handle_event(AppEvent::Input(String::from("ls r all")));
    assert_eq!(after.len(), 1);
}

#[test]
fn empty_store_create_publish_query_scenario() {
    // Store empty; create Soup; publish id 0; a query in mode All from
    // peer Q yields exactly one response carrying Soup, addressed to Q.
    let mut store: Vec<Recipe> = Vec::new();
    let created = create(
        &mut store,
        String::from("Soup"),
        String::from("water|salt"),
        String::from("boil"),
    );
    assert_eq!(created.id, 0);
    assert!(!created.public);
    publish(&mut store, 0);
    assert!(store[0].public);

    let mut n = node();
    let req = ListRequest { mode: ListMode::All };
    let actions = n.handle_event(AppEvent::Message {
        source: String::from("Q"),
        data: encode_request(&req),
    });
    assert_eq!(actions.len(), 1);
    let receiver = match &actions[0] {
        Action::RespondPublic { receiver } => receiver.clone(),
        _ => panic!("expected a responder spawn"),
    };
    let resp = build_response(&store, &receiver);
    assert!(matches!(resp.mode, ListMode::All));
    assert_eq!(resp.receiver, "Q");
    assert_eq!(resp.data.len(), 1);
    assert_eq!(resp.data[0].name, "Soup");
    assert!(resp.data[0].public);

    // The queued response is encoded and broadcast; on the wire it
    // decodes back to the same reply.
    let outbound = n.handle_event(AppEvent::Outbound(resp));
    assert_eq!(outbound.len(), 1);
    match &outbound[0] {
        Action::Broadcast(payload) => match decode(payload) {
            Decoded::Response(back) => {
                assert_eq!(back.receiver, "Q");
                assert_eq!(back.data.len(), 1);
                assert_eq!(back.data[0].name, "Soup");
            },
            _ => panic!("broadcast payload must decode as a response"),
        },
        _ => panic!("expected a broadcast"),
    }
}
