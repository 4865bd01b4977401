use recipes::codec::decode;
use recipes::codec::decode_recipes;
use recipes::codec::encode_recipes;
use recipes::codec::encode_request;
use recipes::codec::encode_response;
use recipes::types::Decoded;
use recipes::types::ListMode;
use recipes::types::ListRequest;
use recipes::types::ListResponse;
use recipes::types::Recipe;

fn soup(id: usize, public: bool) -> Recipe {
    Recipe {
        id,
        name: String::from("Soup"),
        ingredients: String::from("water|salt"),
        instructions: String::from("boil"),
        public,
    }
}

#[test]
fn request_all_has_canonical_form() {
    let req = ListRequest { mode: ListMode::All };
    assert_eq!(encode_request(&req), "{\"mode\":\"ALL\"}");
}

#[test]
fn request_one_has_canonical_form() {
    let req = ListRequest { mode: ListMode::One(String::from("QmPeer")) };
    assert_eq!(encode_request(&req), "{\"mode\":{\"One\":\"QmPeer\"}}");
}

#[test]
fn response_has_canonical_form() {
    let resp = ListResponse {
        mode: ListMode::All,
        data: vec![soup(0, true)],
        receiver: String::from("Q"),
    };
    assert_eq!(
        encode_response(&resp),
        "{\"mode\":\"ALL\",\"data\":[{\"id\":0,\"name\":\"Soup\",\"ingredients\":\"water|salt\",\
         \"instructions\":\"boil\",\"public\":true}],\"receiver\":\"Q\"}"
    );
}

#[test]
fn request_round_trips_through_decode() {
    let req = ListRequest { mode: ListMode::One(String::from("peer-7")) };
    match decode(&encode_request(&req)) {
        Decoded::Request(back) => match back.mode {
            ListMode::One(peer) => assert_eq!(peer, "peer-7"),
            ListMode::All => panic!("mode changed"),
        },
        _ => panic!("request did not round trip"),
    }
}

#[test]
fn response_round_trips_through_decode() {
    let resp = ListResponse {
        mode: ListMode::All,
        data: vec![soup(3, true), soup(9, false)],
        receiver: String::from("QmReceiver"),
    };
    match decode(&encode_response(&resp)) {
        Decoded::Response(back) => {
            assert!(matches!(back.mode, ListMode::All));
            assert_eq!(back.receiver, "QmReceiver");
            assert_eq!(back.data.len(), 2);
            assert_eq!(back.data[0].id, 3);
            assert!(back.data[0].public);
            assert_eq!(back.data[1].id, 9);
            assert!(!back.data[1].public);
            assert_eq!(back.data[0].name, "Soup");
            assert_eq!(back.data[0].ingredients, "water|salt");
            assert_eq!(back.data[0].instructions, "boil");
        },
        _ => panic!("response did not round trip"),
    }
}

#[test]
fn collection_round_trips_through_decode() {
    let store = vec![soup(0, false), soup(1, true)];
    let text = encode_recipes(&store);
    let back = decode_recipes(&text).expect("canonical collection must decode");
    assert_eq!(back.len(), 2);
    assert_eq!(back[0].id, 0);
    assert!(!back[0].public);
    assert_eq!(back[1].id, 1);
    assert!(back[1].public);
}

#[test]
fn empty_collection_encodes_as_empty_array() {
    let store: Vec<Recipe> = Vec::new();
    let text = encode_recipes(&store);
    assert_eq!(text, "[]");
    let back = decode_recipes(&text).expect("[] must decode");
    assert!(back.is_empty());
}

#[test]
fn string_escapes_round_trip() {
    let resp = ListResponse {
        mode: ListMode::All,
        data: vec![Recipe {
            id: 5,
            name: String::from("a\"b\\c\nd\te\u{1}f"),
            ingredients: String::from("caf\u{e9} \u{1f372}"),
            instructions: String::from("line1\r\nline2"),
            public: true,
        }],
        receiver: String::from("Q"),
    };
    match decode(&encode_response(&resp)) {
        Decoded::Response(back) => {
            assert_eq!(back.data[0].name, "a\"b\\c\nd\te\u{1}f");
            assert_eq!(back.data[0].ingredients, "caf\u{e9} \u{1f372}");
            assert_eq!(back.data[0].instructions, "line1\r\nline2");
        },
        _ => panic!("escaped response did not round trip"),
    }
}

#[test]
fn escapes_have_canonical_form() {
    let store = vec![Recipe {
        id: 1,
        name: String::from("a\"b\\c\nd\u{1}"),
        ingredients: String::from("i"),
        instructions: String::from("s"),
        public: false,
    }];
    assert_eq!(
        encode_recipes(&store),
        "[{\"id\":1,\"name\":\"a\\\"b\\\\c\\nd\\u0001\",\"ingredients\":\"i\",\
         \"instructions\":\"s\",\"public\":false}]"
    );
}

#[test]
fn largest_id_round_trips() {
    let store = vec![soup(usize::MAX, true)];
    let back = decode_recipes(&encode_recipes(&store)).expect("max id must decode");
    assert_eq!(back[0].id, usize::MAX);
}

#[test]
fn malformed_payloads_are_unrecognized() {
    for text in [
        "",
        "hello",
        "{}",
        "{\"mode\":}",
        "{\"mode\":\"SOME\"}",
        "[1,2,3]",
        "{\"mode\":\"ALL\"",
        "{\"mode\":\"ALL\"} ",
        " {\"mode\":\"ALL\"}",
        "{\"mode\":\"ALL\",\"data\":[],\"receiver\":\"Q\"}trailing",
        "{\"other\":true}",
    ] {
        assert!(
            matches!(decode(text), Decoded::Unrecognized),
            "payload {:?} should be unrecognized",
            text
        );
    }
}

#[test]
fn request_schema_is_not_mistaken_for_response() {
    match decode("{\"mode\":\"ALL\"}") {
        Decoded::Request(req) => assert!(matches!(req.mode, ListMode::All)),
        _ => panic!("bare mode object must be a request"),
    }
}

#[test]
fn noncanonical_numbers_do_not_decode() {
    // A leading zero and an id beyond the machine word are both refused.
    let with_leading_zero = "[{\"id\":01,\"name\":\"n\",\"ingredients\":\"i\",\
                             \"instructions\":\"s\",\"public\":false}]";
    assert!(decode_recipes(with_leading_zero).is_none());
    let too_large = "[{\"id\":99999999999999999999999,\"name\":\"n\",\"ingredients\":\"i\",\
                     \"instructions\":\"s\",\"public\":false}]";
    assert!(decode_recipes(too_large).is_none());
}

#[test]
fn malformed_collections_do_not_decode() {
    for text in ["", "[", "[]]", "[{]", "{\"id\":0}", "[{\"id\":0}]"] {
        assert!(decode_recipes(text).is_none(), "collection {:?} should not decode", text);
    }
}
