use recipes::commands::parse_command;
use recipes::commands::Command;
use recipes::types::UserInputError;

#[test]
fn ls_p_lists_peers() {
    assert!(matches!(parse_command("ls p"), Ok(Command::ListPeers)));
}

#[test]
fn ls_r_lists_local_recipes() {
    assert!(matches!(parse_command("ls r"), Ok(Command::ListLocal)));
}

#[test]
fn ls_r_all_broadcasts_to_everyone() {
    assert!(matches!(parse_command("ls r all"), Ok(Command::RequestAll)));
}

#[test]
fn ls_r_peer_targets_one_peer() {
    match parse_command("ls r QmPeer123") {
        Ok(Command::RequestOne(peer)) => assert_eq!(peer, "QmPeer123"),
        _ => panic!("expected a targeted request"),
    }
}

#[test]
fn ls_r_with_no_space_after_r_lists_local() {
    // `ls rx` begins with `ls r` but not with `ls r `, so it falls back
    // to the local listing.
    assert!(matches!(parse_command("ls rx"), Ok(Command::ListLocal)));
}

#[test]
fn ls_r_with_trailing_space_targets_empty_identity() {
    match parse_command("ls r ") {
        Ok(Command::RequestOne(peer)) => assert_eq!(peer, ""),
        _ => panic!("expected a targeted request at the empty identity"),
    }
}

#[test]
fn create_r_splits_three_fields() {
    match parse_command("create r Soup|water, salt|boil it") {
        Ok(Command::Create { name, ingredients, instructions }) => {
            assert_eq!(name, " Soup");
            assert_eq!(ingredients, "water, salt");
            assert_eq!(instructions, "boil it");
        },
        _ => panic!("expected a create command"),
    }
}

#[test]
fn create_r_ignores_fields_past_the_third() {
    match parse_command("create r a|b|c|d|e") {
        Ok(Command::Create { name, ingredients, instructions }) => {
            assert_eq!(name, " a");
            assert_eq!(ingredients, "b");
            assert_eq!(instructions, "c");
        },
        _ => panic!("expected a create command"),
    }
}

#[test]
fn create_r_with_two_fields_is_an_error() {
    assert!(matches!(parse_command("create r a|b"), Err(UserInputError::TooFewFields)));
}

#[test]
fn create_r_with_no_fields_is_an_error() {
    assert!(matches!(parse_command("create r soup"), Err(UserInputError::TooFewFields)));
}

#[test]
fn create_r_accepts_empty_fields() {
    match parse_command("create r||") {
        Ok(Command::Create { name, ingredients, instructions }) => {
            assert_eq!(name, "");
            assert_eq!(ingredients, "");
            assert_eq!(instructions, "");
        },
        _ => panic!("expected a create command"),
    }
}

#[test]
fn publish_r_parses_numeric_id() {
    assert!(matches!(parse_command("publish r 5"), Ok(Command::Publish(5))));
}

#[test]
fn publish_r_trims_whitespace_around_id() {
    assert!(matches!(parse_command("publish r   12  "), Ok(Command::Publish(12))));
}

#[test]
fn publish_r_rejects_non_numeric_id() {
    assert!(matches!(parse_command("publish r five"), Err(UserInputError::InvalidId)));
}

#[test]
fn publish_r_rejects_missing_id() {
    assert!(matches!(parse_command("publish r "), Err(UserInputError::InvalidId)));
}

#[test]
fn publish_r_rejects_id_beyond_machine_word() {
    assert!(matches!(
        parse_command("publish r 99999999999999999999999"),
        Err(UserInputError::InvalidId)
    ));
}

#[test]
fn unknown_commands_are_reported() {
    assert!(matches!(parse_command("delete r 1"), Err(UserInputError::UnknownCommand)));
    assert!(matches!(parse_command(""), Err(UserInputError::UnknownCommand)));
    assert!(matches!(parse_command("ls"), Err(UserInputError::UnknownCommand)));
    assert!(matches!(parse_command("ls p extra"), Err(UserInputError::UnknownCommand)));
}
