use protohackers::chat::connection::{depart, handshake, relay, welcome_prompt, Delivery};
use protohackers::chat::db::Db;
use protohackers::chat::users::{ChatError, Username};

fn lines_for(deliveries: &[Delivery<i32>], name: &str) -> Vec<String> {
    deliveries
        .iter()
        .filter(|d| d.name.as_str() == name)
        .map(|d| d.line.clone())
        .collect()
}

#[test]
fn validates_alphanumeric_names() {
    let u = Username::new("Alice99".to_string()).unwrap();
    assert_eq!(u.as_str(), "Alice99");
    assert_eq!(
        Username::new("".to_string()).unwrap_err(),
        ChatError::InvalidName
    );
    assert_eq!(
        Username::new("bob!".to_string()).unwrap_err(),
        ChatError::InvalidName
    );
    assert_eq!(
        Username::new("two words".to_string()).unwrap_err(),
        ChatError::InvalidName
    );
}

#[test]
fn rejects_a_name_with_non_ascii_letters() {
    assert_eq!(
        Username::new("héllo".to_string()).unwrap_err(),
        ChatError::InvalidName
    );
}

#[test]
fn greets_every_connection() {
    assert_eq!(
        welcome_prompt(),
        "Welcome to budgetchat! What shall I call you?\n"
    );
}

#[test]
fn first_member_joins_an_empty_room() {
    // Scenario: the room is empty and "alice" names herself.  She gets the
    // welcome prompt only: no room-contents line, and nobody is announced
    // to.
    let mut db: Db<i32> = Db::new();
    let joined = handshake(&mut db, "alice".to_string(), 1).unwrap();
    assert_eq!(joined.name.as_str(), "alice");
    assert!(joined.announcements.is_empty());
    assert!(joined.roster.is_none());
}

#[test]
fn second_member_is_announced_and_sees_the_roster() {
    // Scenario: "alice" is in the room and "bob" joins.  Alice hears that
    // bob entered; bob sees a roster holding exactly alice.
    let mut db: Db<i32> = Db::new();
    handshake(&mut db, "alice".to_string(), 1).unwrap();
    let joined = handshake(&mut db, "bob".to_string(), 2).unwrap();
    assert_eq!(joined.announcements.len(), 1);
    assert_eq!(joined.announcements[0].name.as_str(), "alice");
    assert_eq!(joined.announcements[0].sink, 1);
    assert_eq!(joined.announcements[0].line, "* bob has entered the room\n");
    assert_eq!(joined.roster, Some("* The room contains: alice\n".to_string()));
}

#[test]
fn roster_joins_names_with_comma_and_space() {
    let mut db: Db<i32> = Db::new();
    handshake(&mut db, "alice".to_string(), 1).unwrap();
    handshake(&mut db, "bob".to_string(), 2).unwrap();
    let joined = handshake(&mut db, "carol".to_string(), 3).unwrap();
    assert_eq!(
        joined.roster,
        Some("* The room contains: alice, bob\n".to_string())
    );
}

#[test]
fn rejects_a_malformed_name_without_announcing() {
    let mut db: Db<i32> = Db::new();
    handshake(&mut db, "alice".to_string(), 1).unwrap();
    let err = handshake(&mut db, "not a name!".to_string(), 2).unwrap_err();
    assert_eq!(err, ChatError::InvalidName);
    assert_eq!(db.get_users().len(), 1);
}

#[test]
fn relays_a_line_to_everyone_but_the_sender() {
    // Scenario: "alice" and "bob" are both in the room and alice says
    // hello.  Bob receives the relayed line; alice receives nothing.
    let mut db: Db<i32> = Db::new();
    let alice = handshake(&mut db, "alice".to_string(), 1).unwrap().name;
    handshake(&mut db, "bob".to_string(), 2).unwrap();
    let deliveries = relay(&db, &alice, "hello");
    assert_eq!(deliveries.len(), 1);
    assert_eq!(deliveries[0].name.as_str(), "bob");
    assert_eq!(deliveries[0].sink, 2);
    assert_eq!(deliveries[0].line, "[alice] hello\n");
    assert!(lines_for(&deliveries, "alice").is_empty());
}

#[test]
fn departure_is_announced_and_frees_the_name() {
    // Scenario: "alice" disconnects while "bob" is present.  Bob hears the
    // departure, and a later registration of "alice" succeeds.
    let mut db: Db<i32> = Db::new();
    let alice = handshake(&mut db, "alice".to_string(), 1).unwrap().name;
    handshake(&mut db, "bob".to_string(), 2).unwrap();
    let deliveries = depart(&mut db, &alice);
    assert_eq!(deliveries.len(), 1);
    assert_eq!(deliveries[0].name.as_str(), "bob");
    assert_eq!(deliveries[0].sink, 2);
    assert_eq!(deliveries[0].line, "* alice has left the room\n");
    let again = Username::new("alice".to_string()).unwrap();
    assert!(db.add_user(&again, &3).is_ok());
}

#[test]
fn racing_registrations_of_one_name_admit_exactly_one() {
    // Scenario: two connections both try to register "carol".  The
    // directory serialises the two attempts; exactly one succeeds, the
    // other ends with NameTaken, and one entry named carol remains.
    let mut db: Db<i32> = Db::new();
    let first = handshake(&mut db, "carol".to_string(), 1);
    let second = handshake(&mut db, "carol".to_string(), 2);
    assert!(first.is_ok());
    assert_eq!(second.unwrap_err(), ChatError::NameTaken);
    let users = db.get_users();
    let carols = users
        .iter()
        .filter(|(name, _)| name.as_str() == "carol")
        .count();
    assert_eq!(carols, 1);
    assert_eq!(users.len(), 1);
}

#[test]
fn one_session_round_trip_as_a_peer_sees_it() {
    // A peer that stays in the room sees, of another client's whole
    // session, one join announcement, one relay per line sent, and one
    // departure announcement.
    let mut db: Db<i32> = Db::new();
    handshake(&mut db, "bob".to_string(), 1).unwrap();
    let mut to_bob: Vec<String> = Vec::new();

    let joined = handshake(&mut db, "carol".to_string(), 2).unwrap();
    to_bob.extend(lines_for(&joined.announcements, "bob"));
    let carol = joined.name;
    for text in ["one", "two", "three"] {
        to_bob.extend(lines_for(&relay(&db, &carol, text), "bob"));
    }
    to_bob.extend(lines_for(&depart(&mut db, &carol), "bob"));

    assert_eq!(
        to_bob,
        vec![
            "* carol has entered the room\n".to_string(),
            "[carol] one\n".to_string(),
            "[carol] two\n".to_string(),
            "[carol] three\n".to_string(),
            "* carol has left the room\n".to_string(),
        ]
    );
}

#[test]
fn removal_is_idempotent() {
    let mut db: Db<i32> = Db::new();
    let alice = handshake(&mut db, "alice".to_string(), 1).unwrap().name;
    db.remove_user(&alice);
    db.remove_user(&alice);
    assert!(db.get_users().is_empty());
}
