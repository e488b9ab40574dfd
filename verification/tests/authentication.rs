use moblin_assistant::protocol::{IdentifiedResult, MessageToStreamer};
use moblin_assistant::streamer::StreamerConnection;
use moblin_assistant::utils::{hash_text, random_string, string_of_bytes, text_of_digest};

fn connection(password: &str, challenge: &str, salt: &str) -> StreamerConnection {
    StreamerConnection::with_secrets(
        password.to_string(),
        "1.2.3.4:5".to_string(),
        3,
        4,
        challenge.to_string(),
        salt.to_string(),
    )
}

#[test]
fn bytes_become_lower_case_hexadecimal_digits() {
    assert_eq!(string_of_bytes(&[]), "");
    assert_eq!(string_of_bytes(&[1, 2, 3, 15, 16]), "0102030f10");
    assert_eq!(string_of_bytes(&[0xF9, 0xB4, 0xCA, 0, 255]), "f9b4ca00ff");
}

#[test]
fn random_strings_are_long_and_differ() {
    let a = random_string();
    let b = random_string();
    assert_eq!(a.len(), 128);
    assert!(a
        .chars()
        .all(|c| c.is_ascii_digit() || ('a'..='f').contains(&c)));
    assert_ne!(a, b);
}

#[test]
fn a_text_is_hashed_to_base64() {
    assert_eq!(
        hash_text("test123salt"),
        "7sK9/OQ4wPvG+WLkc+rCV5lChGypqa65ClxH+Szayew="
    );
}

#[test]
fn the_password_is_hashed_with_salt_and_challenge() {
    assert_eq!(
        connection("test123", "challenge", "salt").hash_password(),
        "+0KngH9YY9XVezSs7hsZ7HjZlL9z1ru5MJ1id876Vc8="
    );
    assert_eq!(
        connection("pässword", "c", "s").hash_password(),
        "srtOZ6jSdj6sUea6NQrd2dAHXsJZ68cX4Edb5CBgTDw="
    );
    assert_eq!(
        connection("", "", "").hash_password(),
        "XEB0z23rR/W2r5xf4+C70OQrlZb+iKxU1ca275h+DyA="
    );
}

#[test]
fn a_digest_becomes_a_text() {
    assert_eq!(text_of_digest(&[]), "");
    assert_eq!(text_of_digest(&[0]), "AA==");
    assert_eq!(text_of_digest(&[255, 239]), "/+8=");
    assert_eq!(text_of_digest(&[77, 97, 110]), "TWFu");
    assert_eq!(text_of_digest(&[77, 97, 110, 255]), "TWFu/w==");
}

#[test]
fn an_identify_message_has_one_of_three_answers() {
    let mut connection = connection("p", "c", "s");
    let (a, b) = ("a".to_string(), "b".to_string());
    assert_eq!(
        connection.identify_result(&a, &a),
        IdentifiedResult::Accepted {}
    );
    assert_eq!(
        connection.identify_result(&a, &b),
        IdentifiedResult::WrongPassword {}
    );
    connection.set_identified(None);
    assert_eq!(
        connection.identify_result(&a, &a),
        IdentifiedResult::AlreadyIdentified {}
    );
}

#[test]
fn hello_tells_the_version_the_challenge_and_the_salt() {
    let hello = connection("p", "c", "s").send_hello();
    assert_eq!(hello.to, 3);
    match hello.message {
        MessageToStreamer::Hello(hello) => {
            assert_eq!(hello.api_version, "0.1");
            assert_eq!(hello.authentication.challenge, "c");
            assert_eq!(hello.authentication.salt, "s");
        }
        _ => panic!("Expected hello"),
    }
}

#[test]
fn a_new_connection_is_not_identified() {
    let mut connection = StreamerConnection::new("p".to_string(), "a".to_string(), 1, 2);
    assert!(!connection.is_identified());
    assert_eq!(connection.state(), Some(2));
    assert!(connection.streamer_id().is_none());
    connection.set_identified(Some("me".to_string()));
    assert!(connection.is_identified());
    assert_eq!(connection.streamer_id().as_deref(), Some("me"));
    connection.set_state(None);
    assert_eq!(connection.state(), None);
}

#[test]
fn two_connections_get_different_challenges_and_salts() {
    let secrets = |connection: &StreamerConnection| match connection.send_hello().message {
        MessageToStreamer::Hello(hello) => {
            (hello.authentication.challenge, hello.authentication.salt)
        }
        _ => panic!("Expected hello"),
    };
    let a = secrets(&StreamerConnection::new("p".to_string(), "a".to_string(), 1, 2));
    let b = secrets(&StreamerConnection::new("p".to_string(), "a".to_string(), 1, 2));
    assert_ne!(a.0, b.0);
    assert_ne!(a.1, b.1);
    assert_ne!(a.0, a.1);
    assert_eq!(a.0.len(), 128);
    assert_eq!(a.1.len(), 128);
}

#[test]
fn answers_go_to_the_connection() {
    let connection = connection("p", "c", "s");
    let identified = connection.send_identified(IdentifiedResult::WrongPassword {});
    assert_eq!(identified.to, 3);
    assert!(matches!(
        identified.message,
        MessageToStreamer::Identified(m) if m.result == IdentifiedResult::WrongPassword {}
    ));
    let pong = connection.handle_ping();
    assert_eq!(pong.to, 3);
    assert!(matches!(pong.message, MessageToStreamer::Pong {}));
}
