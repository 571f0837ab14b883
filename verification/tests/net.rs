use txxxt::net::accounts::{error_reply, friend_add_check, login_reply, new_session_token, registered_reply};
use txxxt::net::presence::{parse_presence_line, PresenceEvent};
use txxxt::net::relay::{auth, call_user, friends_add, friends_list, friends_remove, login, register};
use txxxt::net::server::{
    auth_ok_reply, check_registration, username_verdict, friends_reply, incoming_message, parse_auth_command, parse_command,
    room_code, room_reply, session_reply, AuthCommand, ServerCommand,
};

#[test]
fn register_reply_parsing() {
    assert_eq!(register("OK\n"), Ok(()));
    assert_eq!(register("ERR username taken\n"), Err("username taken".to_string()));
    assert_eq!(register("WHAT"), Err("WHAT".to_string()));
}

#[test]
fn login_reply_parsing() {
    assert_eq!(login("SESSION tok123 alice\n"), Ok(("alice".to_string(), "tok123".to_string())));
    assert_eq!(login("SESSION onlytoken"), Err("unexpected response: SESSION onlytoken".to_string()));
    assert_eq!(login("ERR invalid license key"), Err("invalid license key".to_string()));
}

#[test]
fn auth_reply_parsing() {
    assert_eq!(auth("OK alice\n"), Ok(()));
    assert_eq!(auth("ERR invalid token"), Err("auth failed: ERR invalid token".to_string()));
}

#[test]
fn friends_list_reply() {
    assert_eq!(friends_list("FRIENDS\n"), Ok(vec![]));
    assert_eq!(
        friends_list("FRIENDS bob, carol ,dave\n"),
        Ok(vec!["bob".to_string(), "carol".to_string(), "dave".to_string()])
    );
    assert_eq!(friends_list("ERR not authenticated"), Err("not authenticated".to_string()));
}

#[test]
fn friends_add_remove_reply() {
    assert_eq!(friends_add("OK"), Ok(()));
    assert_eq!(friends_add("ERR user not found"), Err("user not found".to_string()));
    assert_eq!(friends_remove("OK\n"), Ok(()));
    assert_eq!(friends_remove("nope"), Err("nope".to_string()));
}

#[test]
fn call_user_reply() {
    assert_eq!(call_user("ROOM ABC234\n"), Ok("ABC234".to_string()));
    assert_eq!(call_user("ERR bob is offline"), Err("bob is offline".to_string()));
}

#[test]
fn server_reads_commands() {
    assert!(matches!(parse_command("CREATE\n"), ServerCommand::Create));
    match parse_command("JOIN abc234\n") {
        ServerCommand::Join(code) => assert_eq!(code, "ABC234"),
        _ => panic!("expected JOIN"),
    }
    match parse_command("REGISTER key1 bob\n") {
        ServerCommand::Register(rest) => assert_eq!(rest, "key1 bob"),
        _ => panic!("expected REGISTER"),
    }
    match parse_command("LOGIN key1\n") {
        ServerCommand::Login(key) => assert_eq!(key, "key1"),
        _ => panic!("expected LOGIN"),
    }
    match parse_command("AUTH tok\n") {
        ServerCommand::Auth(token) => assert_eq!(token, "tok"),
        _ => panic!("expected AUTH"),
    }
    assert!(matches!(parse_command("HELLO\n"), ServerCommand::Unknown));
    let long = "A".repeat(513);
    assert!(matches!(parse_command(&long), ServerCommand::TooLong));
    assert!(matches!(parse_command(&"A".repeat(512)), ServerCommand::Unknown));
}

#[test]
fn server_reads_authenticated_commands() {
    assert!(matches!(parse_auth_command("PRESENCE\n"), AuthCommand::Presence));
    assert!(matches!(parse_auth_command("FRIENDS LIST\n"), AuthCommand::FriendsList));
    match parse_auth_command("CALL bob\n") {
        AuthCommand::Call(u) => assert_eq!(u, "bob"),
        _ => panic!("expected CALL"),
    }
    match parse_auth_command("FRIENDS ADD carol\n") {
        AuthCommand::FriendsAdd(u) => assert_eq!(u, "carol"),
        _ => panic!("expected FRIENDS ADD"),
    }
    match parse_auth_command("FRIENDS REMOVE dave\n") {
        AuthCommand::FriendsRemove(u) => assert_eq!(u, "dave"),
        _ => panic!("expected FRIENDS REMOVE"),
    }
    assert!(matches!(parse_auth_command("DANCE\n"), AuthCommand::Unknown));
}

#[test]
fn registration_checks() {
    assert_eq!(
        check_registration("key1 bob_2"),
        Ok(("key1".to_string(), "bob_2".to_string()))
    );
    assert_eq!(
        check_registration("key1"),
        Err("usage: REGISTER <license_key> <username>".to_string())
    );
    assert_eq!(check_registration("key1 ab"), Err("username must be 3-20 characters".to_string()));
    assert_eq!(
        check_registration("key1 abcdefghijklmnopqrstu"),
        Err("username must be 3-20 characters".to_string())
    );
    assert_eq!(
        check_registration("key1 bob!"),
        Err("username may only contain letters, numbers, and underscores".to_string())
    );
}

#[test]
fn room_codes_from_bytes() {
    assert_eq!(room_code(&[0, 1, 8, 31, 32, 255]), "ABJ9A9");
    assert_eq!(room_code(&[]), "");
}

#[test]
fn reply_lines() {
    assert_eq!(session_reply("tok", "alice"), "SESSION tok alice\n");
    assert_eq!(auth_ok_reply("alice"), "OK alice\n");
    assert_eq!(room_reply("ABC234"), "ROOM ABC234\n");
    assert_eq!(incoming_message("bob", "XYZ789"), "INCOMING bob XYZ789\n");
    assert_eq!(friends_reply(&[]), "FRIENDS\n");
    assert_eq!(friends_reply(&["a".to_string(), "b".to_string()]), "FRIENDS a,b\n");
}

#[test]
fn client_reads_back_server_replies() {
    let (user, token) = login(&session_reply("t0k", "alice")).unwrap();
    assert_eq!((user.as_str(), token.as_str()), ("alice", "t0k"));
    let names = vec!["bob".to_string(), "carol".to_string()];
    assert_eq!(friends_list(&friends_reply(&names)), Ok(names));
    assert_eq!(call_user(&room_reply("QWE234")), Ok("QWE234".to_string()));
    assert_eq!(auth(&auth_ok_reply("alice")), Ok(()));
    match parse_presence_line(&incoming_message("bob", "QWE234")) {
        PresenceEvent::Incoming(call) => {
            assert_eq!(call.caller, "bob");
            assert_eq!(call.code, "QWE234");
        }
        _ => panic!("expected an incoming call"),
    }
}

#[test]
fn presence_lines() {
    assert!(matches!(parse_presence_line("PING\n"), PresenceEvent::Ping));
    assert!(matches!(parse_presence_line("INCOMING bob"), PresenceEvent::Other));
    assert!(matches!(parse_presence_line("HELLO"), PresenceEvent::Other));
}

#[test]
fn username_rules_from_flags() {
    assert_eq!(username_verdict("bob", &[true, true, true]), Ok(()));
    assert_eq!(username_verdict("b_b", &[true, false, true]), Ok(()));
    assert_eq!(
        username_verdict("b-b", &[true, false, true]),
        Err("username may only contain letters, numbers, and underscores".to_string())
    );
    assert_eq!(username_verdict("ab", &[true, true]), Err("username must be 3-20 characters".to_string()));
}

#[test]
fn server_account_replies() {
    assert_eq!(error_reply("room not found"), "ERR room not found\n");
    assert_eq!(registered_reply(Ok(())), "OK\n");
    assert_eq!(
        registered_reply(Err("duplicate key value violates unique constraint".to_string())),
        "ERR username or license key already registered\n"
    );
    assert_eq!(registered_reply(Err("connection reset".to_string())), "ERR server error\n");
    assert_eq!(login_reply(Ok(Some("alice".to_string())), "t0k", true), "SESSION t0k alice\n");
    assert_eq!(login_reply(Ok(Some("alice".to_string())), "t0k", false), "ERR server error\n");
    assert_eq!(login_reply(Ok(None), "t0k", true), "ERR license key not registered\n");
    assert_eq!(login_reply(Err(()), "t0k", true), "ERR server error\n");
    assert_eq!(friend_add_check("K1", Some("K2")), Ok(()));
    assert_eq!(friend_add_check("K1", Some("K1")), Err("cannot friend yourself".to_string()));
    assert_eq!(friend_add_check("K1", None), Err("user not found".to_string()));
    // What the client makes of these replies.
    assert_eq!(register(&registered_reply(Ok(()))), Ok(()));
    assert_eq!(login(&login_reply(Ok(None), "x", true)), Err("license key not registered".to_string()));
}

#[test]
fn session_tokens_are_hyphenated_uuids_read_back_by_client() {
    let t = new_session_token();
    assert_eq!(t.len(), 36);
    for (i, c) in t.chars().enumerate() {
        if [8, 13, 18, 23].contains(&i) {
            assert_eq!(c, '-');
        } else {
            assert!(c.is_ascii_digit() || ('a'..='f').contains(&c));
        }
    }
    assert_ne!(t, new_session_token());
    let line = login_reply(Ok(Some("alice".to_string())), &t, true);
    assert_eq!(login(&line), Ok(("alice".to_string(), t.clone())));
}
