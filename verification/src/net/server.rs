//! Server side of the relay text protocol: reading the command lines clients
//! send, checking registrations, and the reply lines the server writes. The
//! server's sockets and database are driven by its caller.
//!
//! Protocol (each client sends one command line, newline-terminated):
//!
//! Unauthenticated:
//!   CREATE → ROOM <code>
//!   JOIN <code> → OK
//!   REGISTER <key> <username> → OK / ERR <msg>
//!   LOGIN <license_key> → SESSION <token> <username> / ERR <msg>
//!
//! Authenticated (AUTH <token> first, answered OK <username> / ERR):
//!   PRESENCE → (keep-alive, receives push messages)
//!   CALL <username> → ROOM <code> / ERR <msg>
//!   FRIENDS ADD <username> → OK / ERR <msg>
//!   FRIENDS REMOVE <username> → OK / ERR <msg>
//!   FRIENDS LIST → FRIENDS <u1>,<u2>,... / FRIENDS
use vstd::prelude::*;

use crate::net::presence::{incoming_of, is_ping};
use crate::net::relay::{
    auth_outcome, call_outcome, first_space, friends_outcome, lemma_first_space_at, login_outcome,
    same_chars, split_on,
};
use crate::text::{is_space, lemma_trim_exact};
use crate::text::{
    chars_from, chars_of, chars_until, find_char, has_prefix, push_char, push_chars, starts_with,
    string_of, trim_chars, trimmed, to_uppercase, uppercase,
};

verus! {

/// Longest command line the server accepts, in bytes.
pub const MAX_COMMAND_BYTES: usize = 512;

/// Length of a room code.
pub const CODE_LEN: usize = 6;

/// Characters of room codes (no 0/O or 1/I lookalikes).
pub const CODE_CHARS: [char; 32] = [
    'A', 'B', 'C', 'D', 'E', 'F', 'G', 'H', 'J', 'K', 'L', 'M', 'N', 'P', 'Q', 'R', 'S', 'T', 'U', 'V',
    'W', 'X', 'Y', 'Z', '2', '3', '4', '5', '6', '7', '8', '9',
];

/// A command line read before authentication.
pub enum ServerCommand {
    /// The line is longer than the server accepts.
    TooLong,
    Create,
    /// Join the room with this (upper-cased) code.
    Join(String),
    /// Register: the trimmed arguments `<key> <username>`.
    Register(String),
    /// Log in with this license key.
    Login(String),
    /// Authenticate with this session token.
    Auth(String),
    Unknown,
}

/// A command line read after a successful AUTH.
pub enum AuthCommand {
    Presence,
    Call(String),
    FriendsList,
    FriendsAdd(String),
    FriendsRemove(String),
    Unknown,
}

/// Number of bytes of the UTF-8 encoding of `s`.
pub open spec fn utf8_len(s: Seq<char>) -> nat {
    vstd::utf8::encode_utf8(s).len()
}

/// The argument after `prefix` in the trimmed command, trimmed.
pub open spec fn arg_after(t: Seq<char>, prefix: Seq<char>) -> Seq<char> {
    trimmed(t.skip(prefix.len() as int))
}

/// Read an unauthenticated command line (as received, newline included).
pub fn parse_command(line: &str) -> (c: ServerCommand)
    ensures
        match c {
            ServerCommand::TooLong => utf8_len(line@) > 512,
            ServerCommand::Create => utf8_len(line@) <= 512 && trimmed(line@) == "CREATE"@,
            ServerCommand::Join(code) => utf8_len(line@) <= 512 && trimmed(line@) != "CREATE"@
                && has_prefix(trimmed(line@), "JOIN "@) && code@ == uppercase(
                arg_after(trimmed(line@), "JOIN "@),
            ),
            ServerCommand::Register(rest) => utf8_len(line@) <= 512 && trimmed(line@) != "CREATE"@
                && !has_prefix(trimmed(line@), "JOIN "@) && has_prefix(trimmed(line@), "REGISTER "@)
                && rest@ == arg_after(trimmed(line@), "REGISTER "@),
            ServerCommand::Login(key) => utf8_len(line@) <= 512 && trimmed(line@) != "CREATE"@
                && !has_prefix(trimmed(line@), "JOIN "@) && !has_prefix(trimmed(line@), "REGISTER "@)
                && has_prefix(trimmed(line@), "LOGIN "@) && key@ == arg_after(
                trimmed(line@),
                "LOGIN "@,
            ),
            ServerCommand::Auth(token) => utf8_len(line@) <= 512 && trimmed(line@) != "CREATE"@
                && !has_prefix(trimmed(line@), "JOIN "@) && !has_prefix(trimmed(line@), "REGISTER "@)
                && !has_prefix(trimmed(line@), "LOGIN "@) && has_prefix(trimmed(line@), "AUTH "@)
                && token@ == arg_after(trimmed(line@), "AUTH "@),
            ServerCommand::Unknown => utf8_len(line@) <= 512 && trimmed(line@) != "CREATE"@
                && !has_prefix(trimmed(line@), "JOIN "@) && !has_prefix(trimmed(line@), "REGISTER "@)
                && !has_prefix(trimmed(line@), "LOGIN "@) && !has_prefix(trimmed(line@), "AUTH "@),
        },
{
    if line.as_bytes().len() > MAX_COMMAND_BYTES {
        return ServerCommand::TooLong;
    }
    let t = trim_chars(chars_of(line).as_slice());
    if same_chars(t.as_slice(), chars_of("CREATE").as_slice()) {
        return ServerCommand::Create;
    }
    proof {
        reveal_strlit("JOIN ");
        reveal_strlit("REGISTER ");
        reveal_strlit("LOGIN ");
        reveal_strlit("AUTH ");
    }
    if starts_with(t.as_slice(), chars_of("JOIN ").as_slice()) {
        let arg = trim_chars(chars_from(t.as_slice(), 5).as_slice());
        let arg_s = string_of(arg.as_slice());
        return ServerCommand::Join(to_uppercase(arg_s.as_str()));
    }
    if starts_with(t.as_slice(), chars_of("REGISTER ").as_slice()) {
        let arg = trim_chars(chars_from(t.as_slice(), 9).as_slice());
        return ServerCommand::Register(string_of(arg.as_slice()));
    }
    if starts_with(t.as_slice(), chars_of("LOGIN ").as_slice()) {
        let arg = trim_chars(chars_from(t.as_slice(), 6).as_slice());
        return ServerCommand::Login(string_of(arg.as_slice()));
    }
    if starts_with(t.as_slice(), chars_of("AUTH ").as_slice()) {
        let arg = trim_chars(chars_from(t.as_slice(), 5).as_slice());
        return ServerCommand::Auth(string_of(arg.as_slice()));
    }
    ServerCommand::Unknown
}

/// Read the command line that follows a successful AUTH.
pub fn parse_auth_command(line: &str) -> (c: AuthCommand)
    ensures
        match c {
            AuthCommand::Presence => trimmed(line@) == "PRESENCE"@,
            AuthCommand::Call(user) => trimmed(line@) != "PRESENCE"@ && has_prefix(trimmed(line@), "CALL "@)
                && user@ == arg_after(trimmed(line@), "CALL "@),
            AuthCommand::FriendsList => trimmed(line@) != "PRESENCE"@ && !has_prefix(
                trimmed(line@),
                "CALL "@,
            ) && trimmed(line@) == "FRIENDS LIST"@,
            AuthCommand::FriendsAdd(user) => trimmed(line@) != "PRESENCE"@ && !has_prefix(
                trimmed(line@),
                "CALL "@,
            ) && trimmed(line@) != "FRIENDS LIST"@ && has_prefix(trimmed(line@), "FRIENDS ADD "@)
                && user@ == arg_after(trimmed(line@), "FRIENDS ADD "@),
            AuthCommand::FriendsRemove(user) => trimmed(line@) != "PRESENCE"@ && !has_prefix(
                trimmed(line@),
                "CALL "@,
            ) && trimmed(line@) != "FRIENDS LIST"@ && !has_prefix(trimmed(line@), "FRIENDS ADD "@)
                && has_prefix(trimmed(line@), "FRIENDS REMOVE "@) && user@ == arg_after(
                trimmed(line@),
                "FRIENDS REMOVE "@,
            ),
            AuthCommand::Unknown => trimmed(line@) != "PRESENCE"@ && !has_prefix(trimmed(line@), "CALL "@)
                && trimmed(line@) != "FRIENDS LIST"@ && !has_prefix(trimmed(line@), "FRIENDS ADD "@)
                && !has_prefix(trimmed(line@), "FRIENDS REMOVE "@),
        },
{
    let t = trim_chars(chars_of(line).as_slice());
    if same_chars(t.as_slice(), chars_of("PRESENCE").as_slice()) {
        return AuthCommand::Presence;
    }
    proof {
        reveal_strlit("CALL ");
        reveal_strlit("FRIENDS ADD ");
        reveal_strlit("FRIENDS REMOVE ");
    }
    if starts_with(t.as_slice(), chars_of("CALL ").as_slice()) {
        let arg = trim_chars(chars_from(t.as_slice(), 5).as_slice());
        return AuthCommand::Call(string_of(arg.as_slice()));
    }
    if same_chars(t.as_slice(), chars_of("FRIENDS LIST").as_slice()) {
        return AuthCommand::FriendsList;
    }
    if starts_with(t.as_slice(), chars_of("FRIENDS ADD ").as_slice()) {
        let arg = trim_chars(chars_from(t.as_slice(), 12).as_slice());
        return AuthCommand::FriendsAdd(string_of(arg.as_slice()));
    }
    if starts_with(t.as_slice(), chars_of("FRIENDS REMOVE ").as_slice()) {
        let arg = trim_chars(chars_from(t.as_slice(), 15).as_slice());
        return AuthCommand::FriendsRemove(string_of(arg.as_slice()));
    }
    AuthCommand::Unknown
}

/// Whether `c` is alphanumeric in the sense of `char::is_alphanumeric`
/// (Unicode `Alphabetic` or `Numeric`).
pub uninterp spec fn alphanumeric(c: char) -> bool;

/// Calls `char::is_alphanumeric`; the contract only names its result, which
/// depends on the character alone (the Unicode tables it consults are fixed).
#[verifier::external_body]
fn char_is_alphanumeric(c: char) -> (r: bool)
    ensures
        r == alphanumeric(c),
{
    c.is_alphanumeric()
}

/// Whether every character of a username is alphanumeric or an underscore.
pub open spec fn username_chars_ok(u: Seq<char>) -> bool {
    forall|i: int| 0 <= i < u.len() ==> alphanumeric(#[trigger] u[i]) || u[i] == '_'
}

/// The outcome of `REGISTER <key> <username>` before the license is checked:
/// the key and the trimmed username, or the error the server answers with.
pub open spec fn registration_outcome(rest: Seq<char>) -> Result<(Seq<char>, Seq<char>), Seq<char>> {
    match first_space(rest) {
        None => Err("usage: REGISTER <license_key> <username>"@),
        Some(i) => {
            let key = rest.take(i);
            let user = trimmed(rest.skip(i + 1));
            if utf8_len(user) < 3 || utf8_len(user) > 20 {
                Err("username must be 3-20 characters"@)
            } else if !username_chars_ok(user) {
                Err("username may only contain letters, numbers, and underscores"@)
            } else {
                Ok((key, user))
            }
        },
    }
}

/// The verdict on a username, given which of its characters are
/// alphanumeric (`alnum[i]` for character `i`).
pub open spec fn username_outcome(user: Seq<char>, alnum: Seq<bool>) -> Result<(), Seq<char>> {
    if utf8_len(user) < 3 || utf8_len(user) > 20 {
        Err("username must be 3-20 characters"@)
    } else if exists|i: int| 0 <= i < user.len() && !(alnum[i] || user[i] == '_') {
        Err("username may only contain letters, numbers, and underscores"@)
    } else {
        Ok(())
    }
}

/// Validate a username (3-20 bytes; letters, digits and underscores), given
/// which of its characters are alphanumeric.
pub fn username_verdict(user: &str, alnum: &[bool]) -> (r: Result<(), String>)
    requires
        alnum@.len() == user@.len(),
    ensures
        match r {
            Ok(()) => username_outcome(user@, alnum@) == Ok::<(), Seq<char>>(()),
            Err(msg) => username_outcome(user@, alnum@) == Err::<(), Seq<char>>(msg@),
        },
{
    let blen = user.as_bytes().len();
    assert(utf8_len(user@) == blen);
    if blen < 3 || blen > 20 {
        return Err(String::from_str("username must be 3-20 characters"));
    }
    let cs = chars_of(user);
    let mut k: usize = 0;
    while k < cs.len()
        invariant
            cs@ == user@,
            alnum@.len() == user@.len(),
            k <= cs@.len(),
            forall|j: int| 0 <= j < k ==> alnum@[j] || cs@[j] == '_',
            utf8_len(user@) == blen,
            3 <= blen <= 20,
        decreases cs@.len() - k,
    {
        if !(alnum[k] || cs[k] == '_') {
            assert(!(alnum@[k as int] || user@[k as int] == '_'));
            return Err(String::from_str("username may only contain letters, numbers, and underscores"));
        }
        k = k + 1;
    }
    Ok(())
}

/// Check the arguments of a REGISTER command: split off the license key, and
/// validate the username (3-20 bytes; letters, digits and underscores).
pub fn check_registration(rest: &str) -> (r: Result<(String, String), String>)
    ensures
        match r {
            Ok((key, user)) => registration_outcome(rest@) == Ok::<(Seq<char>, Seq<char>), Seq<char>>(
                (key@, user@),
            ),
            Err(msg) => registration_outcome(rest@) == Err::<(Seq<char>, Seq<char>), Seq<char>>(msg@),
        },
{
    let cs = chars_of(rest);
    match find_char(cs.as_slice(), ' ') {
        None => Err(String::from_str("usage: REGISTER <license_key> <username>")),
        Some(i) => {
            proof {
                crate::net::relay::lemma_first_space_at(cs@, i as int);
            }
            let key = chars_until(cs.as_slice(), i);
            let user = trim_chars(chars_from(cs.as_slice(), i + 1).as_slice());
            let mut alnum: Vec<bool> = Vec::new();
            let mut k: usize = 0;
            while k < user.len()
                invariant
                    k <= user@.len(),
                    alnum@.len() == k,
                    forall|j: int| 0 <= j < k ==> alnum@[j] == alphanumeric(#[trigger] user@[j]),
                decreases user@.len() - k,
            {
                alnum.push(char_is_alphanumeric(user[k]));
                k = k + 1;
            }
            let user_s = string_of(user.as_slice());
            proof {
                assert(username_chars_ok(user@) <==> !exists|j: int|
                    0 <= j < user@.len() && !(alnum@[j] || user@[j] == '_')) by {
                    if username_chars_ok(user@) {
                        assert forall|j: int| 0 <= j < user@.len() implies (alnum@[j] || user@[j] == '_') by {
                            assert(alphanumeric(user@[j]) || user@[j] == '_');
                        }
                    }
                    if !username_chars_ok(user@) {
                        let j = choose|j: int| 0 <= j < user@.len() && !(alphanumeric(#[trigger] user@[j]) || user@[j] == '_');
                        assert(!(alnum@[j] || user@[j] == '_'));
                    }
                }
            }
            match username_verdict(user_s.as_str(), alnum.as_slice()) {
                Ok(()) => Ok((string_of(key.as_slice()), user_s)),
                Err(msg) => Err(msg),
            }
        },
    }
}

/// The room-code character a random byte selects.
pub open spec fn code_char(b: u8) -> char {
    CODE_CHARS@[(b % 32) as int]
}

/// Turn random bytes into a room code, one code character per byte.
pub fn room_code(bytes: &[u8]) -> (code: String)
    ensures
        code@ == bytes@.map_values(|b: u8| code_char(b)),
{
    let mut code = String::new();
    let mut i: usize = 0;
    while i < bytes.len()
        invariant
            i <= bytes@.len(),
            code@ == bytes@.subrange(0, i as int).map_values(|b: u8| code_char(b)),
        decreases bytes@.len() - i,
    {
        let b = bytes[i];
        push_char(&mut code, CODE_CHARS[(b % 32) as usize]);
        i = i + 1;
        assert(code@ =~= bytes@.subrange(0, i as int).map_values(|b: u8| code_char(b)));
    }
    assert(bytes@.subrange(0, bytes@.len() as int) =~= bytes@);
    code
}

/// Names joined by commas.
pub open spec fn joined_commas(names: Seq<Seq<char>>) -> Seq<char>
    decreases names.len(),
{
    if names.len() == 0 {
        Seq::empty()
    } else if names.len() == 1 {
        names[0]
    } else {
        joined_commas(names.drop_last()) + seq![','] + names.last()
    }
}

/// The reply line to FRIENDS LIST.
pub open spec fn friends_line(names: Seq<Seq<char>>) -> Seq<char> {
    if names.len() == 0 {
        "FRIENDS\n"@
    } else {
        "FRIENDS "@ + joined_commas(names) + seq!['\n']
    }
}

/// Build the reply line to FRIENDS LIST.
pub fn friends_reply(names: &[String]) -> (line: String)
    ensures
        line@ == friends_line(names@.map_values(|s: String| s@)),
{
    let ghost views = names@.map_values(|s: String| s@);
    if names.len() == 0 {
        return String::from_str("FRIENDS\n");
    }
    let mut line = String::from_str("FRIENDS ");
    let mut i: usize = 0;
    while i < names.len()
        invariant
            1 <= names@.len(),
            views == names@.map_values(|s: String| s@),
            i <= names@.len(),
            line@ == "FRIENDS "@ + joined_commas(views.take(i as int)),
        decreases names@.len() - i,
    {
        if i > 0 {
            push_char(&mut line, ',');
        }
        line.append(names[i].as_str());
        proof {
            assert(views.take(i + 1).drop_last() =~= views.take(i as int));
            if i == 0 {
                assert(joined_commas(views.take(1)) == views.take(1)[0]);
            }
        }
        i = i + 1;
        assert(line@ =~= "FRIENDS "@ + joined_commas(views.take(i as int)));
    }
    push_char(&mut line, '\n');
    assert(views.take(names@.len() as int) =~= views);
    line
}

/// The reply line to a successful LOGIN.
pub open spec fn session_line(token: Seq<char>, username: Seq<char>) -> Seq<char> {
    "SESSION "@ + token + seq![' '] + username + seq!['\n']
}

/// Build the reply line to a successful LOGIN.
pub fn session_reply(token: &str, username: &str) -> (line: String)
    ensures
        line@ == session_line(token@, username@),
{
    let mut line = String::from_str("SESSION ");
    line.append(token);
    push_char(&mut line, ' ');
    line.append(username);
    push_char(&mut line, '\n');
    line
}

/// The message pushed to a user's presence connection when someone calls.
pub open spec fn incoming_line(caller: Seq<char>, code: Seq<char>) -> Seq<char> {
    "INCOMING "@ + caller + seq![' '] + code + seq!['\n']
}

/// Build the message pushed to a user's presence connection when someone calls.
pub fn incoming_message(caller: &str, code: &str) -> (line: String)
    ensures
        line@ == incoming_line(caller@, code@),
{
    let mut line = String::from_str("INCOMING ");
    line.append(caller);
    push_char(&mut line, ' ');
    line.append(code);
    push_char(&mut line, '\n');
    line
}

/// The reply line to a successful AUTH.
pub open spec fn auth_ok_line(username: Seq<char>) -> Seq<char> {
    "OK "@ + username + seq!['\n']
}

/// Build the reply line to a successful AUTH.
pub fn auth_ok_reply(username: &str) -> (line: String)
    ensures
        line@ == auth_ok_line(username@),
{
    let mut line = String::from_str("OK ");
    line.append(username);
    push_char(&mut line, '\n');
    line
}

/// The reply line to a created room.
pub open spec fn room_line(code: Seq<char>) -> Seq<char> {
    "ROOM "@ + code + seq!['\n']
}

/// Build the reply line to a created room.
pub fn room_reply(code: &str) -> (line: String)
    ensures
        line@ == room_line(code@),
{
    let mut line = String::from_str("ROOM ");
    line.append(code);
    push_char(&mut line, '\n');
    line
}

/// Whether `s` holds the character `c`.
pub open spec fn holds(s: Seq<char>, c: char) -> bool {
    exists|k: int| 0 <= k < s.len() && s[k] == c
}

/// A non-empty string without white space at either end.
pub open spec fn tight(s: Seq<char>) -> bool {
    s.len() > 0 && !is_space(s[0]) && !is_space(s.last())
}

/// Splitting `a b` at its first space gives back `a` and `b` when `a` holds no space.
proof fn lemma_space_split(a: Seq<char>, b: Seq<char>)
    requires
        !holds(a, ' '),
    ensures
        first_space(a + seq![' '] + b) == Some(a.len() as int),
        (a + seq![' '] + b).take(a.len() as int) == a,
        (a + seq![' '] + b).skip(a.len() as int + 1) == b,
{
    let rest = a + seq![' '] + b;
    assert forall|j: int| 0 <= j < a.len() implies rest[j] != ' ' by {
        assert(rest[j] == a[j]);
    }
    lemma_first_space_at(rest, a.len() as int);
    assert(rest.skip(a.len() as int + 1) =~= b);
    assert(rest.take(a.len() as int) =~= a);
}

/// The client reads back the session the server hands out: for a token
/// without spaces and a username that does not end in white space, the
/// LOGIN reply gives that username and token.
#[verifier::spinoff_prover]
pub proof fn lemma_login_reply(token: Seq<char>, username: Seq<char>)
    requires
        !holds(token, ' '),
        username.len() > 0,
        !is_space(username.last()),
    ensures
        login_outcome(session_line(token, username)) == Ok::<(Seq<char>, Seq<char>), Seq<char>>(
            (username, token),
        ),
{
    reveal_strlit("SESSION ");
    let rest = token + seq![' '] + username;
    let body = "SESSION "@ + rest;
    assert(body.last() == username.last());
    lemma_trim_exact(body);
    assert(session_line(token, username) =~= body + seq!['\n']);
    assert(body.take(8) =~= "SESSION "@);
    assert(body.skip(8) =~= rest);
    lemma_space_split(token, username);
}

proof fn lemma_split_no_sep(q: Seq<char>, sep: char)
    requires
        !holds(q, sep),
    ensures
        split_on(q, sep) == seq![q],
    decreases q.len(),
{
    if q.len() == 0 {
        assert(q =~= Seq::<char>::empty());
    } else {
        assert(!holds(q.drop_last(), sep)) by {
            if holds(q.drop_last(), sep) {
                let k = choose|k: int| 0 <= k < q.drop_last().len() && q.drop_last()[k] == sep;
                assert(q[k] == sep);
            }
        }
        lemma_split_no_sep(q.drop_last(), sep);
        assert(q[q.len() - 1] == q.last());
        assert(q.last() != sep);
        assert(q.drop_last().push(q.last()) =~= q);
        assert(seq![q.drop_last()].update(0, q) =~= seq![q]);
    }
}

proof fn lemma_split_concat(p: Seq<char>, q: Seq<char>, sep: char)
    requires
        !holds(q, sep),
    ensures
        split_on(p + seq![sep] + q, sep) == split_on(p, sep).push(q),
    decreases q.len(),
{
    if q.len() == 0 {
        assert(q =~= Seq::<char>::empty());
        assert(p + seq![sep] + q =~= p.push(sep));
        assert((p + seq![sep] + q).drop_last() =~= p);
    } else {
        let q2 = q.drop_last();
        assert(!holds(q2, sep)) by {
            if holds(q2, sep) {
                let k = choose|k: int| 0 <= k < q2.len() && q2[k] == sep;
                assert(q[k] == sep);
            }
        }
        lemma_split_concat(p, q2, sep);
        let whole = p + seq![sep] + q;
        assert(whole.drop_last() =~= p + seq![sep] + q2);
        assert(whole.last() == q.last());
        assert(q[q.len() - 1] == q.last());
        assert(q.last() != sep);
        let sp = split_on(p, sep);
        assert(q2.push(q.last()) =~= q);
        assert(sp.push(q2).last() == q2);
        assert(sp.push(q2).update(sp.len() as int, q) =~= sp.push(q));
    }
}

proof fn lemma_split_joined(names: Seq<Seq<char>>)
    requires
        names.len() > 0,
        forall|i: int| 0 <= i < names.len() ==> !holds(#[trigger] names[i], ','),
    ensures
        split_on(joined_commas(names), ',') == names,
    decreases names.len(),
{
    if names.len() == 1 {
        lemma_split_no_sep(names[0], ',');
        assert(seq![names[0]] =~= names);
    } else {
        let init = names.drop_last();
        assert forall|i: int| 0 <= i < init.len() implies !holds(#[trigger] init[i], ',') by {
            assert(init[i] == names[i]);
        }
        lemma_split_joined(init);
        assert(!holds(names[names.len() - 1], ','));
        lemma_split_concat(joined_commas(init), names.last(), ',');
        assert(init.push(names.last()) =~= names);
    }
}

proof fn lemma_joined_ends(names: Seq<Seq<char>>)
    requires
        names.len() > 0,
        forall|i: int| 0 <= i < names.len() ==> #[trigger] names[i].len() > 0,
    ensures
        joined_commas(names).len() > 0,
        joined_commas(names)[0] == names[0][0],
        joined_commas(names).last() == names.last().last(),
    decreases names.len(),
{
    if names.len() > 1 {
        let init = names.drop_last();
        assert forall|i: int| 0 <= i < init.len() implies #[trigger] init[i].len() > 0 by {
            assert(init[i] == names[i]);
        }
        lemma_joined_ends(init);
        assert(names[names.len() - 1].len() > 0);
    }
}

/// The client reads back the friends list the server sends: for names that
/// are non-empty, hold no comma and have no white space at either end, the
/// FRIENDS LIST reply gives exactly those names, in order (none for an empty list).
pub proof fn lemma_friends_reply(names: Seq<Seq<char>>)
    requires
        forall|i: int| 0 <= i < names.len() ==> tight(#[trigger] names[i]) && !holds(names[i], ','),
    ensures
        friends_outcome(friends_line(names)) == Ok::<Seq<Seq<char>>, Seq<char>>(names),
{
    reveal_strlit("FRIENDS");
    reveal_strlit("FRIENDS ");
    reveal_strlit("FRIENDS\n");
    if names.len() == 0 {
        assert(names =~= Seq::<Seq<char>>::empty());
        assert("FRIENDS\n"@ =~= "FRIENDS"@ + seq!['\n']);
        lemma_trim_exact("FRIENDS"@);
    } else {
        let j = joined_commas(names);
        lemma_joined_ends(names);
        assert(names[names.len() - 1] == names.last());
        let body = "FRIENDS "@ + j;
        assert(body.last() == j.last());
        lemma_trim_exact(body);
        assert(friends_line(names) =~= body + seq!['\n']);
        assert(body.take(8) =~= "FRIENDS "@);
        assert(body.len() != "FRIENDS"@.len());
        assert(body.skip(8) =~= j);
        assert forall|i: int| 0 <= i < names.len() implies !holds(#[trigger] names[i], ',') by {}
        lemma_split_joined(names);
        assert forall|i: int| 0 <= i < names.len() implies crate::text::trimmed(#[trigger] names[i]) == names[i] by {
            lemma_trim_exact(names[i]);
        }
        let r = friends_outcome(friends_line(names));
        assert(r == Ok::<Seq<Seq<char>>, Seq<char>>(
            split_on(j, ',').map_values(|p: Seq<char>| crate::text::trimmed(p)),
        ));
        assert(r->Ok_0 =~= names);
    }
}

/// The callee's client reads back the call notification the server pushes:
/// for a caller name without spaces and a room code without white space at
/// either end, the line names that caller and that code.
#[verifier::spinoff_prover]
pub proof fn lemma_incoming_reply(caller: Seq<char>, code: Seq<char>)
    requires
        !holds(caller, ' '),
        tight(code),
    ensures
        !is_ping(incoming_line(caller, code)),
        incoming_of(incoming_line(caller, code)) == Some((caller, code)),
{
    reveal_strlit("INCOMING ");
    reveal_strlit("PING");
    let rest = caller + seq![' '] + code;
    let body = "INCOMING "@ + rest;
    assert(body.last() == code.last());
    lemma_trim_exact(body);
    assert(incoming_line(caller, code) =~= body + seq!['\n']);
    assert(body.len() != "PING"@.len());
    assert(body.take(9) =~= "INCOMING "@);
    assert(body.skip(9) =~= rest);
    lemma_space_split(caller, code);
}

/// An authenticated connection is accepted by the client: the AUTH reply for
/// a username that does not end in white space is read as success.
pub proof fn lemma_auth_reply(username: Seq<char>)
    requires
        username.len() > 0,
        !is_space(username.last()),
    ensures
        auth_outcome(auth_ok_line(username)) == Ok::<(), Seq<char>>(()),
{
    reveal_strlit("OK ");
    let body = "OK "@ + username;
    assert(body.last() == username.last());
    lemma_trim_exact(body);
    assert(auth_ok_line(username) =~= body + seq!['\n']);
    assert(body.take(3) =~= "OK "@);
}

/// The caller's client reads back the room the server created: for a code
/// without white space at either end, the CALL reply gives that code.
pub proof fn lemma_room_reply(code: Seq<char>)
    requires
        tight(code),
    ensures
        call_outcome(room_line(code)) == Ok::<Seq<char>, Seq<char>>(code),
{
    reveal_strlit("ROOM ");
    let body = "ROOM "@ + code;
    assert(body.last() == code.last());
    lemma_trim_exact(body);
    lemma_trim_exact(code);
    assert(room_line(code) =~= body + seq!['\n']);
    assert(body.take(5) =~= "ROOM "@);
    assert(body.skip(5) =~= code);
}

/// Room codes are made of code characters only, so they are tight and hold
/// no space, and one code character comes from each random byte.
pub proof fn lemma_room_code_tight(bytes: Seq<u8>)
    requires
        bytes.len() > 0,
    ensures
        tight(bytes.map_values(|b: u8| code_char(b))),
        !holds(bytes.map_values(|b: u8| code_char(b)), ' '),
        bytes.map_values(|b: u8| code_char(b)).len() == bytes.len(),
{
    let code = bytes.map_values(|b: u8| code_char(b));
    assert forall|k: int| 0 <= k < code.len() implies !is_space(#[trigger] code[k]) && code[k] != ' ' by {
        assert(code[k] == CODE_CHARS@[(bytes[k] % 32) as int]);
    }
    assert(code[code.len() - 1] == code.last());
}

} // verus!
