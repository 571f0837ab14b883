//! Server side of accounts and friends: the replies the relay server sends
//! once its database and the license service have answered.
use vstd::prelude::*;

use crate::config::{contains_chars, occurs};
use crate::net::relay::login_outcome;
use crate::net::server::{holds, lemma_login_reply, session_line, session_reply};
use crate::text::is_space;
use crate::text::{chars_of, push_char};

verus! {

/// The line the server sends to refuse a command.
pub open spec fn error_line(msg: Seq<char>) -> Seq<char> {
    "ERR "@ + msg + seq!['\n']
}

/// Build a refusal line.
pub fn error_reply(msg: &str) -> (line: String)
    ensures
        line@ == error_line(msg@),
{
    let mut line = String::from_str("ERR ");
    line.append(msg);
    push_char(&mut line, '\n');
    line
}

/// Whether a database error says a unique key was violated.
pub open spec fn duplicate_error(db_message: Seq<char>) -> bool {
    occurs(db_message, "unique"@) || occurs(db_message, "duplicate"@)
}

/// The reply to a REGISTER whose key the license service accepted, from
/// what storing the user came to: `OK`, or a refusal that tells a taken
/// name or key apart from other failures.
pub open spec fn registered_line(stored: Result<(), Seq<char>>) -> Seq<char> {
    match stored {
        Ok(()) => "OK\n"@,
        Err(m) => if duplicate_error(m) {
            error_line("username or license key already registered"@)
        } else {
            error_line("server error"@)
        },
    }
}

/// Reply to a REGISTER once the user was stored (or not).
pub fn registered_reply(stored: Result<(), String>) -> (line: String)
    ensures
        line@ == registered_line(
            match stored {
                Ok(()) => Ok(()),
                Err(m) => Err(m@),
            },
        ),
{
    match stored {
        Ok(()) => String::from_str("OK\n"),
        Err(m) => {
            let cs = chars_of(m.as_str());
            if contains_chars(cs.as_slice(), chars_of("unique").as_slice()) || contains_chars(
                cs.as_slice(),
                chars_of("duplicate").as_slice(),
            ) {
                error_reply("username or license key already registered")
            } else {
                error_reply("server error")
            }
        },
    }
}

/// The reply to LOGIN: the session for a registered key whose session was
/// stored; a refusal for an unknown key; a server error when the lookup or
/// the storing of the session failed.
pub open spec fn login_line(found: Result<Option<Seq<char>>, ()>, token: Seq<char>, stored: bool) -> Seq<char> {
    match found {
        Ok(Some(username)) => if stored {
            session_line(token, username)
        } else {
            error_line("server error"@)
        },
        Ok(None) => error_line("license key not registered"@),
        Err(()) => error_line("server error"@),
    }
}

/// Whether `s` is a UUID in hyphenated lower-case form: 36 characters, '-'
/// at positions 8, 13, 18 and 23 and a hexadecimal digit (0-9, a-f) at the
/// others.
pub open spec fn uuid_shaped(s: Seq<char>) -> bool {
    &&& s.len() == 36
    &&& forall|i: int|
        0 <= i < 36 ==> if i == 8 || i == 13 || i == 18 || i == 23 {
            s[i] == '-'
        } else {
            (48 <= (#[trigger] s[i]) as int <= 57) || (97 <= s[i] as int <= 102)
        }
}

/// A random version-4 UUID as text.
///
/// Calls `uuid::Uuid::new_v4` and formats it with `to_string`; the uuid
/// source writes a UUID as 32 lower-case hexadecimal digits in groups of
/// 8-4-4-4-12 joined by '-'. The digits come from a random source, so the
/// contract claims only that shape.
#[verifier::external_body]
fn random_uuid_text() -> (t: String)
    ensures
        uuid_shaped(t@),
{
    uuid::Uuid::new_v4().to_string()
}

/// A fresh session token for a LOGIN: a random UUID in hyphenated form,
/// which holds no space.
pub fn new_session_token() -> (t: String)
    ensures
        uuid_shaped(t@),
        !holds(t@, ' '),
{
    let t = random_uuid_text();
    proof {
        lemma_uuid_no_space(t@);
    }
    t
}

proof fn lemma_uuid_no_space(t: Seq<char>)
    requires
        uuid_shaped(t),
    ensures
        !holds(t, ' '),
{
    if holds(t, ' ') {
        let k = choose|k: int| 0 <= k < t.len() && t[k] == ' ';
        assert((48 <= t[k] as int <= 57) || (97 <= t[k] as int <= 102) || t[k] == '-');
    }
}

/// A client reads back the session a LOGIN hands out: with a token made by
/// `new_session_token` and a username that does not end in white space, the
/// reply gives that username and token.
pub proof fn lemma_session_read_back(token: Seq<char>, username: Seq<char>)
    requires
        uuid_shaped(token),
        username.len() > 0,
        !is_space(username.last()),
    ensures
        login_outcome(login_line(Ok(Some(username)), token, true)) == Ok::<(Seq<char>, Seq<char>), Seq<char>>(
            (username, token),
        ),
{
    lemma_uuid_no_space(token);
    lemma_login_reply(token, username);
}

/// Reply to LOGIN from the user lookup (`Err` when it failed), the new
/// session token and whether the session was stored.
pub fn login_reply(found: Result<Option<String>, ()>, token: &str, stored: bool) -> (line: String)
    ensures
        line@ == login_line(
            match found {
                Ok(Some(u)) => Ok(Some(u@)),
                Ok(None) => Ok(None),
                Err(()) => Err(()),
            },
            token@,
            stored,
        ),
{
    match found {
        Ok(Some(username)) => {
            if stored {
                session_reply(token, username.as_str())
            } else {
                error_reply("server error")
            }
        },
        Ok(None) => error_reply("license key not registered"),
        Err(()) => error_reply("server error"),
    }
}

/// Whether `FRIENDS ADD` may store the friendship: the friend must exist and
/// must not be the user (compared by license key).
pub open spec fn friend_add_outcome(own_key: Seq<char>, friend_key: Option<Seq<char>>) -> Result<(), Seq<char>> {
    match friend_key {
        None => Err("user not found"@),
        Some(k) => if k == own_key {
            Err("cannot friend yourself"@)
        } else {
            Ok(())
        },
    }
}

/// Characters of an optional string slice.
pub open spec fn str_opt(o: Option<&str>) -> Option<Seq<char>> {
    match o {
        Some(s) => Some(s@),
        None => None,
    }
}

/// Check a `FRIENDS ADD` against the friend's license key as looked up.
pub fn friend_add_check(own_key: &str, friend_key: Option<&str>) -> (r: Result<(), String>)
    ensures
        match r {
            Ok(()) => friend_add_outcome(own_key@, str_opt(friend_key)) == Ok::<(), Seq<char>>(()),
            Err(m) => friend_add_outcome(own_key@, str_opt(friend_key)) == Err::<(), Seq<char>>(m@),
        },
{
    match friend_key {
        None => Err(String::from_str("user not found")),
        Some(k) => {
            if crate::text::str_eq(k, own_key) {
                Err(String::from_str("cannot friend yourself"))
            } else {
                Ok(())
            }
        },
    }
}

} // verus!
