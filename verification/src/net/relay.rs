//! Client side of the relay text protocol: what each reply line of the relay
//! server means. The caller sends the command line and reads the reply; these
//! functions decide the outcome.
use vstd::prelude::*;

use crate::text::{chars_from, chars_of, chars_until, find_char, has_prefix, push_chars, starts_with, string_of, trim_chars, trimmed};

verus! {

/// The relay server address.
pub const RELAY_ADDR: &'static str = "caboose.proxy.rlwy.net:28007";

/// The error text of a reply: the reply without its `ERR ` prefix, if it has one.
pub open spec fn error_text(t: Seq<char>) -> Seq<char> {
    if has_prefix(t, "ERR "@) {
        t.skip(4)
    } else {
        t
    }
}

/// The error message of a trimmed reply.
pub fn error_message(t: &[char]) -> (msg: String)
    ensures
        msg@ == error_text(t@),
{
    let p = chars_of("ERR ");
    if starts_with(t, p.as_slice()) {
        proof {
            reveal_strlit("ERR ");
        }
        let rest = chars_from(t, 4);
        string_of(rest.as_slice())
    } else {
        string_of(t)
    }
}

/// Result of a REGISTER reply: `OK` registers; anything else is refused with
/// its error text. (A successful registration is followed by a login.)
pub open spec fn register_outcome(reply: Seq<char>) -> Result<(), Seq<char>> {
    let t = trimmed(reply);
    if t == "OK"@ {
        Ok(())
    } else {
        Err(error_text(t))
    }
}

/// Decide the reply to `REGISTER <key> <username>`.
pub fn register(reply: &str) -> (r: Result<(), String>)
    ensures
        match r {
            Ok(()) => register_outcome(reply@) == Ok::<(), Seq<char>>(()),
            Err(msg) => register_outcome(reply@) == Err::<(), Seq<char>>(msg@),
        },
{
    let t = trim_chars(chars_of(reply).as_slice());
    let ok = chars_of("OK");
    if same_chars(t.as_slice(), ok.as_slice()) {
        Ok(())
    } else {
        Err(error_message(t.as_slice()))
    }
}

/// Whether two char slices are equal.
pub fn same_chars(a: &[char], b: &[char]) -> (r: bool)
    ensures
        r == (a@ == b@),
{
    if a.len() != b.len() {
        return false;
    }
    let mut i: usize = 0;
    while i < a.len()
        invariant
            a@.len() == b@.len(),
            i <= a@.len(),
            forall|k: int| 0 <= k < i ==> a@[k] == b@[k],
        decreases a@.len() - i,
    {
        if a[i] != b[i] {
            return false;
        }
        i = i + 1;
    }
    assert(a@ =~= b@);
    true
}

/// Index of the first space in `s`, if any.
pub open spec fn first_space(s: Seq<char>) -> Option<int> {
    if exists|i: int| 0 <= i < s.len() && s[i] == ' ' {
        Some(choose|i: int| 0 <= i < s.len() && s[i] == ' ' && forall|j: int| 0 <= j < i ==> s[j] != ' ')
    } else {
        None
    }
}

/// `first_space` finds the first space: a space with none before it is the one.
pub proof fn lemma_first_space_at(s: Seq<char>, i: int)
    requires
        0 <= i < s.len(),
        s[i] == ' ',
        forall|j: int| 0 <= j < i ==> s[j] != ' ',
    ensures
        first_space(s) == Some(i),
{
    let k = choose|k: int| 0 <= k < s.len() && s[k] == ' ' && forall|j: int| 0 <= j < k ==> s[j] != ' ';
    assert(s[i] == ' ');
    if k < i {
        assert(s[k] != ' ');
    } else if k > i {
        assert(s[i] != ' ');
    }
}

/// Result of a LOGIN reply: `SESSION <token> <username>` gives
/// `(username, token)`; a SESSION line without a second field is unexpected;
/// anything else is refused with its error text.
pub open spec fn login_outcome(reply: Seq<char>) -> Result<(Seq<char>, Seq<char>), Seq<char>> {
    let t = trimmed(reply);
    if has_prefix(t, "SESSION "@) {
        let rest = t.skip(8);
        match first_space(rest) {
            Some(i) => Ok((rest.skip(i + 1), rest.take(i))),
            None => Err("unexpected response: "@ + t),
        }
    } else {
        Err(error_text(t))
    }
}

/// Decide the reply to `LOGIN <key>`: the username and session token.
pub fn login(reply: &str) -> (r: Result<(String, String), String>)
    ensures
        match r {
            Ok((u, t)) => login_outcome(reply@) == Ok::<(Seq<char>, Seq<char>), Seq<char>>((u@, t@)),
            Err(msg) => login_outcome(reply@) == Err::<(Seq<char>, Seq<char>), Seq<char>>(msg@),
        },
{
    let t = trim_chars(chars_of(reply).as_slice());
    proof {
        reveal_strlit("SESSION ");
    }
    if starts_with(t.as_slice(), chars_of("SESSION ").as_slice()) {
        let rest = chars_from(t.as_slice(), 8);
        let n = rest.len();
        match find_char(rest.as_slice(), ' ') {
            Some(i) => {
                proof {
                    lemma_first_space_at(rest@, i as int);
                }
                let token = chars_until(rest.as_slice(), i);
                let username = chars_from(rest.as_slice(), i + 1);
                Ok((string_of(username.as_slice()), string_of(token.as_slice())))
            },
            None => {
                let mut msg = String::from_str("unexpected response: ");
                push_chars(&mut msg, t.as_slice());
                Err(msg)
            },
        }
    } else {
        Err(error_message(t.as_slice()))
    }
}

/// Result of the AUTH reply that opens an authenticated command: `OK <username>`
/// accepts; anything else fails with "auth failed: " and the reply.
pub open spec fn auth_outcome(reply: Seq<char>) -> Result<(), Seq<char>> {
    let t = trimmed(reply);
    if has_prefix(t, "OK "@) {
        Ok(())
    } else {
        Err("auth failed: "@ + t)
    }
}

/// Decide the reply to `AUTH <token>`.
pub fn auth(reply: &str) -> (r: Result<(), String>)
    ensures
        match r {
            Ok(()) => auth_outcome(reply@) == Ok::<(), Seq<char>>(()),
            Err(msg) => auth_outcome(reply@) == Err::<(), Seq<char>>(msg@),
        },
{
    let t = trim_chars(chars_of(reply).as_slice());
    if starts_with(t.as_slice(), chars_of("OK ").as_slice()) {
        Ok(())
    } else {
        let mut msg = String::from_str("auth failed: ");
        push_chars(&mut msg, t.as_slice());
        Err(msg)
    }
}

/// The pieces of `s` between occurrences of `sep`, as `str::split` gives them
/// (an empty `s` gives one empty piece).
pub open spec fn split_on(s: Seq<char>, sep: char) -> Seq<Seq<char>>
    decreases s.len(),
{
    if s.len() == 0 {
        seq![Seq::empty()]
    } else {
        let p = split_on(s.drop_last(), sep);
        if s.last() == sep {
            p.push(Seq::empty())
        } else {
            p.update(p.len() - 1, p.last().push(s.last()))
        }
    }
}

proof fn lemma_split_nonempty(s: Seq<char>, sep: char)
    ensures
        split_on(s, sep).len() >= 1,
    decreases s.len(),
{
    if s.len() > 0 {
        lemma_split_nonempty(s.drop_last(), sep);
    }
}

/// The pieces of `s` between commas, each trimmed.
pub fn split_trimmed(s: &[char], sep: char) -> (r: Vec<String>)
    ensures
        r@.len() == split_on(s@, sep).len(),
        forall|i: int| 0 <= i < r@.len() ==> #[trigger] r@[i]@ == trimmed(split_on(s@, sep)[i]),
{
    let mut done: Vec<String> = Vec::new();
    let mut cur: Vec<char> = Vec::new();
    let mut i: usize = 0;
    while i < s.len()
        invariant
            i <= s@.len(),
            done@.len() + 1 == split_on(s@.take(i as int), sep).len(),
            forall|k: int|
                0 <= k < done@.len() ==> #[trigger] done@[k]@ == trimmed(split_on(s@.take(i as int), sep)[k]),
            cur@ == split_on(s@.take(i as int), sep).last(),
        decreases s@.len() - i,
    {
        let ghost prev = s@.take(i as int);
        proof {
            assert(s@.take(i + 1).drop_last() =~= prev);
            lemma_split_nonempty(prev, sep);
        }
        if s[i] == sep {
            let piece = trim_chars(cur.as_slice());
            done.push(string_of(piece.as_slice()));
            cur = Vec::new();
        } else {
            cur.push(s[i]);
        }
        i = i + 1;
    }
    let piece = trim_chars(cur.as_slice());
    done.push(string_of(piece.as_slice()));
    proof {
        assert(s@.take(s@.len() as int) =~= s@);
    }
    done
}

/// Result of a FRIENDS LIST reply: `FRIENDS` alone is an empty list,
/// `FRIENDS a,b,...` the comma-separated names (each trimmed), anything else
/// is refused with its error text.
pub open spec fn friends_outcome(reply: Seq<char>) -> Result<Seq<Seq<char>>, Seq<char>> {
    let t = trimmed(reply);
    if t == "FRIENDS"@ {
        Ok(Seq::empty())
    } else if has_prefix(t, "FRIENDS "@) {
        Ok(split_on(t.skip(8), ',').map_values(|p: Seq<char>| trimmed(p)))
    } else {
        Err(error_text(t))
    }
}

/// Decide the reply to `FRIENDS LIST`: the friends' usernames.
pub fn friends_list(reply: &str) -> (r: Result<Vec<String>, String>)
    ensures
        match r {
            Ok(names) => friends_outcome(reply@) == Ok::<Seq<Seq<char>>, Seq<char>>(
                names@.map_values(|s: String| s@),
            ),
            Err(msg) => friends_outcome(reply@) == Err::<Seq<Seq<char>>, Seq<char>>(msg@),
        },
{
    let t = trim_chars(chars_of(reply).as_slice());
    proof {
        reveal_strlit("FRIENDS");
        reveal_strlit("FRIENDS ");
    }
    if same_chars(t.as_slice(), chars_of("FRIENDS").as_slice()) {
        let names: Vec<String> = Vec::new();
        assert(names@.map_values(|s: String| s@) =~= Seq::<Seq<char>>::empty());
        Ok(names)
    } else if starts_with(t.as_slice(), chars_of("FRIENDS ").as_slice()) {
        let rest = chars_from(t.as_slice(), 8);
        let names = split_trimmed(rest.as_slice(), ',');
        assert(names@.map_values(|s: String| s@) =~= split_on(rest@, ',').map_values(
            |p: Seq<char>| trimmed(p),
        ));
        Ok(names)
    } else {
        Err(error_message(t.as_slice()))
    }
}

/// Result of an `OK`-or-error reply (FRIENDS ADD, FRIENDS REMOVE).
pub open spec fn ok_outcome(reply: Seq<char>) -> Result<(), Seq<char>> {
    register_outcome(reply)
}

/// Decide the reply to `FRIENDS ADD <username>`.
pub fn friends_add(reply: &str) -> (r: Result<(), String>)
    ensures
        match r {
            Ok(()) => ok_outcome(reply@) == Ok::<(), Seq<char>>(()),
            Err(msg) => ok_outcome(reply@) == Err::<(), Seq<char>>(msg@),
        },
{
    register(reply)
}

/// Decide the reply to `FRIENDS REMOVE <username>`.
pub fn friends_remove(reply: &str) -> (r: Result<(), String>)
    ensures
        match r {
            Ok(()) => ok_outcome(reply@) == Ok::<(), Seq<char>>(()),
            Err(msg) => ok_outcome(reply@) == Err::<(), Seq<char>>(msg@),
        },
{
    register(reply)
}

/// Result of a CALL reply: `ROOM <code>` gives the room code (trimmed);
/// anything else is refused with its error text.
pub open spec fn call_outcome(reply: Seq<char>) -> Result<Seq<char>, Seq<char>> {
    let t = trimmed(reply);
    if has_prefix(t, "ROOM "@) {
        Ok(trimmed(t.skip(5)))
    } else {
        Err(error_text(t))
    }
}

/// Decide the reply to `CALL <username>`: the room code to join.
pub fn call_user(reply: &str) -> (r: Result<String, String>)
    ensures
        match r {
            Ok(code) => call_outcome(reply@) == Ok::<Seq<char>, Seq<char>>(code@),
            Err(msg) => call_outcome(reply@) == Err::<Seq<char>, Seq<char>>(msg@),
        },
{
    let t = trim_chars(chars_of(reply).as_slice());
    proof {
        reveal_strlit("ROOM ");
    }
    if starts_with(t.as_slice(), chars_of("ROOM ").as_slice()) {
        let rest = chars_from(t.as_slice(), 5);
        let code = trim_chars(rest.as_slice());
        Ok(string_of(code.as_slice()))
    } else {
        Err(error_message(t.as_slice()))
    }
}


/// The room code in the first reply to `CREATE` (`ROOM <code>`).
pub open spec fn created_code(reply: Seq<char>) -> Option<Seq<char>> {
    let t = trimmed(reply);
    if has_prefix(t, "ROOM "@) {
        Some(t.skip(5))
    } else {
        None
    }
}

/// Read the room code the relay gives a `CREATE`.
pub fn room_created(reply: &str) -> (r: Option<String>)
    ensures
        match r {
            Some(code) => created_code(reply@) == Some(code@),
            None => created_code(reply@) is None,
        },
{
    let t = trim_chars(chars_of(reply).as_slice());
    proof {
        reveal_strlit("ROOM ");
    }
    if starts_with(t.as_slice(), chars_of("ROOM ").as_slice()) {
        let rest = chars_from(t.as_slice(), 5);
        Some(string_of(rest.as_slice()))
    } else {
        None
    }
}

/// Whether the second reply to `CREATE` says a peer joined the room.
pub fn paired(reply: &str) -> (r: bool)
    ensures
        r == (trimmed(reply@) == "PAIRED"@),
{
    let t = trim_chars(chars_of(reply).as_slice());
    same_chars(t.as_slice(), chars_of("PAIRED").as_slice())
}

/// Result of the reply to `JOIN <code>`: `OK` joins; an `ERR` reply means
/// the room does not exist; anything else is unexpected.
pub open spec fn join_outcome(reply: Seq<char>, code: Seq<char>) -> Result<(), Seq<char>> {
    let t = trimmed(reply);
    if t == "OK"@ {
        Ok(())
    } else if has_prefix(t, "ERR"@) {
        Err("room not found: "@ + code)
    } else {
        Err("unexpected relay response"@)
    }
}

/// Decide the reply to `JOIN <code>`.
pub fn join_reply(reply: &str, code: &str) -> (r: Result<(), String>)
    ensures
        match r {
            Ok(()) => join_outcome(reply@, code@) == Ok::<(), Seq<char>>(()),
            Err(msg) => join_outcome(reply@, code@) == Err::<(), Seq<char>>(msg@),
        },
{
    let t = trim_chars(chars_of(reply).as_slice());
    if same_chars(t.as_slice(), chars_of("OK").as_slice()) {
        Ok(())
    } else if starts_with(t.as_slice(), chars_of("ERR").as_slice()) {
        let mut msg = String::from_str("room not found: ");
        push_chars(&mut msg, chars_of(code).as_slice());
        Err(msg)
    } else {
        Err(String::from_str("unexpected relay response"))
    }
}

} // verus!
