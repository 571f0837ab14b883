//! Presence connection messages: the relay keeps an authenticated connection
//! open and pushes incoming-call notifications over it.
use vstd::prelude::*;

use crate::net::relay::{first_space, same_chars};
use crate::text::{chars_from, chars_of, chars_until, find_char, has_prefix, starts_with, string_of, trim_chars, trimmed};

verus! {

/// Notification of an incoming call.
pub struct IncomingCall {
    pub caller: String,
    pub code: String,
}

/// What one line received on the presence connection means.
pub enum PresenceEvent {
    /// Keep-alive.
    Ping,
    /// Someone is calling: join room `code` to answer.
    Incoming(IncomingCall),
    /// Anything else, ignored.
    Other,
}

/// The (caller, code) of an `INCOMING <caller> <code>` line.
pub open spec fn incoming_of(line: Seq<char>) -> Option<(Seq<char>, Seq<char>)> {
    let t = trimmed(line);
    if has_prefix(t, "INCOMING "@) {
        let rest = t.skip(9);
        match first_space(rest) {
            Some(i) => Some((rest.take(i), rest.skip(i + 1))),
            None => None,
        }
    } else {
        None
    }
}

/// Whether a line is the keep-alive.
pub open spec fn is_ping(line: Seq<char>) -> bool {
    trimmed(line) == "PING"@
}

/// Classify one line received on the presence connection.
pub fn parse_presence_line(line: &str) -> (e: PresenceEvent)
    ensures
        match e {
            PresenceEvent::Ping => is_ping(line@),
            PresenceEvent::Incoming(call) => !is_ping(line@) && incoming_of(line@) == Some(
                (call.caller@, call.code@),
            ),
            PresenceEvent::Other => !is_ping(line@) && incoming_of(line@) is None,
        },
{
    let t = trim_chars(chars_of(line).as_slice());
    if same_chars(t.as_slice(), chars_of("PING").as_slice()) {
        return PresenceEvent::Ping;
    }
    proof {
        reveal_strlit("INCOMING ");
    }
    if starts_with(t.as_slice(), chars_of("INCOMING ").as_slice()) {
        let rest = chars_from(t.as_slice(), 9);
        let n = rest.len();
        match find_char(rest.as_slice(), ' ') {
            Some(i) => {
                proof {
                    crate::net::relay::lemma_first_space_at(rest@, i as int);
                }
                let caller = chars_until(rest.as_slice(), i);
                let code = chars_from(rest.as_slice(), i + 1);
                PresenceEvent::Incoming(
                    IncomingCall { caller: string_of(caller.as_slice()), code: string_of(code.as_slice()) },
                )
            },
            None => PresenceEvent::Other,
        }
    } else {
        PresenceEvent::Other
    }
}

} // verus!
