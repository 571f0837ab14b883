//! Reading string fields out of the JSON replies of the release and license
//! services by text search: the latest release tag, and the error a refused
//! license key comes back with.
use vstd::prelude::*;
use crate::config::{license_verdict, reply_valid, LicenseVerdict};
use crate::text::{chars_of, string_of};

verus! {

/// Whether `p` occurs in `s` at position `i`.
pub open spec fn occurs_at(s: Seq<char>, p: Seq<char>, i: int) -> bool {
    0 <= i && i + p.len() <= s.len() && s.subrange(i, i + p.len()) == p
}

/// The first position at or after `from` where `p` occurs in `s`.
pub open spec fn find_from(s: Seq<char>, p: Seq<char>, from: int) -> Option<int>
    decreases s.len() + 1 - from,
{
    if from < 0 || from + p.len() > s.len() {
        None
    } else if occurs_at(s, p, from) {
        Some(from)
    } else {
        find_from(s, p, from + 1)
    }
}

/// What follows the first occurrence of `key`, up to its next occurrence or
/// the end: the second piece of `body` split at `key`.
pub open spec fn after_key(body: Seq<char>, key: Seq<char>) -> Option<Seq<char>> {
    match find_from(body, key, 0) {
        None => None,
        Some(i) => {
            let a = i + key.len();
            let b = match find_from(body, key, a) {
                Some(j) => j,
                None => body.len() as int,
            };
            Some(body.subrange(a, b))
        },
    }
}

/// What follows the first '"' of `seg`, up to the next '"' or the end: the
/// second piece of `seg` split at '"'.
pub open spec fn first_quoted(seg: Seq<char>) -> Option<Seq<char>> {
    match find_from(seg, seq!['"'], 0) {
        None => None,
        Some(q) => {
            let e = match find_from(seg, seq!['"'], q + 1) {
                Some(r) => r,
                None => seg.len() as int,
            };
            Some(seg.subrange(q + 1, e))
        },
    }
}

/// The string value of field `key` (quotes included in `key`) as a text
/// search finds it: the first quoted text after the key.
pub open spec fn json_field(body: Seq<char>, key: Seq<char>) -> Option<Seq<char>> {
    match after_key(body, key) {
        None => None,
        Some(seg) => first_quoted(seg),
    }
}

/// `s` without its leading 'v's.
pub open spec fn strip_v(s: Seq<char>) -> Seq<char>
    decreases s.len(),
{
    if s.len() > 0 && s[0] == 'v' {
        strip_v(s.drop_first())
    } else {
        s
    }
}

/// The key of the release tag in a release description: `"tag_name"`.
pub open spec fn tag_name_key() -> Seq<char> {
    seq!['"', 't', 'a', 'g', '_', 'n', 'a', 'm', 'e', '"']
}

/// The key of the error message in a license reply: `"error"`.
pub open spec fn error_key() -> Seq<char> {
    seq!['"', 'e', 'r', 'r', 'o', 'r', '"']
}

/// The message shown when a refused license reply names no error.
pub open spec fn default_license_error() -> Seq<char> {
    seq![
        'i', 'n', 'v', 'a', 'l', 'i', 'd', ' ', 'l', 'i', 'c', 'e', 'n', 's', 'e', ' ', 'k', 'e', 'y',
    ]
}

/// Whether `p` occurs in `s` at position `i`.
fn occurs_at_exec(s: &Vec<char>, p: &Vec<char>, i: usize) -> (r: bool)
    ensures
        r == occurs_at(s@, p@, i as int),
{
    if p.len() > s.len() || i > s.len() - p.len() {
        return false;
    }
    let mut k: usize = 0;
    while k < p.len()
        invariant
            i + p@.len() <= s@.len(),
            s@.len() == s.len(),
            k <= p@.len(),
            forall|m: int| 0 <= m < k ==> s@[i + m] == p@[m],
        decreases p@.len() - k,
    {
        if s[i + k] != p[k] {
            assert(s@.subrange(i as int, i + p@.len())[k as int] != p@[k as int]);
            return false;
        }
        k = k + 1;
    }
    assert(s@.subrange(i as int, i + p@.len()) =~= p@);
    true
}

/// The first position at or after `from` where `p` occurs in `s`.
fn find_chars_from(s: &Vec<char>, p: &Vec<char>, from: usize) -> (r: Option<usize>)
    requires
        p@.len() > 0,
    ensures
        match r {
            Some(i) => find_from(s@, p@, from as int) == Some(i as int),
            None => find_from(s@, p@, from as int) is None,
        },
{
    if p.len() > s.len() {
        return None;
    }
    let last = s.len() - p.len();
    let mut i: usize = from;
    while i <= last
        invariant
            from <= i,
            p@.len() > 0,
            last == s@.len() - p@.len(),
            last + p@.len() == s.len(),
            find_from(s@, p@, from as int) == find_from(s@, p@, i as int),
        decreases last + 1 - i,
    {
        if occurs_at_exec(s, p, i) {
            return Some(i);
        }
        i = i + 1;
    }
    None
}

/// The characters of `s` from `a` up to `b`.
fn chars_between(s: &Vec<char>, a: usize, b: usize) -> (r: Vec<char>)
    requires
        a <= b <= s@.len(),
    ensures
        r@ == s@.subrange(a as int, b as int),
{
    let mut r: Vec<char> = Vec::new();
    let mut i: usize = a;
    while i < b
        invariant
            a <= i <= b <= s@.len(),
            r@ == s@.subrange(a as int, i as int),
        decreases b - i,
    {
        r.push(s[i]);
        i = i + 1;
        assert(r@ =~= s@.subrange(a as int, i as int));
    }
    r
}

proof fn lemma_find_from_bounds(s: Seq<char>, p: Seq<char>, from: int)
    ensures
        match find_from(s, p, from) {
            Some(i) => from <= i && occurs_at(s, p, i),
            None => true,
        },
    decreases s.len() + 1 - from,
{
    if !(from < 0 || from + p.len() > s.len()) && !occurs_at(s, p, from) {
        lemma_find_from_bounds(s, p, from + 1);
    }
}

/// The string value of field `key` in `body`, found by text search: the
/// text between the first two '"' after the first occurrence of `key`
/// (quotes included in `key`), stopping at the next occurrence of `key`.
pub fn json_string_field(body: &str, key: &str) -> (r: Option<String>)
    requires
        key@.len() > 0,
    ensures
        match r {
            Some(v) => json_field(body@, key@) == Some(v@),
            None => json_field(body@, key@) is None,
        },
{
    let b = chars_of(body);
    let k = chars_of(key);
    let i = match find_chars_from(&b, &k, 0) {
        Some(i) => i,
        None => return None,
    };
    proof {
        lemma_find_from_bounds(b@, k@, 0);
    }
    let blen = b.len();
    assert(i + k@.len() <= blen);
    let a = i + k.len();
    let end = match find_chars_from(&b, &k, a) {
        Some(j) => j,
        None => b.len(),
    };
    proof {
        lemma_find_from_bounds(b@, k@, a as int);
    }
    let seg = chars_between(&b, a, end);
    let quote: Vec<char> = vec!['"'];
    assert(quote@ =~= seq!['"']);
    let q = match find_chars_from(&seg, &quote, 0) {
        Some(q) => q,
        None => return None,
    };
    proof {
        lemma_find_from_bounds(seg@, quote@, 0);
    }
    let e = match find_chars_from(&seg, &quote, q + 1) {
        Some(e) => e,
        None => seg.len(),
    };
    proof {
        lemma_find_from_bounds(seg@, quote@, q + 1);
    }
    let v = chars_between(&seg, q + 1, e);
    Some(string_of(&v))
}

/// `s` without its leading 'v's.
fn strip_leading_v(s: &Vec<char>) -> (r: Vec<char>)
    ensures
        r@ == strip_v(s@),
{
    let mut i: usize = 0;
    assert(s@.skip(0) =~= s@);
    while i < s.len() && s[i] == 'v'
        invariant
            i <= s@.len(),
            strip_v(s@) == strip_v(s@.skip(i as int)),
        decreases s@.len() - i,
    {
        assert(s@.skip(i as int).drop_first() =~= s@.skip(i + 1));
        i = i + 1;
    }
    let r = chars_between(s, i, s.len());
    assert(r@ =~= s@.skip(i as int));
    r
}

/// The release to offer as an update, from the release service's reply:
/// the `"tag_name"` value without its leading 'v's, when that differs from
/// the running version; `None` when it is the same or the reply names none.
pub fn newer_release(body: &str, current: &str) -> (r: Option<String>)
    ensures
        match json_field(body@, tag_name_key()) {
            None => r is None,
            Some(tag) => if strip_v(tag) == current@ {
                r is None
            } else {
                r matches Some(v) && v@ == strip_v(tag)
            },
        },
{
    let key = "\"tag_name\"";
    proof {
        reveal_strlit("\"tag_name\"");
        assert(key@ =~= tag_name_key());
    }
    let tag = match json_string_field(body, key) {
        Some(t) => t,
        None => return None,
    };
    let tag_chars = chars_of(tag.as_str());
    let latest = strip_leading_v(&tag_chars);
    let cur = chars_of(current);
    let mut same = latest.len() == cur.len();
    let mut i: usize = 0;
    while same && i < latest.len()
        invariant
            i <= latest@.len(),
            same ==> latest@.len() == cur@.len(),
            same ==> forall|m: int| 0 <= m < i ==> latest@[m] == cur@[m],
            !same ==> latest@ != cur@,
        decreases latest@.len() - i,
    {
        if latest[i] != cur[i] {
            same = false;
        }
        i = i + 1;
    }
    if same {
        assert(latest@ =~= cur@);
        None
    } else {
        Some(string_of(&latest))
    }
}

/// What to say when the license service refuses a key: the reply's
/// `"error"` value, or "invalid license key" when it names none.
pub fn license_error(body: &str) -> (r: String)
    ensures
        r@ == match json_field(body@, error_key()) {
            Some(e) => e,
            None => default_license_error(),
        },
{
    let key = "\"error\"";
    proof {
        reveal_strlit("\"error\"");
        assert(key@ =~= error_key());
    }
    match json_string_field(body, key) {
        Some(e) => e,
        None => {
            let d = "invalid license key";
            proof {
                reveal_strlit("invalid license key");
                assert(d@ =~= default_license_error());
            }
            d.to_string()
        },
    }
}

/// What an activation attempt comes to, from the license service's reply.
pub enum Activation {
    /// The reply was empty: the service could not be reached.
    Unreachable,
    /// The service says the key is valid.
    Accepted,
    /// The service refused the key, with this message.
    Refused(String),
}

/// Judge the license service's reply to an activation: an empty reply means
/// the service was not reached; a reply saying `"valid":true` (or
/// `"valid": true`) accepts the key; any other reply refuses it, with the
/// reply's `"error"` value or "invalid license key".
pub fn activation_outcome(body: &str) -> (r: Activation)
    ensures
        match r {
            Activation::Unreachable => body@.len() == 0,
            Activation::Accepted => body@.len() > 0 && reply_valid(body@),
            Activation::Refused(msg) => body@.len() > 0 && !reply_valid(body@) && msg@ == match json_field(
                body@,
                error_key(),
            ) {
                Some(e) => e,
                None => default_license_error(),
            },
        },
{
    if body.unicode_len() == 0 {
        return Activation::Unreachable;
    }
    match license_verdict(Some(body), 0) {
        LicenseVerdict::Refresh => Activation::Accepted,
        _ => Activation::Refused(license_error(body)),
    }
}

} // verus!
