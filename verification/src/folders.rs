//! Folder completion for the save-folder setting: which of the entries found
//! where the typed path points are offered, and in which order.
use vstd::prelude::*;
use crate::text::{chars_of, has_prefix, lowercase, push_char, push_chars, starts_with, string_of, to_lowercase};
use crate::viewer::strings_view;

verus! {

/// Code-point lexicographic order of character sequences, the order in
/// which `str` values compare: a proper prefix comes first.
pub open spec fn lex_before(a: Seq<char>, b: Seq<char>) -> bool
    decreases a.len(),
{
    if a.len() == 0 {
        b.len() > 0
    } else if b.len() == 0 {
        false
    } else if a[0] != b[0] {
        (a[0] as int) < (b[0] as int)
    } else {
        lex_before(a.drop_first(), b.drop_first())
    }
}

/// No sequence comes before itself.
pub proof fn lemma_lex_irreflexive(a: Seq<char>)
    ensures
        !lex_before(a, a),
    decreases a.len(),
{
    if a.len() > 0 {
        lemma_lex_irreflexive(a.drop_first());
    }
}

/// The order is transitive.
pub proof fn lemma_lex_transitive(a: Seq<char>, b: Seq<char>, c: Seq<char>)
    requires
        lex_before(a, b),
        lex_before(b, c),
    ensures
        lex_before(a, c),
    decreases a.len(),
{
    if a.len() > 0 && a[0] == b[0] && b[0] == c[0] {
        lemma_lex_transitive(a.drop_first(), b.drop_first(), c.drop_first());
    }
}

/// Of two different sequences, one comes before the other.
pub proof fn lemma_lex_total(a: Seq<char>, b: Seq<char>)
    ensures
        lex_before(a, b) || a == b || lex_before(b, a),
    decreases a.len(),
{
    if a.len() > 0 && b.len() > 0 && a[0] == b[0] {
        lemma_lex_total(a.drop_first(), b.drop_first());
        if a.drop_first() == b.drop_first() {
            assert(a =~= seq![a[0]] + a.drop_first());
            assert(b =~= seq![b[0]] + b.drop_first());
        }
    } else if a.len() == 0 && b.len() == 0 {
        assert(a =~= b);
    }
}

/// "Not after" is transitive.
proof fn lemma_lex_not_after(a: Seq<char>, b: Seq<char>, c: Seq<char>)
    requires
        !lex_before(b, a),
        !lex_before(c, b),
    ensures
        !lex_before(c, a),
{
    lemma_lex_total(a, b);
    lemma_lex_total(b, c);
    lemma_lex_irreflexive(a);
    if lex_before(c, a) {
        if lex_before(a, b) {
            lemma_lex_transitive(c, a, b);
            if lex_before(b, c) {
                lemma_lex_transitive(c, b, c);
                lemma_lex_irreflexive(c);
            }
        } else if lex_before(b, c) {
            lemma_lex_transitive(b, c, a);
        }
    }
}

/// Whether `a` comes before `b` in code-point order.
fn chars_before(a: &Vec<char>, b: &Vec<char>) -> (r: bool)
    ensures
        r == lex_before(a@, b@),
{
    let mut i: usize = 0;
    assert(a@.skip(0) =~= a@);
    assert(b@.skip(0) =~= b@);
    while i < a.len() && i < b.len()
        invariant
            i <= a@.len(),
            i <= b@.len(),
            lex_before(a@, b@) == lex_before(a@.skip(i as int), b@.skip(i as int)),
        decreases a@.len() - i,
    {
        let x = a[i];
        let y = b[i];
        if x != y {
            return x < y;
        }
        assert(a@.skip(i as int).drop_first() =~= a@.skip(i + 1));
        assert(b@.skip(i as int).drop_first() =~= b@.skip(i + 1));
        i = i + 1;
    }
    i == a.len() && i < b.len()
}

/// Position just past the last '/' of `s`, or 0 when there is none.
pub open spec fn name_start(s: Seq<char>) -> int
    decreases s.len(),
{
    if s.len() == 0 {
        0
    } else if s.last() == '/' {
        s.len() as int
    } else {
        name_start(s.drop_last())
    }
}

proof fn lemma_name_start_bounds(s: Seq<char>)
    ensures
        0 <= name_start(s) <= s.len(),
        forall|k: int| name_start(s) <= k < s.len() ==> s[k] != '/',
        name_start(s) > 0 ==> s[name_start(s) - 1] == '/',
    decreases s.len(),
{
    if s.len() > 0 && s.last() != '/' {
        lemma_name_start_bounds(s.drop_last());
        assert forall|k: int| name_start(s) <= k < s.len() implies s[k] != '/' by {
            if k < s.len() - 1 {
                assert(s[k] == s.drop_last()[k]);
            }
        }
    }
}

/// The folder name being typed: what follows the last '/' of the input.
pub open spec fn typed_name(s: Seq<char>) -> Seq<char> {
    s.skip(name_start(s))
}

/// The folder being looked into: the input up to and including its last '/'.
pub open spec fn typed_parent(s: Seq<char>) -> Seq<char> {
    s.take(name_start(s))
}

/// Position just past the last '/' of `s`.
fn name_start_of(s: &Vec<char>) -> (r: usize)
    ensures
        r == name_start(s@),
{
    let mut i: usize = s.len();
    assert(s@.take(i as int) =~= s@);
    while i > 0
        invariant
            i <= s@.len(),
            name_start(s@) == name_start(s@.take(i as int)),
        decreases i,
    {
        if s[i - 1] == '/' {
            return i;
        }
        assert(s@.take(i as int).drop_last() =~= s@.take(i - 1));
        i = i - 1;
    }
    0
}

/// The partial folder name typed after the last '/'.
pub fn partial_name(input: &str) -> (r: String)
    ensures
        r@ == typed_name(input@),
{
    let cs = chars_of(input);
    let start = name_start_of(&cs);
    proof {
        lemma_name_start_bounds(input@);
    }
    let mut out: Vec<char> = Vec::new();
    let mut i: usize = start;
    while i < cs.len()
        invariant
            start <= i <= cs@.len(),
            out@ == cs@.subrange(start as int, i as int),
        decreases cs@.len() - i,
    {
        out.push(cs[i]);
        i = i + 1;
        assert(out@ =~= cs@.subrange(start as int, i as int));
    }
    assert(out@ =~= typed_name(input@));
    string_of(&out)
}

/// What completions start with: the input up to and including its last '/'.
pub fn completion_prefix(input: &str) -> (r: String)
    ensures
        r@ == typed_parent(input@),
{
    let cs = chars_of(input);
    let start = name_start_of(&cs);
    proof {
        lemma_name_start_bounds(input@);
    }
    let mut out: Vec<char> = Vec::new();
    let mut i: usize = 0;
    while i < start
        invariant
            i <= start <= cs@.len(),
            out@ == cs@.take(i as int),
        decreases start - i,
    {
        out.push(cs[i]);
        i = i + 1;
        assert(out@ =~= cs@.take(i as int));
    }
    string_of(&out)
}

/// At most this many folders are listed under the input.
pub const LISTED_FOLDERS_MAX: usize = 10;

/// An entry found in the folder being looked into.
#[derive(Debug, Clone)]
pub struct DirEntry {
    pub name: String,
    pub is_dir: bool,
}

/// Whether `a` may be offered before `b`: its lower-cased form does not come
/// after that of `b`.
pub open spec fn ci_le(a: Seq<char>, b: Seq<char>) -> bool {
    !lex_before(lowercase(b), lowercase(a))
}

/// Whether the names are in case-insensitive order.
pub open spec fn ci_sorted(s: Seq<Seq<char>>) -> bool {
    forall|i: int, j: int| 0 <= i < j < s.len() ==> ci_le(#[trigger] s[i], #[trigger] s[j])
}

/// Whether an entry is offered for the lower-cased typed name: a folder,
/// not hidden unless the typed name starts with a dot, whose lower-cased
/// name starts with the typed name.
pub open spec fn offered(typed_lower: Seq<char>, name: Seq<char>, is_dir: bool) -> bool {
    &&& is_dir
    &&& (name.len() > 0 && name[0] == '.') ==> (typed_lower.len() > 0 && typed_lower[0] == '.')
    &&& has_prefix(lowercase(name), typed_lower)
}

/// Names of the offered entries, in the order found.
pub open spec fn offered_names(typed_lower: Seq<char>, found: Seq<DirEntry>) -> Seq<Seq<char>>
    decreases found.len(),
{
    if found.len() == 0 {
        Seq::empty()
    } else {
        let rest = offered_names(typed_lower, found.drop_last());
        let e = found.last();
        if offered(typed_lower, e.name@, e.is_dir) {
            rest.push(e.name@)
        } else {
            rest
        }
    }
}

/// The completions of the offered entries, in the order found: the typed
/// parent, the folder's name and a closing '/'.
pub open spec fn offered_completions(
    parent: Seq<char>,
    typed_lower: Seq<char>,
    found: Seq<DirEntry>,
) -> Seq<Seq<char>>
    decreases found.len(),
{
    if found.len() == 0 {
        Seq::empty()
    } else {
        let rest = offered_completions(parent, typed_lower, found.drop_last());
        let e = found.last();
        if offered(typed_lower, e.name@, e.is_dir) {
            rest.push(parent + e.name@ + seq!['/'])
        } else {
            rest
        }
    }
}

/// Whether the entry is offered for the lower-cased typed name.
fn is_offered(typed_lower: &Vec<char>, e: &DirEntry) -> (r: bool)
    ensures
        r == offered(typed_lower@, e.name@, e.is_dir),
{
    if !e.is_dir {
        return false;
    }
    let name = chars_of(e.name.as_str());
    let hidden = name.len() > 0 && name[0] == '.';
    let dot_typed = typed_lower.len() > 0 && typed_lower[0] == '.';
    if hidden && !dot_typed {
        return false;
    }
    let lower = to_lowercase(e.name.as_str());
    let lower_chars = chars_of(lower.as_str());
    starts_with(&lower_chars, typed_lower)
}

/// `out` is `items` sorted case-insensitively by a stable sort: `perm[k]`
/// is the position in `items` of `out[k]`, each position taken once; the
/// names come in case-insensitive order, and names whose lower-cased forms
/// are equal keep the order they have in `items`.
pub open spec fn stably_sorted(items: Seq<Seq<char>>, out: Seq<Seq<char>>, perm: Seq<int>) -> bool {
    &&& out.len() == items.len()
    &&& perm.len() == items.len()
    &&& forall|k: int|
        0 <= k < perm.len() ==> 0 <= #[trigger] perm[k] < items.len() && out[k] == items[perm[k]]
    &&& forall|a: int, b: int| 0 <= a < b < perm.len() ==> #[trigger] perm[a] != #[trigger] perm[b]
    &&& ci_sorted(out)
    &&& forall|a: int, b: int|
        0 <= a < b < out.len() && lowercase(#[trigger] out[a]) == lowercase(#[trigger] out[b]) ==> perm[a]
            < perm[b]
}

/// Sorts strings by their lower-cased forms, stably (an insertion sort).
fn sort_case_insensitive(items: Vec<String>) -> (out: Vec<String>)
    ensures
        exists|perm: Seq<int>| stably_sorted(strings_view(items@), strings_view(out@), perm),
{
    let ghost iv = strings_view(items@);
    let mut out: Vec<String> = Vec::new();
    let mut keys: Vec<Vec<char>> = Vec::new();
    let ghost mut perm: Seq<int> = Seq::empty();
    let mut i: usize = 0;
    assert(strings_view(out@) =~= iv.take(0));
    while i < items.len()
        invariant
            iv == strings_view(items@),
            i <= items@.len(),
            keys@.len() == out@.len(),
            forall|k: int| 0 <= k < keys@.len() ==> #[trigger] keys@[k]@ == lowercase(out@[k]@),
            stably_sorted(iv.take(i as int), strings_view(out@), perm),
        decreases items@.len() - i,
    {
        let s = items[i].clone();
        let lower = to_lowercase(s.as_str());
        let key = chars_of(lower.as_str());
        let mut p: usize = out.len();
        let mut scanning = true;
        while scanning && p > 0
            invariant
                p <= keys@.len(),
                keys@.len() == out@.len(),
                forall|k: int| 0 <= k < keys@.len() ==> #[trigger] keys@[k]@ == lowercase(out@[k]@),
                forall|q: int| p <= q < keys@.len() ==> lex_before(key@, #[trigger] keys@[q]@),
                !scanning ==> p > 0 && !lex_before(key@, keys@[p - 1]@),
            decreases p + if scanning { 1int } else { 0int },
        {
            if chars_before(&key, &keys[p - 1]) {
                p = p - 1;
            } else {
                scanning = false;
            }
        }
        let ghost old_view = strings_view(out@);
        let ghost old_keys = keys@;
        let ghost old_perm = perm;
        out.insert(p, s);
        keys.insert(p, key);
        proof {
            perm = old_perm.insert(p as int, i as int);
            let v = strings_view(out@);
            let before = iv.take(i as int);
            let after = iv.take(i + 1);
            assert(v =~= old_view.insert(p as int, iv[i as int]));
            assert forall|k: int| 0 <= k < keys@.len() implies #[trigger] keys@[k]@ == lowercase(
                out@[k]@,
            ) by {
                if k > p {
                    assert(keys@[k] == old_keys[k - 1]);
                }
            }
            assert forall|k: int| 0 <= k < perm.len() implies 0 <= #[trigger] perm[k] < after.len()
                && v[k] == after[perm[k]] by {
                if k < p {
                    assert(perm[k] == old_perm[k] && v[k] == old_view[k]);
                    assert(before[old_perm[k]] == after[old_perm[k]]);
                } else if k > p {
                    assert(perm[k] == old_perm[k - 1] && v[k] == old_view[k - 1]);
                    assert(before[old_perm[k - 1]] == after[old_perm[k - 1]]);
                }
            }
            assert forall|a: int, b: int| 0 <= a < b < perm.len() implies #[trigger] perm[a]
                != #[trigger] perm[b] by {
                let a0 = if a < p { a } else { a - 1 };
                let b0 = if b < p { b } else { b - 1 };
                if a != p && b != p {
                    assert(old_perm[a0] != old_perm[b0]);
                } else if a == p {
                    assert(old_perm[b0] < i);
                } else {
                    assert(old_perm[a0] < i);
                }
            }
            assert forall|a: int, b: int| 0 <= a < b < v.len() implies ci_le(
                #[trigger] v[a],
                #[trigger] v[b],
            ) by {
                if b < p {
                    assert(v[a] == old_view[a] && v[b] == old_view[b]);
                } else if a > p {
                    assert(v[a] == old_view[a - 1] && v[b] == old_view[b - 1]);
                } else if a < p && b > p {
                    assert(v[a] == old_view[a] && v[b] == old_view[b - 1]);
                } else if b == p {
                    // a < p: the new entry does not come before the one ahead of it
                    assert(v[a] == old_view[a]);
                    assert(lowercase(old_view[p - 1]) == old_keys[p - 1]@);
                    if a < p - 1 {
                        assert(ci_le(old_view[a], old_view[p - 1]));
                        lemma_lex_not_after(lowercase(old_view[a]), old_keys[p - 1]@, key@);
                    }
                } else {
                    // a == p < b: every entry behind it comes after it
                    assert(v[b] == old_view[b - 1]);
                    assert(lowercase(old_view[b - 1]) == old_keys[b - 1]@);
                    assert(lex_before(key@, old_keys[b - 1]@));
                    if lex_before(old_keys[b - 1]@, key@) {
                        lemma_lex_transitive(key@, old_keys[b - 1]@, key@);
                        lemma_lex_irreflexive(key@);
                    }
                }
            }
            assert forall|a: int, b: int|
                0 <= a < b < v.len() && lowercase(#[trigger] v[a]) == lowercase(#[trigger] v[b]) implies perm[a]
                < perm[b] by {
                if b < p {
                    assert(v[a] == old_view[a] && v[b] == old_view[b]);
                } else if a > p {
                    assert(v[a] == old_view[a - 1] && v[b] == old_view[b - 1]);
                } else if a < p && b > p {
                    assert(v[a] == old_view[a] && v[b] == old_view[b - 1]);
                } else if b == p {
                    assert(old_perm[a] < i);
                } else {
                    // a == p < b: the entries behind the new one have other lower-cased forms
                    assert(v[b] == old_view[b - 1]);
                    assert(lowercase(old_view[b - 1]) == old_keys[b - 1]@);
                    assert(lex_before(key@, old_keys[b - 1]@));
                    lemma_lex_irreflexive(key@);
                }
            }
        }
        i = i + 1;
    }
    assert(iv.take(items@.len() as int) =~= iv);
    out
}

/// The names of the offered entries, in the order found.
fn offered_names_of(typed_lower: &Vec<char>, found: &Vec<DirEntry>) -> (names: Vec<String>)
    ensures
        strings_view(names@) == offered_names(typed_lower@, found@),
{
    let mut names: Vec<String> = Vec::new();
    let mut i: usize = 0;
    while i < found.len()
        invariant
            i <= found@.len(),
            strings_view(names@) == offered_names(typed_lower@, found@.take(i as int)),
        decreases found@.len() - i,
    {
        let ghost before = names@;
        assert(found@.take(i + 1).drop_last() =~= found@.take(i as int));
        if is_offered(typed_lower, &found[i]) {
            names.push(found[i].name.clone());
            assert(strings_view(names@) =~= strings_view(before).push(found@[i as int].name@));
        }
        i = i + 1;
    }
    assert(found@.take(found@.len() as int) =~= found@);
    names
}

/// The folders listed under the typed path: the entries offered for the
/// name typed after the last '/' (folders only, hidden ones only when that
/// name starts with a dot, matched case-insensitively), in case-insensitive
/// order with names equal but for case in the order found, at most
/// `LISTED_FOLDERS_MAX` of them.
pub fn list_folders(input: &str, found: &Vec<DirEntry>) -> (listed: Vec<DirEntry>)
    ensures
        exists|all: Seq<Seq<char>>, perm: Seq<int>|
            {
                &&& stably_sorted(offered_names(lowercase(typed_name(input@)), found@), all, perm)
                &&& listed@.len() == if all.len() < LISTED_FOLDERS_MAX {
                    all.len()
                } else {
                    LISTED_FOLDERS_MAX as nat
                }
                &&& forall|k: int|
                    0 <= k < listed@.len() ==> #[trigger] listed@[k].name@ == all[k]
                        && listed@[k].is_dir
            },
{
    let typed = partial_name(input);
    let typed_lower = to_lowercase(typed.as_str());
    let typed_chars = chars_of(typed_lower.as_str());
    let names = offered_names_of(&typed_chars, found);
    let sorted = sort_case_insensitive(names);
    let ghost all = strings_view(sorted@);
    let mut listed: Vec<DirEntry> = Vec::new();
    let mut i: usize = 0;
    while i < sorted.len() && i < LISTED_FOLDERS_MAX
        invariant
            i <= sorted@.len(),
            i <= LISTED_FOLDERS_MAX,
            all == strings_view(sorted@),
            listed@.len() == i,
            forall|k: int| 0 <= k < i ==> #[trigger] listed@[k].name@ == all[k] && listed@[k].is_dir,
        decreases sorted@.len() - i,
    {
        listed.push(DirEntry { name: sorted[i].clone(), is_dir: true });
        i = i + 1;
    }
    proof {
        let perm = choose|perm: Seq<int>| stably_sorted(strings_view(names@), all, perm);
        assert(stably_sorted(offered_names(typed_chars@, found@), all, perm));
    }
    listed
}

/// The completions of the typed path: for each entry offered (as in
/// `list_folders`), the input up to its last '/', the folder's name and a
/// closing '/', in case-insensitive order with completions equal but for
/// case in the order found.
pub fn complete_folders(input: &str, found: &Vec<DirEntry>) -> (matches: Vec<String>)
    ensures
        exists|perm: Seq<int>|
            stably_sorted(
                offered_completions(typed_parent(input@), lowercase(typed_name(input@)), found@),
                strings_view(matches@),
                perm,
            ),
{
    let typed = partial_name(input);
    let typed_lower = to_lowercase(typed.as_str());
    let typed_chars = chars_of(typed_lower.as_str());
    let parent = completion_prefix(input);
    let parent_chars = chars_of(parent.as_str());
    let mut candidates: Vec<String> = Vec::new();
    let mut i: usize = 0;
    while i < found.len()
        invariant
            i <= found@.len(),
            parent_chars@ == typed_parent(input@),
            typed_chars@ == lowercase(typed_name(input@)),
            strings_view(candidates@) == offered_completions(
                parent_chars@,
                typed_chars@,
                found@.take(i as int),
            ),
        decreases found@.len() - i,
    {
        let ghost before = candidates@;
        assert(found@.take(i + 1).drop_last() =~= found@.take(i as int));
        if is_offered(&typed_chars, &found[i]) {
            let mut c = string_of(&parent_chars);
            let name = chars_of(found[i].name.as_str());
            push_chars(&mut c, &name);
            push_char(&mut c, '/');
            assert(c@ =~= parent_chars@ + found@[i as int].name@ + seq!['/']);
            candidates.push(c);
            assert(strings_view(candidates@) =~= strings_view(before).push(
                parent_chars@ + found@[i as int].name@ + seq!['/'],
            ));
        }
        i = i + 1;
    }
    assert(found@.take(found@.len() as int) =~= found@);
    sort_case_insensitive(candidates)
}

} // verus!
