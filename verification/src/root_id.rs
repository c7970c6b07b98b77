//! Public root identities of the form `username@server`.
use vstd::prelude::*;

use crate::error::{fault_error, fault_outcome, is_fault, IdentityError, IdentifierFault};
use crate::text::{
    ascii_lower, ascii_lower_seq, find_char_from, first_index_of, is_ascii_alnum,
    lemma_first_index_of, lemma_first_index_of_unique, push_char, to_ascii_lower, to_owned_string,
    utf8_len, utf8_len_upto,
};

verus! {

/// Characters allowed in a username: ASCII letters and digits, `-` and `_`.
pub open spec fn is_username_char(c: char) -> bool {
    is_ascii_alnum(c) || c == '-' || c == '_'
}

/// Characters allowed in a server label: ASCII letters and digits and `-`.
pub open spec fn is_label_char(c: char) -> bool {
    is_ascii_alnum(c) || c == '-'
}

/// The first rule that the username `u` breaks, if any.
pub open spec fn username_fault(u: Seq<char>) -> Option<IdentifierFault> {
    if u.len() == 0 {
        Some(IdentifierFault::UsernameEmpty)
    } else if utf8_len(u) < 3 || utf8_len(u) > 64 {
        Some(IdentifierFault::UsernameLength)
    } else if !(forall|i: int| 0 <= i < u.len() ==> is_username_char(#[trigger] u[i])) {
        Some(IdentifierFault::UsernameChar)
    } else if forall|i: int| 0 <= i < u.len() ==> #[trigger] u[i] == '_' {
        Some(IdentifierFault::UsernameOnlyUnderscores)
    } else {
        None
    }
}

/// The first rule that one DNS label `l` breaks, if any.
pub open spec fn label_fault(l: Seq<char>) -> Option<IdentifierFault> {
    if l.len() == 0 {
        Some(IdentifierFault::LabelEmpty)
    } else if utf8_len(l) > 63 {
        Some(IdentifierFault::LabelTooLong)
    } else if !(forall|i: int| 0 <= i < l.len() ==> is_label_char(#[trigger] l[i])) {
        Some(IdentifierFault::LabelChar)
    } else if l[0] == '-' || l[l.len() - 1] == '-' {
        Some(IdentifierFault::LabelHyphen)
    } else {
        None
    }
}

/// The first fault among the dot-separated labels of `s`, taken from left to right.
pub open spec fn labels_fault(s: Seq<char>) -> Option<IdentifierFault>
    decreases s.len(),
{
    let i = first_index_of(s, '.');
    match label_fault(s.take(i)) {
        Some(f) => Some(f),
        None => if 0 <= i < s.len() {
            labels_fault(s.skip(i + 1))
        } else {
            None
        },
    }
}

/// `s` without one trailing dot, if it has one.
pub open spec fn strip_one_dot(s: Seq<char>) -> Seq<char> {
    if s.len() > 0 && s[s.len() - 1] == '.' {
        s.drop_last()
    } else {
        s
    }
}

/// The first rule that the server name `s` breaks, if any.
pub open spec fn server_fault(s: Seq<char>) -> Option<IdentifierFault> {
    if s.len() == 0 {
        Some(IdentifierFault::ServerEmpty)
    } else if utf8_len(strip_one_dot(s)) > 253 {
        Some(IdentifierFault::ServerTooLong)
    } else {
        labels_fault(s)
    }
}

/// Position of the first `@` in `input` (its length when there is none).
pub open spec fn at_index(input: Seq<char>) -> int {
    first_index_of(input, '@')
}

/// The username part of `username@server` input.
pub open spec fn username_part(input: Seq<char>) -> Seq<char> {
    input.take(at_index(input))
}

/// The server part of `username@server` input.
pub open spec fn server_part(input: Seq<char>) -> Seq<char> {
    input.skip(at_index(input) + 1)
}

/// The first rule that `username@server` input breaks, if any.
pub open spec fn root_fault(input: Seq<char>) -> Option<IdentifierFault> {
    if at_index(input) == input.len() {
        Some(IdentifierFault::MissingAt)
    } else if username_fault(username_part(input)) is Some {
        username_fault(username_part(input))
    } else {
        server_fault(server_part(input))
    }
}

/// Where the first fault of `username@server` input was found: the whole input when `@` is
/// missing, else the username or the server part.
pub open spec fn root_fault_subject(input: Seq<char>) -> Seq<char> {
    if at_index(input) == input.len() {
        input
    } else if username_fault(username_part(input)) is Some {
        username_part(input)
    } else {
        server_part(input)
    }
}

/// ASCII lowercasing keeps every rule-relevant feature of a character.
proof fn lemma_lower_char(c: char)
    ensures
        (ascii_lower(c) == '.') == (c == '.'),
        (ascii_lower(c) == '-') == (c == '-'),
        is_label_char(ascii_lower(c)) == is_label_char(c),
        ascii_lower(ascii_lower(c)) == ascii_lower(c),
        vstd::utf8::encode_scalar(ascii_lower(c) as u32).len() == vstd::utf8::encode_scalar(
            c as u32,
        ).len(),
{
    if 'A' <= c && c <= 'Z' {
        assert(((c as u32) + 32) as char as u32 == (c as u32) + 32);
    }
}

/// ASCII lowercasing keeps the UTF-8 length.
proof fn lemma_lower_utf8_len(s: Seq<char>)
    ensures
        utf8_len(ascii_lower_seq(s)) == utf8_len(s),
    decreases s.len(),
{
    if s.len() > 0 {
        lemma_lower_char(s[0]);
        lemma_lower_utf8_len(s.drop_first());
        assert(ascii_lower_seq(s).drop_first() =~= ascii_lower_seq(s.drop_first()));
    }
}

/// ASCII lowercasing keeps the verdict on a label.
proof fn lemma_lower_label(l: Seq<char>)
    ensures
        label_fault(ascii_lower_seq(l)) == label_fault(l),
{
    let m = ascii_lower_seq(l);
    lemma_lower_utf8_len(l);
    assert forall|i: int| 0 <= i < l.len() implies is_label_char(#[trigger] m[i]) == is_label_char(
        l[i],
    ) by {
        lemma_lower_char(l[i]);
    }
    if l.len() > 0 {
        lemma_lower_char(l[0]);
        lemma_lower_char(l[l.len() - 1]);
    }
    if !(forall|i: int| 0 <= i < l.len() ==> is_label_char(#[trigger] l[i])) {
        let k = choose|i: int| 0 <= i < l.len() && !is_label_char(l[i]);
        assert(!is_label_char(m[k]));
    }
    if !(forall|i: int| 0 <= i < m.len() ==> is_label_char(#[trigger] m[i])) {
        let k = choose|i: int| 0 <= i < m.len() && !is_label_char(m[i]);
        assert(!is_label_char(l[k]));
    }
}

/// ASCII lowercasing keeps the position of the first dot.
proof fn lemma_lower_first_dot(s: Seq<char>)
    ensures
        first_index_of(ascii_lower_seq(s), '.') == first_index_of(s, '.'),
{
    let m = ascii_lower_seq(s);
    lemma_first_index_of(s, '.');
    let i = first_index_of(s, '.');
    if i < s.len() {
        lemma_lower_char(s[i]);
    }
    assert forall|k: int| 0 <= k < i implies m[k] != '.' by {
        lemma_lower_char(s[k]);
    }
    lemma_first_index_of_unique(m, '.', i);
}

/// ASCII lowercasing keeps the verdict on a sequence of labels.
proof fn lemma_lower_labels(s: Seq<char>)
    ensures
        labels_fault(ascii_lower_seq(s)) == labels_fault(s),
    decreases s.len(),
{
    let m = ascii_lower_seq(s);
    let i = first_index_of(s, '.');
    lemma_lower_first_dot(s);
    lemma_first_index_of(s, '.');
    assert(m.take(i) =~= ascii_lower_seq(s.take(i)));
    lemma_lower_label(s.take(i));
    if 0 <= i < s.len() {
        assert(m.skip(i + 1) =~= ascii_lower_seq(s.skip(i + 1)));
        lemma_lower_labels(s.skip(i + 1));
    }
}

/// ASCII lowercasing keeps the verdict on a server name, and lowercasing twice changes nothing.
proof fn lemma_lower_server(s: Seq<char>)
    ensures
        server_fault(ascii_lower_seq(s)) == server_fault(s),
        ascii_lower_seq(ascii_lower_seq(s)) == ascii_lower_seq(s),
{
    let m = ascii_lower_seq(s);
    lemma_lower_labels(s);
    if s.len() > 0 {
        lemma_lower_char(s[s.len() - 1]);
        if s[s.len() - 1] == '.' {
            assert(m.drop_last() =~= ascii_lower_seq(s.drop_last()));
            lemma_lower_utf8_len(s.drop_last());
        } else {
            lemma_lower_utf8_len(s);
        }
    }
    assert forall|k: int| 0 <= k < s.len() implies #[trigger] ascii_lower_seq(m)[k] == m[k] by {
        lemma_lower_char(s[k]);
    }
    assert(ascii_lower_seq(m) =~= m);
}

/// A server name without faults holds only label characters and dots.
pub proof fn lemma_server_chars(s: Seq<char>)
    requires
        labels_fault(s) is None,
    ensures
        forall|k: int| 0 <= k < s.len() ==> is_label_char(#[trigger] s[k]) || s[k] == '.',
    decreases s.len(),
{
    let i = first_index_of(s, '.');
    lemma_first_index_of(s, '.');
    let l = s.take(i);
    assert(label_fault(l) is None);
    if 0 <= i < s.len() {
        lemma_server_chars(s.skip(i + 1));
    }
    assert forall|k: int| 0 <= k < s.len() implies is_label_char(#[trigger] s[k]) || s[k] == '.' by {
        if k < i {
            assert(l[k] == s[k]);
        } else if k > i {
            assert(s.skip(i + 1)[k - i - 1] == s[k]);
        }
    }
}

/// `did:web:` as characters.
pub open spec fn did_web_prefix() -> Seq<char> {
    seq!['d', 'i', 'd', ':', 'w', 'e', 'b', ':']
}

/// `:u:` as characters.
pub open spec fn user_path_marker() -> Seq<char> {
    seq![':', 'u', ':']
}

/// The `did:web` identifier of `username` on `server`: `did:web:<server>:u:<username>`.
pub open spec fn did_web_of(username: Seq<char>, server: Seq<char>) -> Seq<char> {
    did_web_prefix() + server + user_path_marker() + username
}

/// Validated public identity of the form `username@server`.
#[derive(Debug, Clone, PartialEq, Eq)]
pub struct RootId {
    pub username: String,
    pub server: String,
}

impl RootId {
    /// Both parts satisfy the rules that `parse` enforces, and the server is lowercase.
    pub open spec fn valid(&self) -> bool {
        &&& username_fault(self.username@) is None
        &&& server_fault(self.server@) is None
        &&& ascii_lower_seq(self.server@) == self.server@
    }

    /// Parse and validate a `username@server` string.
    ///
    /// The username is everything before the first `@`, the server everything after it.
    /// The server is lowercased (DNS names are case-insensitive).
    pub fn parse(input: &str) -> (res: Result<RootId, IdentityError>)
        ensures
            match root_fault(input@) {
                Some(f) => is_fault(res, f, root_fault_subject(input@)),
                None => res matches Ok(id) && id.username@ == username_part(input@)
                    && id.server@ == ascii_lower_seq(server_part(input@)),
            },
            res matches Ok(id) ==> id.valid(),
    {
        let n = input.unicode_len();
        let at = find_char_from(input, '@', 0);
        proof {
            assert(input@.skip(0) == input@);
        }
        if at == n {
            return Err(fault_error(IdentifierFault::MissingAt, input));
        }
        let username = input.substring_char(0, at);
        let server = input.substring_char(at + 1, n);
        proof {
            assert(username@ == username_part(input@));
            assert(server@ == server_part(input@));
        }
        validate_username(username)?;
        validate_server(server)?;
        proof {
            lemma_lower_server(server@);
        }
        Ok(RootId { username: to_owned_string(username), server: to_ascii_lower(server) })
    }

    /// Returns `did:web:server:u:username`.
    pub fn to_did_web(&self) -> (r: String)
        ensures
            r@ == did_web_of(self.username@, self.server@),
    {
        build_did_web_string(self.username.as_str(), self.server.as_str())
    }

    /// The display form `username@server`.
    pub fn to_string(&self) -> (r: String)
        ensures
            r@ == self.username@ + seq!['@'] + self.server@,
    {
        let mut out = to_owned_string(self.username.as_str());
        push_char(&mut out, '@');
        out.append(self.server.as_str());
        out
    }
}

/// The display form of a valid root identity parses back to the same identity: its first `@`
/// is the one between the parts (a username holds no `@`), both parts pass the rules, and the
/// server is already lowercase.
pub proof fn lemma_root_id_display_parses_back(id: RootId)
    requires
        id.valid(),
    ensures
        root_fault(id.username@ + seq!['@'] + id.server@) is None,
        username_part(id.username@ + seq!['@'] + id.server@) == id.username@,
        ascii_lower_seq(server_part(id.username@ + seq!['@'] + id.server@)) == id.server@,
{
    let u = id.username@;
    let t = u + seq!['@'] + id.server@;
    assert forall|k: int| 0 <= k < u.len() implies t[k] != '@' by {
        assert(t[k] == u[k]);
        assert(is_username_char(u[k]));
    }
    assert(t[u.len() as int] == '@');
    lemma_first_index_of_unique(t, '@', u.len() as int);
    assert(username_part(t) =~= u);
    assert(server_part(t) =~= id.server@);
}

/// `did:web:<server>:u:<username>` as a `String`.
pub fn build_did_web_string(username: &str, server: &str) -> (r: String)
    ensures
        r@ == did_web_of(username@, server@),
{
    let mut out = to_owned_string("did:web:");
    out.append(server);
    out.append(":u:");
    out.append(username);
    proof {
        reveal_strlit("did:web:");
        reveal_strlit(":u:");
    }
    out
}

/// Whether every character of `s` may stand in a username.
fn all_username_chars(s: &str) -> (b: bool)
    ensures
        b == forall|i: int| 0 <= i < s@.len() ==> is_username_char(#[trigger] s@[i]),
{
    let n = s.unicode_len();
    let mut i: usize = 0;
    while i < n
        invariant
            i <= n,
            n == s@.len(),
            forall|k: int| 0 <= k < i ==> is_username_char(#[trigger] s@[k]),
        decreases n - i,
    {
        let c = s.get_char(i);
        if !((c >= '0' && c <= '9') || (c >= 'a' && c <= 'z') || (c >= 'A' && c <= 'Z') || c == '-'
            || c == '_') {
            return false;
        }
        i = i + 1;
    }
    true
}

/// Whether every character of `s` is `_`.
fn all_underscores(s: &str) -> (b: bool)
    ensures
        b == forall|i: int| 0 <= i < s@.len() ==> #[trigger] s@[i] == '_',
{
    let n = s.unicode_len();
    let mut i: usize = 0;
    while i < n
        invariant
            i <= n,
            n == s@.len(),
            forall|k: int| 0 <= k < i ==> #[trigger] s@[k] == '_',
        decreases n - i,
    {
        if s.get_char(i) != '_' {
            return false;
        }
        i = i + 1;
    }
    true
}

/// Whether every character of `s` may stand in a server label.
fn all_label_chars(s: &str) -> (b: bool)
    ensures
        b == forall|i: int| 0 <= i < s@.len() ==> is_label_char(#[trigger] s@[i]),
{
    let n = s.unicode_len();
    let mut i: usize = 0;
    while i < n
        invariant
            i <= n,
            n == s@.len(),
            forall|k: int| 0 <= k < i ==> is_label_char(#[trigger] s@[k]),
        decreases n - i,
    {
        let c = s.get_char(i);
        if !((c >= '0' && c <= '9') || (c >= 'a' && c <= 'z') || (c >= 'A' && c <= 'Z') || c
            == '-') {
            return false;
        }
        i = i + 1;
    }
    true
}

/// Check the username part of a root identity.
pub fn validate_username(s: &str) -> (res: Result<(), IdentityError>)
    ensures
        fault_outcome(res, username_fault(s@), s@),
{
    if s.is_empty() {
        return Err(fault_error(IdentifierFault::UsernameEmpty, s));
    }
    let len = utf8_len_upto(s, 64);
    if len < 3 || len > 64 {
        return Err(fault_error(IdentifierFault::UsernameLength, s));
    }
    if !all_username_chars(s) {
        return Err(fault_error(IdentifierFault::UsernameChar, s));
    }
    if all_underscores(s) {
        return Err(fault_error(IdentifierFault::UsernameOnlyUnderscores, s));
    }
    Ok(())
}

/// Check one dot-separated label of a server name.
fn check_label(l: &str) -> (r: Option<IdentifierFault>)
    ensures
        r == label_fault(l@),
{
    if l.is_empty() {
        return Some(IdentifierFault::LabelEmpty);
    }
    if utf8_len_upto(l, 63) > 63 {
        return Some(IdentifierFault::LabelTooLong);
    }
    if !all_label_chars(l) {
        return Some(IdentifierFault::LabelChar);
    }
    let n = l.unicode_len();
    if l.get_char(0) == '-' || l.get_char(n - 1) == '-' {
        return Some(IdentifierFault::LabelHyphen);
    }
    None
}

/// Check the server part of a root identity.
pub fn validate_server(s: &str) -> (res: Result<(), IdentityError>)
    ensures
        fault_outcome(res, server_fault(s@), s@),
{
    if s.is_empty() {
        return Err(fault_error(IdentifierFault::ServerEmpty, s));
    }
    let n = s.unicode_len();
    let canonical_len = if s.get_char(n - 1) == '.' {
        utf8_len_upto(s.substring_char(0, n - 1), 253)
    } else {
        utf8_len_upto(s, 253)
    };
    proof {
        if s@[n - 1] == '.' {
            assert(s@.subrange(0, n - 1) == s@.drop_last());
        }
    }
    if canonical_len > 253 {
        return Err(fault_error(IdentifierFault::ServerTooLong, s));
    }
    let mut start: usize = 0;
    proof {
        assert(s@.skip(0) == s@);
    }
    loop
        invariant
            start <= n,
            n == s@.len(),
            server_fault(s@) == labels_fault(s@),
            labels_fault(s@) == labels_fault(s@.skip(start as int)),
        decreases n + 1 - start,
    {
        let j = find_char_from(s, '.', start);
        let label = s.substring_char(start, j);
        let ghost rest = s@.skip(start as int);
        proof {
            let i = first_index_of(rest, '.');
            assert(i == j - start);
            assert(rest.take(i) =~= label@);
            assert(labels_fault(rest) == match label_fault(rest.take(i)) {
                Some(f) => Some(f),
                None => if 0 <= i < rest.len() {
                    labels_fault(rest.skip(i + 1))
                } else {
                    None
                },
            });
        }
        let fault = check_label(label);
        if let Some(f) = fault {
            return Err(fault_error(f, s));
        }
        if j == n {
            return Ok(());
        }
        proof {
            assert(rest.skip((j - start) + 1) =~= s@.skip(j + 1));
        }
        start = j + 1;
    }
}

} // verus!
