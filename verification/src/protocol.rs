//! The messages a client sends to the stream server, and the frames it
//! looks for.

use vstd::prelude::*;
use crate::text::{chars_of, contains, occurs_at};

verus! {

/// The subscription to the snapshots of `pair_id`:
/// `["{\"_event\":\"bulk-subscribe\",\"tzID\":\"8\",\"message\":\"pid-<pair_id>:\"}"]`.
pub open spec fn spec_subscribe_message(pair_id: Seq<char>) -> Seq<char> {
    "[\"{\\\"_event\\\":\\\"bulk-subscribe\\\",\\\"tzID\\\":\\\"8\\\",\\\"message\\\":\\\"pid-"@
        + pair_id + ":\\\"}\"]"@
}

/// The user-id message sent after the subscription: `["{\"_event\":\"UID\",\"UID\":0}"]`.
pub open spec fn spec_uid_message() -> Seq<char> {
    "[\"{\\\"_event\\\":\\\"UID\\\",\\\"UID\\\":0}\"]"@
}

/// The keep-alive message: `["{\"_event\":\"heartbeat\",\"data\":\"h\"}"]`.
pub open spec fn spec_heartbeat_message() -> Seq<char> {
    "[\"{\\\"_event\\\":\\\"heartbeat\\\",\\\"data\\\":\\\"h\\\"}\"]"@
}

/// The text by which a frame carrying a snapshot of `pair_id` is known:
/// `pid-<pair_id>::{`.
pub open spec fn spec_subscription_key(pair_id: Seq<char>) -> Seq<char> {
    "pid-"@ + pair_id + "::{"@
}

/// The frame by which the server opens the session: `o`.
pub open spec fn open_frame() -> Seq<char> {
    seq!['o']
}

/// The milliseconds between two keep-alive messages.
pub open spec fn spec_heartbeat_interval_ms() -> nat {
    3200
}

/// The subscription to the snapshots of `pair_id`.
pub fn subscribe_message(pair_id: &str) -> (m: String)
    ensures
        m@ == spec_subscribe_message(pair_id@),
{
    let mut m = String::from_str(
        "[\"{\\\"_event\\\":\\\"bulk-subscribe\\\",\\\"tzID\\\":\\\"8\\\",\\\"message\\\":\\\"pid-",
    );
    m.append(pair_id);
    m.append(":\\\"}\"]");
    m
}

/// The user-id message.
pub fn uid_message() -> (m: String)
    ensures
        m@ == spec_uid_message(),
{
    String::from_str("[\"{\\\"_event\\\":\\\"UID\\\",\\\"UID\\\":0}\"]")
}

/// The keep-alive message.
pub fn heartbeat_message() -> (m: String)
    ensures
        m@ == spec_heartbeat_message(),
{
    String::from_str("[\"{\\\"_event\\\":\\\"heartbeat\\\",\\\"data\\\":\\\"h\\\"}\"]")
}

/// The milliseconds between two keep-alive messages.
pub fn heartbeat_interval_ms() -> (ms: u64)
    ensures
        ms == spec_heartbeat_interval_ms(),
{
    3200
}

/// The key of the snapshot frames of `pair_id`, as characters.
pub fn subscription_key(pair_id: &str) -> (key: Vec<char>)
    ensures
        key@ == spec_subscription_key(pair_id@),
{
    let mut s = String::from_str("pid-");
    s.append(pair_id);
    s.append("::{");
    chars_of(s.as_str())
}

/// Whether `frame` is the frame that opens the session.
pub fn is_open_frame(frame: &str) -> (b: bool)
    ensures
        b == (frame@ == open_frame()),
{
    let chars = chars_of(frame);
    if chars.len() == 1 && chars[0] == 'o' {
        assert(chars@ =~= open_frame());
        true
    } else {
        assert(chars.len() == 1 ==> chars@[0] != open_frame()[0]);
        false
    }
}

/// Whether `frame` carries a snapshot of the pair whose key is `key`.
pub fn carries_key(frame: &str, key: &Vec<char>) -> (b: bool)
    ensures
        b == contains(frame@, key@),
{
    let chars = chars_of(frame);
    crate::text::contains_chars(&chars, key)
}

/// The key of a pair is found in every text that holds `pid-<pair>::{`,
/// wherever it stands: frames the server sends for the pair carry the key.
pub proof fn lemma_key_found_in_pair_text(pair_id: Seq<char>, before: Seq<char>, after: Seq<char>)
    ensures
        contains(before + ("pid-"@ + pair_id + "::{"@) + after, spec_subscription_key(pair_id)),
{
    let key = spec_subscription_key(pair_id);
    let t = before + ("pid-"@ + pair_id + "::{"@) + after;
    assert(t.subrange(before.len() as int, before.len() + key.len() as int) =~= key);
    assert(occurs_at(t, key, before.len() as int));
}

/// The key of a pair is `pid-`, the whole pair id, then `::{`: four
/// characters, the pair id, three characters.
pub proof fn lemma_key_layout(pair_id: Seq<char>)
    ensures
        spec_subscription_key(pair_id).len() == pair_id.len() + 7,
        spec_subscription_key(pair_id).subrange(0, 4) == seq!['p', 'i', 'd', '-'],
        spec_subscription_key(pair_id).subrange(4, 4 + pair_id.len() as int) == pair_id,
        spec_subscription_key(pair_id).subrange(4 + pair_id.len() as int, 7 + pair_id.len() as int)
            == seq![':', ':', '{'],
{
    reveal_strlit("pid-");
    reveal_strlit("::{");
    let key = spec_subscription_key(pair_id);
    assert(key.subrange(0, 4) =~= seq!['p', 'i', 'd', '-']);
    assert(key.subrange(4, 4 + pair_id.len() as int) =~= pair_id);
    assert(key.subrange(4 + pair_id.len() as int, 7 + pair_id.len() as int) =~= seq![':', ':', '{']);
}

/// The subscription names the whole pair id: it holds `pid-<pair>:`, and it
/// is as much longer than the subscription for the empty id as the pair id
/// is long.
pub proof fn lemma_subscription_names_pair(pair_id: Seq<char>)
    ensures
        contains(spec_subscribe_message(pair_id), "pid-"@ + pair_id + ":"@),
        spec_subscribe_message(pair_id).len()
            == spec_subscribe_message(Seq::empty()).len() + pair_id.len(),
{
    let head = "[\"{\\\"_event\\\":\\\"bulk-subscribe\\\",\\\"tzID\\\":\\\"8\\\",\\\"message\\\":\\\"pid-"@;
    let tail = ":\\\"}\"]"@;
    reveal_strlit("[\"{\\\"_event\\\":\\\"bulk-subscribe\\\",\\\"tzID\\\":\\\"8\\\",\\\"message\\\":\\\"pid-");
    reveal_strlit(":\\\"}\"]");
    reveal_strlit("pid-");
    reveal_strlit(":");
    let m = spec_subscribe_message(pair_id);
    let named = "pid-"@ + pair_id + ":"@;
    let at = head.len() - 4;
    assert(m == head + pair_id + tail);
    assert(m.subrange(at, at + named.len()) =~= named);
    assert(occurs_at(m, named, at));
}

} // verus!
