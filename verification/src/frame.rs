//! The snapshot frames of the stream: where the JSON object of an
//! instrument's snapshot sits in a raw frame, and how it is unescaped.
//!
//! A frame looks like
//! `a["{\"message\":\"pid-945629::{\\\"pid\\\":\\\"945629\\\",...}\"}"]`:
//! the snapshot object starts at the `{` of the first `::{` and ends at the
//! first `}`; inside it every `"` is preceded by three backslashes, which
//! are removed.

use vstd::prelude::*;
use crate::text::{
    chars_of, contains, find_chars, lemma_find_is_first_occurrence, lemma_first_occurrence_is_find, occurs_at, remove_all, remove_all_chars, spec_find,
    string_of, subrange_chars,
};

verus! {

/// The marker in front of the snapshot object: `::{`.
pub open spec fn open_mark() -> Seq<char> {
    seq![':', ':', '{']
}

/// The end of the snapshot object: `}`.
pub open spec fn close_mark() -> Seq<char> {
    seq!['}']
}

/// The escape removed from the snapshot object: three backslashes.
pub open spec fn escape_mark() -> Seq<char> {
    seq!['\\', '\\', '\\']
}

/// A frame from which a snapshot object can be cut: it holds `::{`, it
/// holds `}`, and the first `}` comes after the first `::{` begins.
pub open spec fn is_snapshot_frame(frame: Seq<char>) -> bool {
    &&& spec_find(frame, open_mark()) is Some
    &&& spec_find(frame, close_mark()) is Some
    &&& spec_find(frame, close_mark()).unwrap() > spec_find(frame, open_mark()).unwrap()
}

/// The JSON text of the snapshot in `frame`: from the `{` of the first
/// `::{` through the first `}`, with every triple backslash removed.
pub open spec fn spec_snapshot_json(frame: Seq<char>) -> Seq<char> {
    let open = spec_find(frame, open_mark()).unwrap();
    let close = spec_find(frame, close_mark()).unwrap();
    remove_all(frame.subrange(open + 2, close + 1), escape_mark())
}

/// Why a frame holds no snapshot object.
#[derive(Debug, Clone, Copy, PartialEq, Eq)]
pub enum FrameError {
    /// The frame holds no `::{`.
    MissingOpeningBrace,
    /// The frame holds `::{` but no `}`.
    MissingClosingBrace,
    /// The first `}` stands before the first `::{`.
    ClosingBeforeOpening,
}

/// Tells whether a snapshot object can be cut from `frame`, and if not, why.
/// The opening marker is looked for first.
pub fn check_frame(frame: &str) -> (r: Result<(), FrameError>)
    ensures
        r is Ok <==> is_snapshot_frame(frame@),
        r == Err::<(), FrameError>(FrameError::MissingOpeningBrace) <==> spec_find(frame@, open_mark()) is None,
        r == Err::<(), FrameError>(FrameError::MissingClosingBrace) <==> (spec_find(frame@, open_mark()) is Some
            && spec_find(frame@, close_mark()) is None),
        r == Err::<(), FrameError>(FrameError::ClosingBeforeOpening) <==> (spec_find(frame@, open_mark()) is Some
            && spec_find(frame@, close_mark()) is Some
            && spec_find(frame@, close_mark()).unwrap() <= spec_find(frame@, open_mark()).unwrap()),
{
    let chars = chars_of(frame);
    let open = vec![':', ':', '{'];
    let close = vec!['}'];
    assert(open@ =~= open_mark());
    assert(close@ =~= close_mark());
    match find_chars(&chars, &open) {
        None => Err(FrameError::MissingOpeningBrace),
        Some(i) => match find_chars(&chars, &close) {
            None => Err(FrameError::MissingClosingBrace),
            Some(j) => if j > i {
                Ok(())
            } else {
                Err(FrameError::ClosingBeforeOpening)
            },
        },
    }
}

/// The JSON text of the snapshot carried by `frame`.
pub fn snapshot_json(frame: &str) -> (json: String)
    requires
        is_snapshot_frame(frame@),
    ensures
        json@ == spec_snapshot_json(frame@),
{
    let chars = chars_of(frame);
    let open = vec![':', ':', '{'];
    let close = vec!['}'];
    let escape = vec!['\\', '\\', '\\'];
    assert(open@ =~= open_mark());
    assert(close@ =~= close_mark());
    assert(escape@ =~= escape_mark());
    let i = find_chars(&chars, &open).unwrap();
    let j = find_chars(&chars, &close).unwrap();
    proof {
        lemma_find_is_first_occurrence(chars@, open@);
        lemma_find_is_first_occurrence(chars@, close@);
    }
    let n = chars.len();
    assert(j + 1 <= n);
    let body = subrange_chars(&chars, i + 2, j + 1);
    let unescaped = remove_all_chars(&body, &escape);
    string_of(&unescaped)
}

/// How the server writes a snapshot object into a frame: every `"` of the
/// object's body is preceded by three backslashes.
pub open spec fn escape_quotes(body: Seq<char>) -> Seq<char>
    decreases body.len(),
{
    if body.len() == 0 {
        body
    } else if body[0] == '"' {
        escape_mark().push('"') + escape_quotes(body.skip(1))
    } else {
        seq![body[0]] + escape_quotes(body.skip(1))
    }
}

/// A frame as the server sends it: `prefix`, then `::{`, then the escaped
/// body of the snapshot object, then `}`, then `suffix`.
pub open spec fn server_frame(prefix: Seq<char>, body: Seq<char>, suffix: Seq<char>) -> Seq<char> {
    prefix + open_mark() + escape_quotes(body) + close_mark() + suffix
}

/// Removing triple backslashes passes over a first character that is not a
/// backslash.
proof fn lemma_remove_escape_head(c: char, t: Seq<char>)
    requires
        c != '\\',
    ensures
        remove_all(seq![c] + t, escape_mark()) == seq![c] + remove_all(t, escape_mark()),
{
    let s = seq![c] + t;
    if s.len() >= 3 {
        assert(s.subrange(0, 3)[0] == c);
    }
    assert(!occurs_at(s, escape_mark(), 0));
    assert(s.skip(1) =~= t);
}

/// Unescaping an escaped body gives the body back.
proof fn lemma_unescape_escaped(body: Seq<char>, tail: Seq<char>)
    requires
        !body.contains('\\'),
    ensures
        remove_all(escape_quotes(body) + tail, escape_mark()) == body + remove_all(tail, escape_mark()),
    decreases body.len(),
{
    let rest = body.skip(1);
    if body.len() == 0 {
        assert(escape_quotes(body) + tail =~= tail);
        assert(body + remove_all(tail, escape_mark()) =~= remove_all(tail, escape_mark()));
    } else {
        assert(!rest.contains('\\')) by {
            if rest.contains('\\') {
                let k = choose|k: int| 0 <= k < rest.len() && rest[k] == '\\';
                assert(body[k + 1] == '\\');
            }
        }
        assert(body[0] != '\\') by {
            assert(body.contains(body[0]));
        }
        lemma_unescape_escaped(rest, tail);
        let inner = escape_quotes(rest) + tail;
        if body[0] == '"' {
            let s = escape_quotes(body) + tail;
            assert(s =~= escape_mark() + (seq!['"'] + inner));
            assert(s.subrange(0, 3) =~= escape_mark());
            assert(occurs_at(s, escape_mark(), 0));
            assert(s.skip(3) =~= seq!['"'] + inner);
            lemma_remove_escape_head('"', inner);
        } else {
            assert(escape_quotes(body) + tail =~= seq![body[0]] + inner);
            lemma_remove_escape_head(body[0], inner);
        }
        assert(body =~= seq![body[0]] + rest);
        assert(seq![body[0]] + (rest + remove_all(tail, escape_mark()))
            =~= body + remove_all(tail, escape_mark()));
    }
}

/// Escaping adds no character other than backslashes.
proof fn lemma_escape_keeps_out(body: Seq<char>, c: char)
    requires
        c != '\\',
        !body.contains(c),
    ensures
        !escape_quotes(body).contains(c),
    decreases body.len(),
{
    if body.len() > 0 {
        let rest = body.skip(1);
        assert(!rest.contains(c)) by {
            if rest.contains(c) {
                let k = choose|k: int| 0 <= k < rest.len() && rest[k] == c;
                assert(body[k + 1] == c);
            }
        }
        assert(body[0] != c) by {
            assert(body.contains(body[0]));
        }
        lemma_escape_keeps_out(rest, c);
        let e = escape_quotes(body);
        let head = if body[0] == '"' { escape_mark().push('"') } else { seq![body[0]] };
        assert(e == head + escape_quotes(rest));
        if e.contains(c) {
            let k = choose|k: int| 0 <= k < e.len() && e[k] == c;
            if k < head.len() {
                assert(head[k] == c);
            } else {
                assert(escape_quotes(rest)[k - head.len()] == c);
            }
        }
    }
}

/// The parts of a server frame, index by index.
proof fn lemma_server_frame_layout(prefix: Seq<char>, body: Seq<char>, suffix: Seq<char>)
    ensures ({
        let frame = server_frame(prefix, body, suffix);
        let esc = escape_quotes(body);
        let p = prefix.len() as int;
        let e = esc.len() as int;
        &&& frame.len() == p + 3 + e + 1 + suffix.len()
        &&& forall|k: int| 0 <= k < p ==> frame[k] == prefix[k]
        &&& forall|k: int| p <= k < p + 3 ==> frame[k] == open_mark()[k - p]
        &&& forall|k: int| p + 3 <= k < p + 3 + e ==> frame[k] == esc[k - p - 3]
        &&& frame[p + 3 + e] == '}'
    }),
{
    let frame = server_frame(prefix, body, suffix);
    let esc = escape_quotes(body);
    assert(frame =~= prefix + (open_mark() + (esc + (close_mark() + suffix))));
}

/// In a server frame the first `::{` starts right after the prefix.
proof fn lemma_server_frame_open(prefix: Seq<char>, body: Seq<char>, suffix: Seq<char>)
    requires
        !contains(prefix, open_mark()),
    ensures
        spec_find(server_frame(prefix, body, suffix), open_mark()) == Some(prefix.len() as int),
{
    let frame = server_frame(prefix, body, suffix);
    let p = prefix.len() as int;
    lemma_server_frame_layout(prefix, body, suffix);
    assert(frame.subrange(p, p + 3) =~= open_mark());
    assert forall|j: int| 0 <= j < p implies !#[trigger] occurs_at(frame, open_mark(), j) by {
        if j + 3 <= p {
            if occurs_at(frame, open_mark(), j) {
                assert(prefix.subrange(j, j + 3) =~= frame.subrange(j, j + 3));
                assert(occurs_at(prefix, open_mark(), j));
            }
        } else {
            assert(frame.subrange(j, j + 3)[2] == frame[j + 2]);
        }
    }
    lemma_first_occurrence_is_find(frame, open_mark(), p);
}

/// In a server frame the first `}` closes the escaped body.
proof fn lemma_server_frame_close(prefix: Seq<char>, body: Seq<char>, suffix: Seq<char>)
    requires
        !prefix.contains('}'),
        !body.contains('}'),
    ensures
        spec_find(server_frame(prefix, body, suffix), close_mark())
            == Some(prefix.len() + 3 + escape_quotes(body).len() as int),
{
    let frame = server_frame(prefix, body, suffix);
    let esc = escape_quotes(body);
    let p = prefix.len() as int;
    let c = p + 3 + esc.len();
    lemma_server_frame_layout(prefix, body, suffix);
    lemma_escape_keeps_out(body, '}');
    assert(frame.subrange(c, c + 1) =~= close_mark());
    assert forall|j: int| 0 <= j < c implies !#[trigger] occurs_at(frame, close_mark(), j) by {
        if occurs_at(frame, close_mark(), j) {
            assert(frame.subrange(j, j + 1)[0] == frame[j]);
            if j < p {
                assert(prefix.contains(prefix[j]));
            } else if j >= p + 3 {
                assert(esc.contains(esc[j - p - 3]));
            }
        }
    }
    lemma_first_occurrence_is_find(frame, close_mark(), c);
}

/// The text cut from a server frame, before unescaping.
proof fn lemma_server_frame_cut(prefix: Seq<char>, body: Seq<char>, suffix: Seq<char>)
    ensures
        server_frame(prefix, body, suffix).subrange(
            prefix.len() + 2 as int,
            prefix.len() + 3 + escape_quotes(body).len() + 1 as int,
        ) == seq!['{'] + escape_quotes(body) + seq!['}'],
{
    let esc = escape_quotes(body);
    let frame = server_frame(prefix, body, suffix);
    let mid = seq!['{'] + esc + seq!['}'];
    assert(frame =~= (prefix + seq![':', ':']) + mid + suffix);
    assert(frame.subrange(prefix.len() + 2 as int, prefix.len() + 2 + mid.len() as int) =~= mid);
}

/// Unescaping the text cut from a server frame gives the snapshot object.
proof fn lemma_server_frame_unescape(body: Seq<char>)
    requires
        !body.contains('\\'),
    ensures
        remove_all(seq!['{'] + escape_quotes(body) + seq!['}'], escape_mark())
            == seq!['{'] + body + seq!['}'],
{
    let esc = escape_quotes(body);
    assert(seq!['{'] + esc + seq!['}'] =~= seq!['{'] + (esc + seq!['}']));
    lemma_remove_escape_head('{', esc + seq!['}']);
    lemma_unescape_escaped(body, seq!['}']);
    lemma_remove_escape_head('}', Seq::<char>::empty());
    assert(seq!['}'] + Seq::<char>::empty() =~= seq!['}']);
    assert(seq!['{'] + (body + seq!['}']) =~= seq!['{'] + body + seq!['}']);
}

/// A frame written by the server, around a snapshot object whose body holds
/// neither `}` nor a backslash and behind a prefix that holds neither `::{`
/// nor `}`, is a snapshot frame, and the JSON text cut from it is the
/// snapshot object itself: `{`, the body, `}`.
pub proof fn lemma_server_frame_round_trip(prefix: Seq<char>, body: Seq<char>, suffix: Seq<char>)
    requires
        !contains(prefix, open_mark()),
        !prefix.contains('}'),
        !body.contains('}'),
        !body.contains('\\'),
    ensures
        is_snapshot_frame(server_frame(prefix, body, suffix)),
        spec_snapshot_json(server_frame(prefix, body, suffix)) == seq!['{'] + body + seq!['}'],
{
    lemma_server_frame_open(prefix, body, suffix);
    lemma_server_frame_close(prefix, body, suffix);
    lemma_server_frame_cut(prefix, body, suffix);
    lemma_server_frame_unescape(body);
}

} // verus!
