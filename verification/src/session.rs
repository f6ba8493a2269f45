//! The decisions of a stream client, as a state machine: the caller performs
//! the I/O (connecting, sending, reading frames, calling the snapshot handler)
//! and hands each outcome to `Session::step` as an `Event`; the session
//! answers with the `Action` to perform next.
//!
//! The session waits for the server's opening frame `o`; on it the client
//! subscribes to the pair and sends its user id (any other opening frame ends
//! the session with an error). It then hands every frame that carries the
//! pair's key to the handler, as the JSON text of the snapshot, and waits for
//! the verdict of the handler: `Err` stops the stream, which ends well; `Ok` goes
//! on reading. The end of the stream also ends the session well.

use vstd::prelude::*;
use crate::frame::{
    is_snapshot_frame, lemma_server_frame_round_trip, open_mark, server_frame, snapshot_json,
    spec_snapshot_json,
};
use crate::protocol::{
    carries_key, is_open_frame, lemma_key_found_in_pair_text, open_frame, spec_subscribe_message, spec_subscription_key,
    spec_uid_message, subscribe_message, subscription_key, uid_message,
};
use crate::text::contains;

verus! {

/// Where a session stands.
#[derive(Debug, Clone, Copy, PartialEq, Eq, Structural)]
pub enum Phase {
    /// Connected; the server's opening frame has not come yet.
    AwaitingOpen,
    /// Subscribed; reading frames.
    Streaming,
    /// A snapshot was handed to the handler, whose verdict has not come yet.
    AwaitingHandler,
    /// The session is over.
    Closed,
}

/// What happened since the last step.
#[derive(Debug)]
pub enum Event {
    /// A text frame came from the server.
    Frame(String),
    /// The handler returned its verdict on the last snapshot.
    HandlerReturned(Result<(), ()>),
    /// The server's stream ended.
    StreamEnded,
}

/// What the client does next.
#[derive(Debug)]
pub enum Action {
    /// Send these messages, in order, then start the keep-alive messages.
    Subscribe(Vec<String>),
    /// Hand this JSON text of a snapshot to the handler.
    Deliver(String),
    /// Read the next frame.
    Wait,
    /// End the session with this result.
    Finish(Result<(), ()>),
}

/// An `Event`, with its text as characters.
pub enum EventView {
    Frame(Seq<char>),
    HandlerReturned(Result<(), ()>),
    StreamEnded,
}

/// An `Action`, with its texts as characters.
pub enum ActionView {
    Subscribe(Seq<Seq<char>>),
    Deliver(Seq<char>),
    Wait,
    Finish(Result<(), ()>),
}

impl View for Event {
    type V = EventView;

    open spec fn view(&self) -> EventView {
        match self {
            Event::Frame(t) => EventView::Frame(t@),
            Event::HandlerReturned(r) => EventView::HandlerReturned(*r),
            Event::StreamEnded => EventView::StreamEnded,
        }
    }
}

impl View for Action {
    type V = ActionView;

    open spec fn view(&self) -> ActionView {
        match self {
            Action::Subscribe(ms) => ActionView::Subscribe(ms@.map_values(|m: String| m@)),
            Action::Deliver(j) => ActionView::Deliver(j@),
            Action::Wait => ActionView::Wait,
            Action::Finish(r) => ActionView::Finish(*r),
        }
    }
}

/// Whether a session of `pair_id` in `phase` can take `event`. A session
/// waiting for the opening frame takes a frame; a streaming session takes
/// the end of the stream, and a frame from which, if it carries the pair's
/// key, a snapshot can be cut; a session waiting for the handler takes its
/// verdict; a closed session takes nothing.
pub open spec fn accepts(phase: Phase, pair_id: Seq<char>, event: EventView) -> bool {
    match (phase, event) {
        (Phase::AwaitingOpen, EventView::Frame(_)) => true,
        (Phase::Streaming, EventView::Frame(t)) =>
            contains(t, spec_subscription_key(pair_id)) ==> is_snapshot_frame(t),
        (Phase::Streaming, EventView::StreamEnded) => true,
        (Phase::AwaitingHandler, EventView::HandlerReturned(_)) => true,
        _ => false,
    }
}

/// The next phase and the action of a session of `pair_id` in `phase` that
/// takes `event` (for events it accepts).
pub open spec fn transition(phase: Phase, pair_id: Seq<char>, event: EventView) -> (Phase, ActionView) {
    match (phase, event) {
        (Phase::AwaitingOpen, EventView::Frame(t)) => if t == open_frame() {
            (
                Phase::Streaming,
                ActionView::Subscribe(seq![spec_subscribe_message(pair_id), spec_uid_message()]),
            )
        } else {
            (Phase::Closed, ActionView::Finish(Err(())))
        },
        (Phase::Streaming, EventView::Frame(t)) => if contains(t, spec_subscription_key(pair_id)) {
            (Phase::AwaitingHandler, ActionView::Deliver(spec_snapshot_json(t)))
        } else {
            (Phase::Streaming, ActionView::Wait)
        },
        (Phase::AwaitingHandler, EventView::HandlerReturned(r)) => match r {
            Ok(_) => (Phase::Streaming, ActionView::Wait),
            Err(_) => (Phase::Closed, ActionView::Finish(Ok(()))),
        },
        (_, _) => (Phase::Closed, ActionView::Finish(Ok(()))),
    }
}

/// A stream session for one pair.
pub struct Session {
    pair_id: String,
    key: Vec<char>,
    phase: Phase,
}

/// A `Session`: its pair and its phase.
pub struct SessionView {
    pub pair_id: Seq<char>,
    pub phase: Phase,
}

impl View for Session {
    type V = SessionView;

    closed spec fn view(&self) -> SessionView {
        SessionView { pair_id: self.pair_id@, phase: self.phase }
    }
}

impl Session {
    #[verifier::type_invariant]
    closed spec fn key_matches_pair(self) -> bool {
        self.key@ == spec_subscription_key(self.pair_id@)
    }

    /// A session for `pair_id`, waiting for the opening frame.
    pub fn new(pair_id: String) -> (s: Session)
        ensures
            s@.pair_id == pair_id@,
            s@.phase == Phase::AwaitingOpen,
    {
        let key = subscription_key(pair_id.as_str());
        Session { pair_id, key, phase: Phase::AwaitingOpen }
    }

    /// The pair of this session.
    pub fn pair_id(&self) -> (p: &str)
        ensures
            p@ == self@.pair_id,
    {
        self.pair_id.as_str()
    }

    /// The phase of this session.
    pub fn phase(&self) -> (p: Phase)
        ensures
            p == self@.phase,
    {
        self.phase
    }

    /// Whether this session can take `event`.
    pub fn accepts(&self, event: &Event) -> (b: bool)
        ensures
            b == accepts(self@.phase, self@.pair_id, event@),
    {
        proof {
            use_type_invariant(self);
        }
        match (self.phase, event) {
            (Phase::AwaitingOpen, Event::Frame(_)) => true,
            (Phase::Streaming, Event::Frame(t)) => {
                if carries_key(t.as_str(), &self.key) {
                    crate::frame::check_frame(t.as_str()).is_ok()
                } else {
                    true
                }
            },
            (Phase::Streaming, Event::StreamEnded) => true,
            (Phase::AwaitingHandler, Event::HandlerReturned(_)) => true,
            _ => false,
        }
    }

    /// Takes `event` and tells what to do next.
    pub fn step(&mut self, event: Event) -> (a: Action)
        requires
            accepts(old(self)@.phase, old(self)@.pair_id, event@),
        ensures
            final(self)@.pair_id == old(self)@.pair_id,
            (final(self)@.phase, a@) == transition(old(self)@.phase, old(self)@.pair_id, event@),
    {
        proof {
            use_type_invariant(&*self);
        }
        match event {
            Event::Frame(t) => {
                if self.phase == Phase::AwaitingOpen {
                    if is_open_frame(t.as_str()) {
                        self.phase = Phase::Streaming;
                        let mut ms: Vec<String> = Vec::new();
                        ms.push(subscribe_message(self.pair_id.as_str()));
                        ms.push(uid_message());
                        assert(ms@.map_values(|m: String| m@) =~= seq![
                            spec_subscribe_message(self.pair_id@),
                            spec_uid_message(),
                        ]);
                        Action::Subscribe(ms)
                    } else {
                        self.phase = Phase::Closed;
                        Action::Finish(Err(()))
                    }
                } else if carries_key(t.as_str(), &self.key) {
                    self.phase = Phase::AwaitingHandler;
                    Action::Deliver(snapshot_json(t.as_str()))
                } else {
                    Action::Wait
                }
            },
            Event::HandlerReturned(r) => match r {
                Ok(_) => {
                    self.phase = Phase::Streaming;
                    Action::Wait
                },
                Err(_) => {
                    self.phase = Phase::Closed;
                    Action::Finish(Ok(()))
                },
            },
            Event::StreamEnded => {
                self.phase = Phase::Closed;
                Action::Finish(Ok(()))
            },
        }
    }
}

/// The final phase and the actions of a session of `pair_id` that starts in
/// `phase` and takes `events` one by one; `None` if it cannot take one of them.
pub open spec fn run(phase: Phase, pair_id: Seq<char>, events: Seq<EventView>) -> Option<(Phase, Seq<ActionView>)>
    decreases events.len(),
{
    if events.len() == 0 {
        Some((phase, Seq::empty()))
    } else if !accepts(phase, pair_id, events[0]) {
        None
    } else {
        let (next, action) = transition(phase, pair_id, events[0]);
        match run(next, pair_id, events.skip(1)) {
            Some((last, actions)) => Some((last, seq![action] + actions)),
            None => None,
        }
    }
}

/// A closed session takes no event: once the session has finished, nothing
/// more is sent, read or handed to the handler.
pub proof fn lemma_closed_is_final(pair_id: Seq<char>, event: EventView)
    ensures
        !accepts(Phase::Closed, pair_id, event),
{
}

/// Only a frame that carries the pair's key is handed to the handler, and
/// what is handed is the JSON text of its snapshot.
pub proof fn lemma_delivers_only_keyed_frames(phase: Phase, pair_id: Seq<char>, event: EventView)
    requires
        accepts(phase, pair_id, event),
        transition(phase, pair_id, event).1 is Deliver,
    ensures
        event matches EventView::Frame(t) && contains(t, spec_subscription_key(pair_id))
            && transition(phase, pair_id, event).1 == ActionView::Deliver(spec_snapshot_json(t)),
{
}

/// A handler that returns `Err` stops the stream, and the session ends well.
pub proof fn lemma_handler_error_stops(pair_id: Seq<char>)
    ensures
        transition(Phase::AwaitingHandler, pair_id, EventView::HandlerReturned(Err(())))
            == (Phase::Closed, ActionView::Finish(Ok(()))),
        accepts(Phase::AwaitingHandler, pair_id, EventView::HandlerReturned(Err(()))),
{
}

/// A run yields one action per event.
pub proof fn lemma_run_one_action_per_event(phase: Phase, pair_id: Seq<char>, events: Seq<EventView>)
    requires
        run(phase, pair_id, events) is Some,
    ensures
        run(phase, pair_id, events).unwrap().1.len() == events.len(),
    decreases events.len(),
{
    if events.len() > 0 {
        let next = transition(phase, pair_id, events[0]).0;
        lemma_run_one_action_per_event(next, pair_id, events.skip(1));
    }
}

/// A session past its opening never subscribes again.
proof fn lemma_no_subscribe_after_open(phase: Phase, pair_id: Seq<char>, events: Seq<EventView>)
    requires
        phase != Phase::AwaitingOpen,
        run(phase, pair_id, events) is Some,
    ensures
        forall|k: int| 0 <= k < run(phase, pair_id, events).unwrap().1.len()
            ==> !(#[trigger] run(phase, pair_id, events).unwrap().1[k] is Subscribe),
    decreases events.len(),
{
    if events.len() > 0 {
        let (next, action) = transition(phase, pair_id, events[0]);
        lemma_no_subscribe_after_open(next, pair_id, events.skip(1));
        let rest = run(next, pair_id, events.skip(1)).unwrap().1;
        let all = run(phase, pair_id, events).unwrap().1;
        assert(all == seq![action] + rest);
        assert forall|k: int| 0 <= k < all.len() implies !(#[trigger] all[k] is Subscribe) by {
            if k > 0 {
                assert(all[k] == rest[k - 1]);
            }
        }
    }
}

/// A closed session's run holds no event.
proof fn lemma_run_from_closed(pair_id: Seq<char>, events: Seq<EventView>)
    requires
        run(Phase::Closed, pair_id, events) is Some,
    ensures
        events.len() == 0,
{
    if events.len() > 0 {
        lemma_closed_is_final(pair_id, events[0]);
    }
}

/// From its start, a session subscribes at most once, and only as its first
/// action; it hands a snapshot to the handler only once it has subscribed.
pub proof fn lemma_subscribes_first_and_once(pair_id: Seq<char>, events: Seq<EventView>)
    requires
        run(Phase::AwaitingOpen, pair_id, events) is Some,
    ensures
        ({
            let actions = run(Phase::AwaitingOpen, pair_id, events).unwrap().1;
            &&& forall|k: int| 0 < k < actions.len() ==> !(#[trigger] actions[k] is Subscribe)
            &&& forall|k: int| 0 <= k < actions.len() && (#[trigger] actions[k] is Deliver)
                ==> actions[0] is Subscribe
        }),
{
    if events.len() > 0 {
        let (next, action) = transition(Phase::AwaitingOpen, pair_id, events[0]);
        let rest = run(next, pair_id, events.skip(1)).unwrap().1;
        let actions = run(Phase::AwaitingOpen, pair_id, events).unwrap().1;
        assert(actions == seq![action] + rest);
        lemma_no_subscribe_after_open(next, pair_id, events.skip(1));
        if next == Phase::Closed {
            lemma_run_from_closed(pair_id, events.skip(1));
            lemma_run_one_action_per_event(next, pair_id, events.skip(1));
        }
        assert forall|k: int| 0 < k < actions.len() implies !(#[trigger] actions[k] is Subscribe) by {
            assert(actions[k] == rest[k - 1]);
        }
    }
}

/// While a snapshot is with the handler, the session takes nothing but the
/// verdict of the handler: snapshots are handed over one at a time.
pub proof fn lemma_one_snapshot_at_a_time(phase: Phase, pair_id: Seq<char>, events: Seq<EventView>, k: int)
    requires
        run(phase, pair_id, events) is Some,
        0 <= k < events.len() - 1,
        run(phase, pair_id, events).unwrap().1[k] is Deliver,
    ensures
        events[k + 1] is HandlerReturned,
    decreases events.len(),
{
    let (next, action) = transition(phase, pair_id, events[0]);
    let rest = run(next, pair_id, events.skip(1)).unwrap().1;
    assert(run(phase, pair_id, events).unwrap().1 == seq![action] + rest);
    lemma_run_one_action_per_event(next, pair_id, events.skip(1));
    if k == 0 {
        let e1 = events.skip(1)[0];
        assert(e1 == events[1]);
        assert(next == Phase::AwaitingHandler);
        assert(accepts(next, pair_id, e1));
    } else {
        assert(rest[k - 1] is Deliver);
        lemma_one_snapshot_at_a_time(next, pair_id, events.skip(1), k - 1);
        assert(events.skip(1)[k] == events[k + 1]);
    }
}

/// A streaming session takes every frame from which a snapshot can be cut,
/// whatever its length.
pub proof fn lemma_streaming_accepts_snapshot_frames(pair_id: Seq<char>, frame: Seq<char>)
    requires
        is_snapshot_frame(frame),
    ensures
        accepts(Phase::Streaming, pair_id, EventView::Frame(frame)),
{
}

/// A streaming session hands every snapshot frame that holds
/// `pid-<pair>::{` to the handler, as the JSON text of its snapshot,
/// whatever the frame's length.
pub proof fn lemma_streaming_delivers_keyed_frames(
    pair_id: Seq<char>,
    before: Seq<char>,
    after: Seq<char>,
)
    requires
        is_snapshot_frame(before + ("pid-"@ + pair_id + "::{"@) + after),
    ensures
        ({
            let frame = before + ("pid-"@ + pair_id + "::{"@) + after;
            &&& accepts(Phase::Streaming, pair_id, EventView::Frame(frame))
            &&& transition(Phase::Streaming, pair_id, EventView::Frame(frame))
                == (Phase::AwaitingHandler, ActionView::Deliver(spec_snapshot_json(frame)))
        }),
{
    lemma_key_found_in_pair_text(pair_id, before, after);
}

/// A frame written by the server for the pair, whose snapshot body holds
/// neither `}` nor a backslash, is handed by a streaming session to the
/// handler as the snapshot object itself: `{`, the body, `}`.
pub proof fn lemma_streaming_delivers_server_snapshot(
    pair_id: Seq<char>,
    lead: Seq<char>,
    body: Seq<char>,
    suffix: Seq<char>,
)
    requires
        !crate::text::contains(lead + "pid-"@ + pair_id, open_mark()),
        !(lead + "pid-"@ + pair_id).contains('}'),
        !body.contains('}'),
        !body.contains('\\'),
    ensures
        ({
            let frame = server_frame(lead + "pid-"@ + pair_id, body, suffix);
            &&& accepts(Phase::Streaming, pair_id, EventView::Frame(frame))
            &&& transition(Phase::Streaming, pair_id, EventView::Frame(frame))
                == (Phase::AwaitingHandler, ActionView::Deliver(seq!['{'] + body + seq!['}']))
        }),
{
    let prefix = lead + "pid-"@ + pair_id;
    let frame = server_frame(prefix, body, suffix);
    lemma_server_frame_round_trip(prefix, body, suffix);
    let after = crate::frame::escape_quotes(body) + seq!['}'] + suffix;
    assert(frame =~= lead + ("pid-"@ + pair_id + "::{"@) + after) by {
        reveal_strlit("::{");
    }
    lemma_key_found_in_pair_text(pair_id, lead, after);
}

/// How a session answers each event it takes: the opening frame `o`
/// subscribes to the pair and sends the user id; any other opening frame
/// ends the session with an error; a streaming session skips a frame
/// without the pair's key and ends well at the end of the stream; a handler
/// returning `Ok` lets the session read on.
pub proof fn lemma_session_answers(pair_id: Seq<char>, frame: Seq<char>)
    ensures
        transition(Phase::AwaitingOpen, pair_id, EventView::Frame(seq!['o']))
            == (Phase::Streaming, ActionView::Subscribe(seq![spec_subscribe_message(pair_id), spec_uid_message()])),
        frame != seq!['o'] ==> transition(Phase::AwaitingOpen, pair_id, EventView::Frame(frame))
            == (Phase::Closed, ActionView::Finish(Err(()))),
        !contains(frame, spec_subscription_key(pair_id)) ==> accepts(Phase::Streaming, pair_id, EventView::Frame(frame))
            && transition(Phase::Streaming, pair_id, EventView::Frame(frame)) == (Phase::Streaming, ActionView::Wait),
        accepts(Phase::Streaming, pair_id, EventView::StreamEnded),
        transition(Phase::Streaming, pair_id, EventView::StreamEnded) == (Phase::Closed, ActionView::Finish(Ok(()))),
        accepts(Phase::AwaitingHandler, pair_id, EventView::HandlerReturned(Ok(()))),
        transition(Phase::AwaitingHandler, pair_id, EventView::HandlerReturned(Ok(())))
            == (Phase::Streaming, ActionView::Wait),
        accepts(Phase::AwaitingOpen, pair_id, EventView::Frame(frame)),
{
}

} // verus!
