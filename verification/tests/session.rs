use forexpros_wss::protocol::{subscribe_message, uid_message};
use forexpros_wss::session::{Action, Event, Phase, Session};

const PAIR: &str = "945629";

fn keyed_frame(body: &str) -> String {
    format!("a[\"{{\\\"message\\\":\\\"pid-{}::{{{}}}\\\"}}\"]", PAIR, body)
}

fn step(session: &mut Session, event: Event) -> Action {
    assert!(session.accepts(&event), "event not accepted: {:?}", event);
    session.step(event)
}

#[test]
fn opening_frame_subscribes() {
    let mut s = Session::new(PAIR.to_string());
    assert_eq!(s.phase(), Phase::AwaitingOpen);
    assert_eq!(s.pair_id(), PAIR);
    match step(&mut s, Event::Frame("o".to_string())) {
        Action::Subscribe(ms) => assert_eq!(ms, vec![subscribe_message(PAIR), uid_message()]),
        other => panic!("unexpected {:?}", other),
    }
    assert_eq!(s.phase(), Phase::Streaming);
}

#[test]
fn other_opening_frame_fails() {
    let mut s = Session::new(PAIR.to_string());
    match step(&mut s, Event::Frame("h".to_string())) {
        Action::Finish(r) => assert_eq!(r, Err(())),
        other => panic!("unexpected {:?}", other),
    }
    assert_eq!(s.phase(), Phase::Closed);
}

#[test]
fn keyed_frame_is_delivered_and_err_stops() {
    let mut s = Session::new(PAIR.to_string());
    step(&mut s, Event::Frame("o".to_string()));
    let frame = keyed_frame("\\\\\\\"pid\\\\\\\":\\\\\\\"945629\\\\\\\"");
    match step(&mut s, Event::Frame(frame)) {
        Action::Deliver(json) => assert_eq!(json, "{\"pid\":\"945629\"}"),
        other => panic!("unexpected {:?}", other),
    }
    assert_eq!(s.phase(), Phase::AwaitingHandler);
    assert!(!s.accepts(&Event::Frame("x".to_string())));
    assert!(!s.accepts(&Event::StreamEnded));
    match step(&mut s, Event::HandlerReturned(Err(()))) {
        Action::Finish(r) => assert_eq!(r, Ok(())),
        other => panic!("unexpected {:?}", other),
    }
    assert_eq!(s.phase(), Phase::Closed);
    assert!(!s.accepts(&Event::Frame("o".to_string())));
    assert!(!s.accepts(&Event::StreamEnded));
    assert!(!s.accepts(&Event::HandlerReturned(Ok(()))));
}

#[test]
fn handler_ok_keeps_reading() {
    let mut s = Session::new(PAIR.to_string());
    step(&mut s, Event::Frame("o".to_string()));
    assert!(matches!(step(&mut s, Event::Frame(keyed_frame(""))), Action::Deliver(_)));
    assert!(matches!(step(&mut s, Event::HandlerReturned(Ok(()))), Action::Wait));
    assert_eq!(s.phase(), Phase::Streaming);
    assert!(matches!(step(&mut s, Event::Frame(keyed_frame("1"))), Action::Deliver(_)));
}

#[test]
fn other_frames_are_skipped() {
    let mut s = Session::new(PAIR.to_string());
    step(&mut s, Event::Frame("o".to_string()));
    let heartbeat = "a[\"{\\\"_event\\\":\\\"heartbeat\\\",\\\"data\\\":\\\"h\\\"}\"]".to_string();
    assert!(matches!(step(&mut s, Event::Frame(heartbeat)), Action::Wait));
    let other_pair = "a[\"{\\\"message\\\":\\\"pid-8984::{}\\\"}\"]".to_string();
    assert!(matches!(step(&mut s, Event::Frame(other_pair)), Action::Wait));
    assert_eq!(s.phase(), Phase::Streaming);
}

#[test]
fn end_of_stream_ends_well() {
    let mut s = Session::new(PAIR.to_string());
    step(&mut s, Event::Frame("o".to_string()));
    match step(&mut s, Event::StreamEnded) {
        Action::Finish(r) => assert_eq!(r, Ok(())),
        other => panic!("unexpected {:?}", other),
    }
}

#[test]
fn refused_events() {
    let s = Session::new(PAIR.to_string());
    assert!(!s.accepts(&Event::StreamEnded));
    assert!(!s.accepts(&Event::HandlerReturned(Ok(()))));
    let mut s = Session::new(PAIR.to_string());
    step(&mut s, Event::Frame("o".to_string()));
    // Carries the key, but its first `}` stands before `::{`.
    let broken = format!("}}pid-{}::{{", PAIR);
    assert!(!s.accepts(&Event::Frame(broken)));
    assert!(!s.accepts(&Event::HandlerReturned(Ok(()))));
}

#[test]
fn subscribes_once() {
    let mut s = Session::new(PAIR.to_string());
    let mut subscriptions = 0;
    let events = vec![
        Event::Frame("o".to_string()),
        Event::Frame("o".to_string()),
        Event::Frame(keyed_frame("")),
        Event::HandlerReturned(Ok(())),
        Event::Frame("o".to_string()),
        Event::StreamEnded,
    ];
    for e in events {
        if let Action::Subscribe(_) = step(&mut s, e) {
            subscriptions += 1;
        }
    }
    assert_eq!(subscriptions, 1);
    assert_eq!(s.phase(), Phase::Closed);
}
