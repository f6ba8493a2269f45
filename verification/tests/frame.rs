use forexpros_wss::frame::{check_frame, snapshot_json, FrameError};
use serde_json::Value;

const PID: &str = "945629";
const LAST_DIR: &str = "redDir";
const LAST_NUMERIC: f32 = 12312.4;
const LAST: &str = "3,234.5";
const BID: &str = "3,535.5";
const ASK: &str = "3,567.4";
const HIGH: &str = "3,678.1";
const LOW: &str = "3,452.1";
const LAST_CLOSE: &str = "3,513.3";
const PC: &str = "-3.3";
const PCP: &str = "-0.3%";
const PC_COL: &str = "redFont";
const TURNOVER: &str = "3.51K";
const TURNOVER_NUMERIC: u32 = 3513;
const TIME: &str = "19:21:50";
const TIMESTAMP: u64 = 1606850510;

fn server_frame() -> String {
    let pid = PID;
    let last_dir = LAST_DIR;
    let last_numeric = LAST_NUMERIC;
    let last = LAST;
    let bid = BID;
    let ask = ASK;
    let high = HIGH;
    let low = LOW;
    let last_close = LAST_CLOSE;
    let pc = PC;
    let pcp = PCP;
    let pc_col = PC_COL;
    let turnover = TURNOVER;
    let turnover_numeric = TURNOVER_NUMERIC;
    let time = TIME;
    let timestamp = TIMESTAMP;
    format!( "a[\"{{\\\"message\\\":\\\"pid-{pid}::{{\\\\\\\"pid\\\\\\\":\\\\\\\"{pid}\\\\\\\",\\\\\\\"last_dir\\\\\\\":\\\\\\\"{last_dir}\\\\\\\",\\\\\\\"last_numeric\\\\\\\":{last_numeric},\\\\\\\"last\\\\\\\":\\\\\\\"{last}\\\\\\\",\\\\\\\"bid\\\\\\\":\\\\\\\"{bid}\\\\\\\",\\\\\\\"ask\\\\\\\":\\\\\\\"{ask}\\\\\\\",\\\\\\\"high\\\\\\\":\\\\\\\"{high}\\\\\\\",\\\\\\\"low\\\\\\\":\\\\\\\"{low}\\\\\\\",\\\\\\\"last_close\\\\\\\":\\\\\\\"{last_close}\\\\\\\",\\\\\\\"pc\\\\\\\":\\\\\\\"{pc}\\\\\\\",\\\\\\\"pcp\\\\\\\":\\\\\\\"{pcp}\\\\\\\",\\\\\\\"pc_col\\\\\\\":\\\\\\\"{pc_col}\\\\\\\",\\\\\\\"turnover\\\\\\\":\\\\\\\"{turnover}\\\\\\\",\\\\\\\"turnover_numeric\\\\\\\":{turnover_numeric},\\\\\\\"time\\\\\\\":\\\\\\\"{time}\\\\\\\",\\\\\\\"timestamp\\\\\\\":{timestamp}}}\\\"}}\"]",
        pid=pid,
        last_dir=last_dir,
        last_numeric=last_numeric,
        last=last,
        bid=bid,
        ask=ask,
        high=high,
        low=low,
        last_close=last_close,
        pc=pc,
        pcp=pcp,
        pc_col=pc_col,
        turnover=turnover,
        turnover_numeric=turnover_numeric,
        time=time,
        timestamp=timestamp,
    )
}

fn check_snapshot_fields(src: &str) {
    assert_eq!(check_frame(src), Ok(()));
    let json = snapshot_json(src);
    let snapshot: Value = serde_json::from_str(&json).unwrap();

    assert_eq!(snapshot["pid"], PID);
    assert_eq!(snapshot["last_dir"], LAST_DIR);
    assert_eq!(snapshot["last_numeric"].as_f64().unwrap() as f32, LAST_NUMERIC);
    assert_eq!(snapshot["last"], LAST);
    assert_eq!(snapshot["bid"], BID);
    assert_eq!(snapshot["ask"], ASK);
    assert_eq!(snapshot["high"], HIGH);
    assert_eq!(snapshot["low"], LOW);
    assert_eq!(snapshot["last_close"], LAST_CLOSE);
    assert_eq!(snapshot["pc"], PC);
    assert_eq!(snapshot["pcp"], PCP);
    assert_eq!(snapshot["pc_col"], PC_COL);
    assert_eq!(snapshot["turnover"], TURNOVER);
    assert_eq!(snapshot["turnover_numeric"].as_u64().unwrap(), TURNOVER_NUMERIC as u64);
    assert_eq!(snapshot["time"], TIME);
    assert_eq!(snapshot["timestamp"].as_u64().unwrap(), TIMESTAMP);
}

#[test]
fn data_test_from_str() {
    let src = server_frame();
    check_snapshot_fields(src.as_str());
}

#[test]
fn push_test_from_str() {
    let src = server_frame();
    check_snapshot_fields(src.as_str());
}

#[test]
fn snapshot_json_is_the_unescaped_object() {
    let src = server_frame();
    let json = snapshot_json(src.as_str());
    assert!(json.starts_with("{\"pid\":\"945629\",\"last_dir\":\"redDir\","));
    assert!(json.ends_with(",\"timestamp\":1606850510}"));
    assert!(!json.contains('\\'));
}

#[test]
fn frame_round_trip_on_a_small_object() {
    let frame = "a[\"{\\\"message\\\":\\\"pid-1::{\\\\\\\"k\\\\\\\":\\\\\\\"v\\\\\\\",\\\\\\\"n\\\\\\\":1}\\\"}\"]";
    assert_eq!(check_frame(frame), Ok(()));
    assert_eq!(snapshot_json(frame), "{\"k\":\"v\",\"n\":1}");
}

#[test]
fn frame_without_opening_marker() {
    assert_eq!(check_frame("a[\"{}\"]"), Err(FrameError::MissingOpeningBrace));
    assert_eq!(check_frame(""), Err(FrameError::MissingOpeningBrace));
    assert_eq!(check_frame(":{:}"), Err(FrameError::MissingOpeningBrace));
}

#[test]
fn frame_without_closing_brace() {
    assert_eq!(check_frame("pid-1::{\"a\":1"), Err(FrameError::MissingClosingBrace));
}

#[test]
fn frame_with_closing_brace_first() {
    assert_eq!(check_frame("}pid-1::{\"a\":1}"), Err(FrameError::ClosingBeforeOpening));
}

#[test]
fn shortest_frame() {
    assert_eq!(check_frame("::{}"), Ok(()));
    assert_eq!(snapshot_json("::{}"), "{}");
}

#[test]
fn snapshot_ends_at_first_closing_brace() {
    assert_eq!(snapshot_json("x::{\"a\":{\"b\":1}}"), "{\"a\":{\"b\":1}");
}

#[test]
fn triple_backslashes_are_removed_leftmost_first() {
    // Four backslashes lose the first three and keep one.
    assert_eq!(snapshot_json("::{\\\\\\\\a}"), "{\\a}");
    // Six lose all.
    assert_eq!(snapshot_json("::{\\\\\\\\\\\\a}"), "{a}");
    // Two stay.
    assert_eq!(snapshot_json("::{\\\\a}"), "{\\\\a}");
}

#[test]
fn non_ascii_text_is_kept() {
    assert_eq!(snapshot_json("é::{\"ü\":\"日本\"}"), "{\"ü\":\"日本\"}");
}
