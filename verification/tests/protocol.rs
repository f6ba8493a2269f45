use forexpros_wss::protocol::{
    carries_key, heartbeat_interval_ms, heartbeat_message, is_open_frame, subscribe_message,
    subscription_key, uid_message,
};

#[test]
fn subscribe_message_names_the_pair() {
    assert_eq!(
        subscribe_message("945629"),
        format!(
            "[\"{{\\\"_event\\\":\\\"bulk-subscribe\\\",\\\"tzID\\\":\\\"8\\\",\\\"message\\\":\\\"pid-{}:\\\"}}\"]",
            "945629"
        )
    );
    assert_eq!(
        subscribe_message("8984"),
        r#"["{\"_event\":\"bulk-subscribe\",\"tzID\":\"8\",\"message\":\"pid-8984:\"}"]"#
    );
}

#[test]
fn fixed_messages() {
    assert_eq!(uid_message(), r#"["{\"_event\":\"UID\",\"UID\":0}"]"#);
    assert_eq!(heartbeat_message(), r#"["{\"_event\":\"heartbeat\",\"data\":\"h\"}"]"#);
    assert_eq!(heartbeat_interval_ms(), 3200);
}

#[test]
fn key_of_a_pair() {
    let key: String = subscription_key("945629").into_iter().collect();
    assert_eq!(key, format!("pid-{}::{{", "945629"));
}

#[test]
fn opening_frame() {
    assert!(is_open_frame("o"));
    assert!(!is_open_frame("oo"));
    assert!(!is_open_frame(""));
    assert!(!is_open_frame("a[\"x\"]"));
}

#[test]
fn frames_carrying_the_key() {
    let key = subscription_key("945629");
    assert!(carries_key("a[\"{\\\"message\\\":\\\"pid-945629::{\\\\\\\"pid\\\\\\\"}\\\"}\"]", &key));
    assert!(!carries_key("a[\"{\\\"message\\\":\\\"pid-8984::{}\\\"}\"]", &key));
    assert!(!carries_key("a[\"{\\\"_event\\\":\\\"heartbeat\\\",\\\"data\\\":\\\"h\\\"}\"]", &key));
    assert!(!carries_key("pid-945629:", &key));
}
