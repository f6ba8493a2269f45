use forexpros_wss::url::{generate_stream_url, stream_url};
use regex::Regex;

#[test]
fn push_test_generate_stream_url() {
    let url = generate_stream_url();

    assert_eq!(
        Regex::new(r#"wss://stream\d+.forexpros.com/echo/[0-9a-zA-Z]{3}/[0-9a-zA-Z]{8}/websocket"#)
            .unwrap()
            .is_match(url.as_str()),
        true,
        "Generated: {}",
        url
    );
}

#[test]
fn generated_urls_have_fixed_length() {
    for _ in 0..100 {
        let url = generate_stream_url();
        assert_eq!(url.chars().count(), 57, "Generated: {}", url);
        assert!(url.starts_with("wss://stream2"));
        assert!(url.ends_with("/websocket"));
    }
}

#[test]
fn stream_url_of_zero_draws() {
    assert_eq!(stream_url(0, 0, 0), "wss://stream200.forexpros.com/echo/000/00000000/websocket");
}

#[test]
fn stream_url_reduces_and_pads() {
    // 255 % 100 == 55; 65535 % 0xfff == 0xf.
    assert_eq!(
        stream_url(255, 0xffff, 0xdeadbeef),
        "wss://stream255.forexpros.com/echo/00f/deadbeef/websocket"
    );
    assert_eq!(
        stream_url(7, 0xffe, 0x1a),
        "wss://stream207.forexpros.com/echo/ffe/0000001a/websocket"
    );
    // 0xfff itself wraps to 0.
    assert_eq!(
        stream_url(99, 0xfff, u32::MAX),
        "wss://stream299.forexpros.com/echo/000/ffffffff/websocket"
    );
}

#[test]
fn stream_url_matches_format() {
    for (a, b, c) in [(0u8, 0u16, 0u32), (42, 1234, 987654321), (199, 40000, 16), (100, 4095, 255)] {
        let expected = format!(
            "wss://stream2{:02}.forexpros.com/echo/{:03x}/{:08x}/websocket",
            a % 100,
            b % 0xfff,
            c
        );
        assert_eq!(stream_url(a, b, c), expected);
    }
}
