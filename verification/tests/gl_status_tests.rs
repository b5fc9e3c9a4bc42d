use oscillot::gl_status::info_log_message;
use oscillot::gl_status::status_outcome;
use oscillot::gl_status::GL_TRUE;

#[test]
fn true_status_gives_the_object() {
    assert_eq!(status_outcome(3, GL_TRUE, b"ignored\0"), Ok(3));
}

#[test]
fn false_status_gives_the_log() {
    assert_eq!(
        status_outcome(3, 0, b"0:1(1): error: syntax\0\0\0"),
        Err("0:1(1): error: syntax".to_string())
    );
}

#[test]
fn other_status_values_fail_too() {
    assert_eq!(status_outcome(9, 2, b"bad\0"), Err("bad".to_string()));
}

#[test]
fn log_stops_at_the_first_nul() {
    assert_eq!(info_log_message(b"abc\0def\0"), "abc");
    assert_eq!(info_log_message(b"no nul"), "no nul");
    assert_eq!(info_log_message(b""), "");
    assert_eq!(info_log_message(b"\0x"), "");
}

#[test]
fn invalid_utf8_is_replaced() {
    assert_eq!(info_log_message(&[b'a', 0xff, b'b', 0]), "a\u{fffd}b");
}
