use epsh::shell_bytes::ShellBytes;

#[test]
fn shell_roundtrip() {
    let bytes = ShellBytes::from_vec(vec![b'a', 0x80, b'b', 0xff]);
    assert_eq!(
        ShellBytes::from_str_lossless(&bytes.to_shell_string()),
        bytes
    );
}

#[test]
fn utf8_view() {
    let bytes = ShellBytes::from("hello");
    assert_eq!(bytes.as_utf8_str(), Some("hello"));
}
