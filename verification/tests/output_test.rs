use minishell::{append_bytes, write_and_flush_buf, write_and_flush_str, Output};

#[test]
fn test_write_and_flush_buf_adds_a_line_feed() {
    let mut w = Vec::new();
    write_and_flush_buf(&mut w, b"abc");
    assert_eq!(w, b"abc\n");
    write_and_flush_buf(&mut w, b"");
    assert_eq!(w, b"abc\n\n");
    write_and_flush_buf(&mut w, &[0xFF, 0x00]);
    assert_eq!(w, b"abc\n\n\xFF\x00\n");
}

#[test]
fn test_write_and_flush_str_writes_utf8() {
    let mut w = b"> ".to_vec();
    write_and_flush_str(&mut w, "héllo 日本");
    assert_eq!(w, "> héllo 日本\n".as_bytes());
}

#[test]
fn test_append_bytes() {
    let mut w = vec![1u8, 2];
    append_bytes(&mut w, &[3, 4, 5]);
    assert_eq!(w, vec![1, 2, 3, 4, 5]);
    append_bytes(&mut w, &[]);
    assert_eq!(w, vec![1, 2, 3, 4, 5]);
}

#[test]
fn test_output_keeps_what_it_is_given() {
    let output = Output::new(b"out".to_vec(), b"err".to_vec());
    assert_eq!(output.out, b"out");
    assert_eq!(output.err, b"err");
}

#[test]
fn test_capture_adds_to_both_buffers() {
    let mut output = Output::new(b"a".to_vec(), Vec::new());
    output.capture(b"stdout\n", b"stderr");
    assert_eq!(output.out, b"astdout\n");
    assert_eq!(output.err, b"stderr");
    output.capture(b"", b"!");
    assert_eq!(output.out, b"astdout\n");
    assert_eq!(output.err, b"stderr!");
}
