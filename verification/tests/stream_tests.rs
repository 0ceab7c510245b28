use helyos_cli::stream::{log_data_lines, strip_data_prefix, take_sse_messages};

#[test]
fn log_lines_keep_data_payloads() {
    let lines = log_data_lines("data: one\nevent: x\ndata: two\r\n\ndata:three\n");
    assert_eq!(lines, vec!["one".to_string(), "two".to_string()]);
}

#[test]
fn strip_prefix_needs_the_space() {
    assert_eq!(strip_data_prefix("data: x").as_deref(), Some("x"));
    assert_eq!(strip_data_prefix("data:x"), None);
    assert_eq!(strip_data_prefix("data: ").as_deref(), Some(""));
}

#[test]
fn sse_buffer_keeps_incomplete_message() {
    let mut buf = String::from("data: {\"a\":1}\n\nretry: 5\n\ndata: {\"b\"");
    let datas = take_sse_messages(&mut buf);
    assert_eq!(datas, vec!["{\"a\":1}".to_string()]);
    assert_eq!(buf, "data: {\"b\"");
    buf.push_str(":2}\n\n");
    let datas = take_sse_messages(&mut buf);
    assert_eq!(datas, vec!["{\"b\":2}".to_string()]);
    assert_eq!(buf, "");
}

#[test]
fn chunking_does_not_change_the_messages() {
    let whole = "data: a\n\ndata: b\n\nevent: x\n\ndata: c\n\npart";
    let mut all = whole.to_string();
    let at_once = take_sse_messages(&mut all);
    for cut in 0..whole.len() {
        let mut buf = whole[..cut].to_string();
        let mut got = take_sse_messages(&mut buf);
        buf.push_str(&whole[cut..]);
        got.extend(take_sse_messages(&mut buf));
        assert_eq!(got, at_once);
        assert_eq!(buf, all);
    }
}
