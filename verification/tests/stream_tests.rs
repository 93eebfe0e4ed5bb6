use chatgpt::stream::ReplyStream;

#[test]
fn receive_returns_data_of_completed_events() {
    let mut st = ReplyStream::new();
    let out = st.receive(b"data: {\"a\":1}\n\nevent: ping\n\ndata: [DO");
    assert_eq!(out, vec!["{\"a\":1}".to_string()]);
    assert_eq!(st.buffer, "data: [DO");
    let out = st.receive(b"NE]\n\n");
    assert_eq!(out, vec!["[DONE]".to_string()]);
    assert_eq!(st.buffer, "");
}

#[test]
fn receive_decodes_invalid_utf8_leniently() {
    let mut st = ReplyStream::new();
    let out = st.receive(b"data: a\xffb\n\n");
    assert_eq!(out, vec!["a\u{fffd}b".to_string()]);
}

#[test]
fn receive_decodes_valid_utf8() {
    let mut st = ReplyStream::new();
    let out = st.receive("data: caf\u{e9}\n\n".as_bytes());
    assert_eq!(out, vec!["caf\u{e9}".to_string()]);
}

#[test]
fn first_part_is_shown_whole() {
    let mut st = ReplyStream::new();
    assert_eq!(st.show_part("Hello".to_string()), "Hello");
    assert_eq!(st.last, "Hello");
}

#[test]
fn extended_part_shows_only_the_new_text() {
    let mut st = ReplyStream::new();
    st.show_part("Hello".to_string());
    assert_eq!(st.show_part("Hello world".to_string()), " world");
}

#[test]
fn repeated_part_shows_nothing() {
    let mut st = ReplyStream::new();
    st.show_part("Hi".to_string());
    assert_eq!(st.show_part("Hi".to_string()), "");
}

#[test]
fn every_occurrence_of_the_previous_part_is_removed() {
    let mut st = ReplyStream::new();
    st.show_part("ab".to_string());
    assert_eq!(st.show_part("abcab".to_string()), "c");
    st.show_part("aa".to_string());
    assert_eq!(st.show_part("aaa".to_string()), "a");
}

fn run(chunks: &[&[u8]]) -> (Vec<String>, String) {
    let mut st = ReplyStream::new();
    let mut out = Vec::new();
    for c in chunks {
        out.extend(st.receive(c));
    }
    (out, st.buffer)
}

#[test]
fn event_without_data_changes_no_payload() {
    let plain = run(&[b"data: a\n\ndata: b\n\n"]);
    let with_ping = run(&[b"data: a\n\nevent: ping\nid: 9\n\ndata: b\n\n"]);
    assert_eq!(plain, with_ping);
    assert_eq!(plain.0, vec!["a".to_string(), "b".to_string()]);
}

#[test]
fn chunks_cut_at_character_boundaries_give_the_same_payloads() {
    let body = "data: h\u{e9}llo \u{4e16}\u{754c}\n\ndata: [DONE]\n\ndata: x";
    let whole = run(&[body.as_bytes()]);
    for (i, _) in body.char_indices() {
        let (a, b) = body.split_at(i);
        assert_eq!(run(&[a.as_bytes(), b.as_bytes()]), whole);
    }
}
