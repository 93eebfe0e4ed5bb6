use chatgpt::sse::{parse_sse, parse_sse_chunk, SSEvent};

fn s(x: &str) -> Option<String> {
    Some(x.to_string())
}

fn fields(e: &SSEvent) -> (Option<String>, Option<String>, Option<String>, Option<u32>) {
    (e.id.clone(), e.event.clone(), e.data.clone(), e.retry)
}

#[test]
fn parse_sse_reads_all_four_fields() {
    let evs = parse_sse("id: 1\nevent: message\ndata: hello\nretry: 3000");
    assert_eq!(evs.len(), 1);
    assert_eq!(fields(&evs[0]), (s("1"), s("message"), s("hello"), Some(3000)));
}

#[test]
fn parse_sse_empty_text_is_one_empty_event() {
    let evs = parse_sse("");
    assert_eq!(evs.len(), 1);
    assert_eq!(fields(&evs[0]), (None, None, None, None));
}

#[test]
fn parse_sse_one_event_per_block() {
    let evs = parse_sse("data: a\n\ndata: b");
    assert_eq!(evs.len(), 2);
    assert_eq!(evs[0].data, s("a"));
    assert_eq!(evs[1].data, s("b"));
}

#[test]
fn parse_sse_three_newlines_leave_a_block_of_one_newline() {
    let evs = parse_sse("data: a\n\n\ndata: b");
    assert_eq!(evs.len(), 2);
    assert_eq!(evs[0].data, s("a"));
    assert_eq!(evs[1].data, s("b"));
}

#[test]
fn parse_sse_later_line_wins() {
    let evs = parse_sse("data: a\ndata: b\nid: x\nid: y");
    assert_eq!(fields(&evs[0]), (s("y"), None, s("b"), None));
}

#[test]
fn parse_sse_value_keeps_later_colons() {
    let evs = parse_sse("data: {\"a\":1}");
    assert_eq!(evs[0].data, s("{\"a\":1}"));
}

#[test]
fn parse_sse_line_without_colon_sets_empty_value() {
    let evs = parse_sse("data");
    assert_eq!(evs[0].data, s(""));
}

#[test]
fn parse_sse_unknown_fields_are_ignored() {
    let evs = parse_sse(": comment\nfoo: bar");
    assert_eq!(fields(&evs[0]), (None, None, None, None));
}

#[test]
fn parse_sse_trims_unicode_white_space() {
    let evs = parse_sse(" data \t:\u{3000}x y\u{a0}\r");
    assert_eq!(evs[0].data, s("x y"));
}

#[test]
fn parse_sse_retry_follows_u32_parsing() {
    assert_eq!(parse_sse("retry: +7")[0].retry, Some(7));
    assert_eq!(parse_sse("retry: 007")[0].retry, Some(7));
    assert_eq!(parse_sse("retry: 4294967295")[0].retry, Some(4294967295));
    assert_eq!(parse_sse("retry: 4294967296")[0].retry, None);
    assert_eq!(parse_sse("retry: -1")[0].retry, None);
    assert_eq!(parse_sse("retry: +")[0].retry, None);
    assert_eq!(parse_sse("retry:")[0].retry, None);
    assert_eq!(parse_sse("retry: 1x")[0].retry, None);
    assert_eq!(parse_sse("retry: 5\nretry: x")[0].retry, None);
}

#[test]
fn parse_sse_chunk_keeps_incomplete_event() {
    let mut buffer = String::new();
    let evs = parse_sse_chunk("data: a\n", &mut buffer);
    assert!(evs.is_empty());
    assert_eq!(buffer, "data: a\n");
    let evs = parse_sse_chunk("\ndata: b", &mut buffer);
    assert_eq!(evs.len(), 1);
    assert_eq!(evs[0].data, s("a"));
    assert_eq!(buffer, "data: b");
}

#[test]
fn parse_sse_chunk_returns_events_in_order() {
    let mut buffer = String::from("id: 1\n");
    let evs = parse_sse_chunk("data: a\n\nid: 2\ndata: b\n\nid: 3", &mut buffer);
    assert_eq!(evs.len(), 2);
    assert_eq!(fields(&evs[0]), (s("1"), None, s("a"), None));
    assert_eq!(fields(&evs[1]), (s("2"), None, s("b"), None));
    assert_eq!(buffer, "id: 3");
}

#[test]
fn parse_sse_chunk_leaves_a_lone_newline_after_three() {
    let mut buffer = String::new();
    let evs = parse_sse_chunk("data: a\n\n\n", &mut buffer);
    assert_eq!(evs.len(), 1);
    assert_eq!(buffer, "\n");
}

#[test]
fn chunked_feeding_matches_feeding_at_once() {
    let whole = "data: x\n\ndata: y\n\ndata: z";
    for cut in 0..=whole.len() {
        let (a, b) = whole.split_at(cut);
        let mut buf1 = String::new();
        let mut got: Vec<Option<String>> =
            parse_sse_chunk(a, &mut buf1).iter().map(|e| e.data.clone()).collect();
        got.extend(parse_sse_chunk(b, &mut buf1).iter().map(|e| e.data.clone()));
        let mut buf2 = String::new();
        let want: Vec<Option<String>> =
            parse_sse_chunk(whole, &mut buf2).iter().map(|e| e.data.clone()).collect();
        assert_eq!(got, want);
        assert_eq!(buf1, buf2);
    }
}

#[test]
fn blocks_and_rest_give_back_the_text() {
    let text = "a\n\nb\n\n\nc";
    let mut buffer = String::new();
    let evs = parse_sse_chunk(text, &mut buffer);
    assert_eq!(evs.len(), 2);
    assert_eq!(buffer, "\nc");
    assert!(!buffer.contains("\n\n"));
}
