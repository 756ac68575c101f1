use quotamiser::sse::{find_event_end, Event, EventSplitter, FramingError, MAX_EVENT_BYTES};

fn datas(events: &[Event]) -> Vec<&str> {
    events.iter().map(|e| e.data.as_str()).collect()
}

#[test]
fn events_split_across_packets_mid_utf8() {
    let mut s = EventSplitter::new();
    let event = "data: héllo\n\n".as_bytes();
    let split = "data: h".len() + 1; // inside the two-byte é
    assert!(
        s.push(&event[..split]).is_empty(),
        "a partial event must stay buffered"
    );
    assert_eq!(datas(&s.push(&event[split..])), ["héllo"]);
}

#[test]
fn comments_are_ignored() {
    let mut s = EventSplitter::new();
    assert!(s.push(b": keepalive\n\n").is_empty());
    assert_eq!(datas(&s.push(b"data: x\n\n")), ["x"]);
}

#[test]
fn crlf_terminated_events_are_parsed() {
    let mut s = EventSplitter::new();
    assert_eq!(datas(&s.push(b"data: hi\r\n\r\n")), ["hi"]);
    assert_eq!(
        datas(&s.push(b"data: stop\r\n\r\ndata: [DONE]\r\n\r\n")),
        ["stop", "[DONE]"]
    );
}

#[test]
fn cr_only_terminated_events_are_parsed() {
    let mut s = EventSplitter::new();
    assert_eq!(
        datas(&s.push(b"data: x\r\rdata: [DONE]\r\r")),
        ["x", "[DONE]"]
    );
}

#[test]
fn crlf_split_across_packets_terminates_exactly_once() {
    let mut s = EventSplitter::new();
    assert_eq!(
        datas(&s.push(b"data: y\r\n\r")),
        ["y"],
        "CRLF then CR is already a blank line"
    );
    assert!(!s.is_mid_event());
    assert_eq!(
        datas(&s.push(b"\ndata: z\r\n\r\n")),
        ["z"],
        "the split pair's LF must not terminate again"
    );
    assert!(!s.is_mid_event());
}

#[test]
fn a_lone_cr_split_across_packets_stays_buffered() {
    let mut s = EventSplitter::new();
    assert!(
        s.push(b"data: q\r").is_empty(),
        "one terminator is not an event end"
    );
    assert!(s.is_mid_event());
    assert_eq!(datas(&s.push(b"\rdata: [DONE]\r\r")), ["q", "[DONE]"]);
}

#[test]
fn mixed_terminators_do_not_stall_the_parser() {
    let mut s = EventSplitter::new();
    assert_eq!(
        datas(&s.push(b"data: a\n\rdata: b\r\n\rdata: [DONE]\n\n")),
        ["a", "b", "[DONE]"]
    );
    assert!(!s.is_mid_event());
}

#[test]
fn the_mid_event_boundary_is_tracked() {
    let mut s = EventSplitter::new();
    assert!(!s.is_mid_event());
    s.push(b"data: {\"del");
    assert!(s.is_mid_event());
    s.push(b"ta\":1}\n\n");
    assert!(!s.is_mid_event());
    s.push(b"data: x\r\n");
    assert!(s.is_mid_event());
    s.push(b"\r\n");
    assert!(!s.is_mid_event());
}

#[test]
fn an_unterminated_event_trips_the_cap_and_stays_failed() {
    let mut s = EventSplitter::new();
    let junk = format!("data: {}", "A".repeat(2 * MAX_EVENT_BYTES));
    assert!(s.push(junk.as_bytes()).is_empty());
    assert_eq!(s.failure(), Some(FramingError::EventTooLarge));
    assert!(!s.is_mid_event(), "the partial buffer must be released");
    assert!(
        s.push(b"data: late\n\n").is_empty(),
        "nothing after a lost boundary can be trusted"
    );
}

#[test]
fn garbage_without_newlines_does_not_grow_the_buffer() {
    let mut s = EventSplitter::new();
    let junk = vec![b'a'; 64 * 1024];
    for _ in 0..64 {
        s.push(&junk);
    }
    assert!(s.buffered() <= MAX_EVENT_BYTES);
    assert_eq!(s.failure(), Some(FramingError::EventTooLarge));
}

#[test]
fn event_names_and_multiline_data() {
    let mut s = EventSplitter::new();
    let events = s.push(b"event: response.completed\ndata: line1\ndata: line2\n\n");
    assert_eq!(
        events,
        [Event {
            event: Some("response.completed".into()),
            data: "line1\nline2".into()
        }]
    );
}

#[test]
fn an_event_without_data_is_not_dispatched() {
    let mut s = EventSplitter::new();
    assert!(s.push(b"event: ping\n\n").is_empty());
}

#[test]
fn only_one_leading_space_is_stripped() {
    let mut s = EventSplitter::new();
    assert_eq!(datas(&s.push(b"data:  two\n\n")), [" two"]);
    assert_eq!(datas(&s.push(b"data:none\n\n")), ["none"]);
}

#[test]
fn invalid_utf8_fails_permanently_but_keeps_earlier_events() {
    let mut s = EventSplitter::new();
    let events = s.push(b"data: good\n\ndata: \xff\n\ndata: after\n\n");
    assert_eq!(datas(&events), ["good"]);
    assert_eq!(s.failure(), Some(FramingError::InvalidUtf8));
    assert!(s.push(b"data: later\n\n").is_empty());
}

#[test]
fn an_empty_packet_changes_nothing() {
    let mut s = EventSplitter::new();
    assert_eq!(datas(&s.push(b"data: y\r\n\r")), ["y"]);
    assert!(s.push(b"").is_empty());
    assert!(s.push(b"\n").is_empty());
    assert!(
        !s.is_mid_event(),
        "the late LF completes the pair, it does not start an event"
    );
    assert_eq!(datas(&s.push(b"data: z\n\n")), ["z"]);

    assert!(s.push(b"data: q").is_empty());
    assert!(s.push(b"").is_empty());
    assert_eq!(s.buffered(), 7);
}

#[test]
fn every_cut_of_a_stream_says_the_same() {
    for stream in [
        &b"data: a\r\n\r\ndata: b\r\rdata: c\n\n\r\ndata: d"[..],
        b"event: e\r\ndata: 1\r\ndata: 2\r\n\r\n\n\n: x\n\n",
        b"data: ok\n\ndata: \xff\r\n\r\ndata: never\n\n",
    ] {
        let mut whole = EventSplitter::new();
        let expected = whole.push(stream);
        for cut in 0..=stream.len() {
            for again in cut..=stream.len() {
                let mut s = EventSplitter::new();
                let mut events = s.push(&stream[..cut]);
                events.extend(s.push(&stream[cut..again]));
                events.extend(s.push(&stream[again..]));
                assert_eq!(events, expected, "cut at {cut} and {again}");
                assert_eq!(s.is_mid_event(), whole.is_mid_event());
                assert_eq!(s.buffered(), whole.buffered());
                assert_eq!(s.failure(), whole.failure());
            }
        }
    }
}

#[test]
fn an_event_ends_after_its_first_blank_line() {
    let cases: [(&[u8], Option<usize>); 10] = [
        (b"a\n\nb\n\n", Some(3)),
        (b"a\r\rb", Some(3)),
        (b"a\r\n\r\nb", Some(5)),
        (b"a\n\r\nb", Some(4)),
        (b"a\r\n\nb", Some(4)),
        (b"a\n\rb", Some(3)),
        // One terminator of two bytes is no blank line.
        (b"a\r\nb\r\n", None),
        (b"a\nb\nc\n\n", Some(7)),
        (b"a\n", None),
        (b"", None),
    ];
    for (bytes, end) in cases {
        assert_eq!(find_event_end(bytes), end, "{bytes:?}");
    }
}
