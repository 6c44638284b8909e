use libhttp3::sse::SseEventBuilder;
use libhttp3::stream::{StreamEvent, StreamStep};
use libhttp3::{SseEvent, SseStream};

type Parts = (Option<String>, String, Option<String>);

fn parts(event: SseEvent) -> Parts {
    (event.event_type, event.data, event.id)
}

fn data(text: &str) -> Parts {
    (None, text.to_string(), None)
}

/// Asks for events until the stream ends.
fn read_all(chunks: &[&[u8]]) -> Vec<Parts> {
    let mut stream = SseStream::new(None);
    let mut left = chunks.iter();
    let mut events = Vec::new();
    loop {
        let mut step = stream.next_event(StreamEvent::Called);
        while let StreamStep::Receive = step {
            step = match left.next() {
                Some(chunk) => stream.next_event(StreamEvent::Chunk(chunk)),
                None => stream.next_event(StreamEvent::Ended),
            };
        }
        match step {
            StreamStep::Return(Some(event)) => events.push(parts(event)),
            StreamStep::Return(None) => return events,
            StreamStep::Receive => unreachable!(),
        }
    }
}

#[test]
fn an_event_is_read_back() {
    let body = b"event: update\ndata: one\ndata: two\nid: 42\n\n";
    let expected = (
        Some("update".to_string()),
        "one\ntwo".to_string(),
        Some("42".to_string()),
    );
    assert_eq!(read_all(&[body]), vec![expected]);
}

#[test]
fn one_event_may_come_in_many_chunks() {
    let body = b"event: update\ndata: h\xc3\xa9llo\n\n";
    let expected = (Some("update".to_string()), "h\u{e9}llo".to_string(), None);
    for size in 1..=body.len() {
        let chunks: Vec<&[u8]> = body.chunks(size).collect();
        assert_eq!(read_all(&chunks), vec![expected.clone()]);
    }
}

#[test]
fn events_in_chunks_of_their_own_all_arrive() {
    let events = read_all(&[b"data: a\n\n", b"data: b\n\n", b"data: c\n\n"]);
    assert_eq!(events, vec![data("a"), data("b"), data("c")]);
}

#[test]
fn events_delivered_line_by_line_all_arrive() {
    let events = read_all(&[b"data: a\n", b"\n", b"data: b\n", b"\n"]);
    assert_eq!(events, vec![data("a"), data("b")]);
}

#[test]
fn two_events_of_one_chunk_both_arrive() {
    let events = read_all(&[b"data: a\n\ndata: b\n\n", b": ping\n"]);
    assert_eq!(events, vec![data("a"), data("b")]);
}

#[test]
fn two_events_of_the_last_chunk_both_arrive() {
    assert_eq!(
        read_all(&[b"data: a\n\ndata: b\n\n"]),
        vec![data("a"), data("b")]
    );
}

#[test]
fn held_events_need_nothing_from_the_transport() {
    let mut stream = SseStream::new(None);
    assert!(matches!(
        stream.next_event(StreamEvent::Called),
        StreamStep::Receive
    ));
    match stream.next_event(StreamEvent::Chunk(b"data: a\n\ndata: b\n\nid: 3\n")) {
        StreamStep::Return(Some(event)) => assert_eq!(parts(event), data("a")),
        other => panic!("{other:?}"),
    }
    match stream.next_event(StreamEvent::Called) {
        StreamStep::Return(Some(event)) => assert_eq!(parts(event), data("b")),
        other => panic!("{other:?}"),
    }
    assert!(matches!(
        stream.next_event(StreamEvent::Called),
        StreamStep::Receive
    ));
    match stream.next_event(StreamEvent::Ended) {
        StreamStep::Return(Some(event)) => assert_eq!(
            parts(event),
            (None, String::new(), Some("3".to_string()))
        ),
        other => panic!("{other:?}"),
    }
    assert!(matches!(
        stream.next_event(StreamEvent::Ended),
        StreamStep::Return(None)
    ));
}

#[test]
fn events_come_out_however_the_body_is_cut() {
    let body = b"data: a\n\nevent: t\ndata: b\ndata: c\n\nid: 9\n\ndata: d\n";
    let expected = vec![
        data("a"),
        (Some("t".to_string()), "b\nc".to_string(), None),
        (None, String::new(), Some("9".to_string())),
        data("d"),
    ];
    for size in 1..=body.len() {
        let chunks: Vec<&[u8]> = body.chunks(size).collect();
        assert_eq!(read_all(&chunks), expected);
    }
}

#[test]
fn the_end_of_the_body_completes_an_event() {
    assert_eq!(read_all(&[b"data: a\n"]), vec![data("a")]);
}

#[test]
fn a_last_line_without_an_end_is_dropped() {
    assert_eq!(read_all(&[b"data: a\ndata: b"]), vec![data("a")]);
    assert_eq!(read_all(&[b"data: a"]), vec![]);
}

#[test]
fn blank_lines_without_fields_make_no_event() {
    assert_eq!(read_all(&[b"\n\n\ndata: a\n\n"]), vec![data("a")]);
    assert_eq!(read_all(&[b"\n", b"\n"]), vec![]);
}

#[test]
fn comments_and_unknown_fields_are_ignored() {
    assert_eq!(
        read_all(&[b": note\nretry: 10\nDATA: x\n data: y\ndata: a\n\n"]),
        vec![data("a")]
    );
    assert_eq!(read_all(&[b": note\n\n"]), vec![]);
}

#[test]
fn carriage_returns_end_lines_too() {
    let body = "event: t\ndata: h\u{e9}\ndata:\n\ndata: b\n\nid: 1\n";
    let longer = body.replace('\n', "\r\n");
    let expected = vec![
        (Some("t".to_string()), "h\u{e9}\n".to_string(), None),
        data("b"),
        (None, String::new(), Some("1".to_string())),
    ];
    assert_eq!(read_all(&[body.as_bytes()]), expected);
    for size in 1..=longer.len() {
        let chunks: Vec<&[u8]> = longer.as_bytes().chunks(size).collect();
        assert_eq!(read_all(&chunks), expected);
    }
}

#[test]
fn white_space_around_values_is_dropped() {
    let body = "event: \t tick \ndata: \u{3000}a b \u{2003}\nid:7\u{a0}\n\n";
    let expected = (
        Some("tick".to_string()),
        "a b".to_string(),
        Some("7".to_string()),
    );
    assert_eq!(read_all(&[body.as_bytes()]), vec![expected]);
}

#[test]
fn a_zero_width_space_is_no_white_space() {
    let body = "data: \u{200b}a\u{200b}\n\n";
    assert_eq!(read_all(&[body.as_bytes()]), vec![data("\u{200b}a\u{200b}")]);
}

#[test]
fn later_types_and_ids_replace_earlier_ones() {
    let body = b"event: a\nevent: b\nid: 1\nid: 2\n\n";
    let expected = (Some("b".to_string()), String::new(), Some("2".to_string()));
    assert_eq!(read_all(&[body]), vec![expected]);
}

#[test]
fn empty_values_count_as_set() {
    assert_eq!(read_all(&[b"data:\n\n"]), vec![data("")]);
    assert_eq!(read_all(&[b"data:\ndata:\n\n"]), vec![data("\n")]);
    assert_eq!(
        read_all(&[b"event:\n\n"]),
        vec![(Some(String::new()), String::new(), None)]
    );
    assert_eq!(
        read_all(&[b"id:\n\n"]),
        vec![(None, String::new(), Some(String::new()))]
    );
}

#[test]
fn nothing_of_one_event_is_left_for_the_next() {
    let events = read_all(&[b"event: a\nid: 1\ndata: x\n\n", b"data: y\n\n"]);
    assert_eq!(events[1], data("y"));
}

#[test]
fn invalid_bytes_become_replacement_characters() {
    assert_eq!(
        read_all(&[b"data: a\xff\xfeb\n\n"]),
        vec![data("a\u{fffd}\u{fffd}b")]
    );
    assert_eq!(
        read_all(&[b"data: a\xe2\x82\n\n"]),
        vec![data("a\u{fffd}")]
    );
}

#[test]
fn carriage_returns_behind_invalid_bytes_are_dropped_too() {
    for first in 0x80..=0xffu8 {
        for second in 0..=0xffu8 {
            if second == b'\n' {
                continue;
            }
            let body = [b"data: x", &[first, second][..], b"\n\n"].concat();
            let longer = [b"data: x", &[first, second][..], b"\r\n\r\n"].concat();
            let text = String::from_utf8_lossy(&[first, second]).into_owned();
            let expected = vec![data(format!("x{text}").trim_end())];
            assert_eq!(read_all(&[&body]), expected);
            assert_eq!(read_all(&[&longer]), expected);
        }
    }
}

#[test]
fn ascii_behind_invalid_bytes_is_kept() {
    assert_eq!(
        read_all(&[b"data: \xf0\x9f\x98ok!\n\n"]),
        vec![data("\u{fffd}ok!")]
    );
    assert_eq!(
        read_all(&[b"data: a\xc3(\n\n"]),
        vec![data("a\u{fffd}(")]
    );
}

#[test]
fn the_builder_collects_and_forgets_lines() {
    let mut builder = SseEventBuilder::default();
    assert!(builder.build_event().is_none());
    builder.process_line("data: one");
    builder.process_line("event: tick");
    builder.process_line("nothing");
    let event = builder.build_event().unwrap();
    assert_eq!(
        parts(event),
        (Some("tick".to_string()), "one".to_string(), None)
    );
    assert!(builder.build_event().is_some());
    builder.reset();
    assert!(builder.build_event().is_none());
}

#[test]
fn a_line_without_text_completes_what_the_builder_holds() {
    let mut builder = SseEventBuilder::default();
    assert!(builder.take_text("\n").is_none());
    assert!(builder.take_text("data: one\n").is_none());
    let event = builder.take_text(" \r\n").unwrap();
    assert_eq!(parts(event), data("one"));
    assert!(builder.build_event().is_none());
}

#[test]
fn raw_chunks_are_handed_on_as_they_came() {
    let stream = SseStream::new(Some("gzip".to_string()));
    assert!(matches!(
        stream.next_raw_chunk(StreamEvent::Called),
        StreamStep::Receive
    ));
    match stream.next_raw_chunk(StreamEvent::Chunk(b"\x1f\x8b\x08")) {
        StreamStep::Return(Some(chunk)) => assert_eq!(&chunk[..], b"\x1f\x8b\x08"),
        other => panic!("{other:?}"),
    }
    assert!(matches!(
        stream.next_raw_chunk(StreamEvent::Ended),
        StreamStep::Return(None)
    ));
}

#[test]
fn a_stream_knows_its_content_coding() {
    let plain = SseStream::new(None);
    assert!(!plain.is_compressed());
    assert_eq!(plain.encoding(), None);
    let packed = SseStream::new(Some("br".to_string()));
    assert!(packed.is_compressed());
    assert_eq!(packed.encoding(), Some("br"));
}
