use libhttp3::frame::{BinaryStream, FrameError, MAX_FRAME_SIZE};
use libhttp3::stream::{StreamEvent, StreamStep};

fn frame(payload: &[u8]) -> Vec<u8> {
    let mut bytes = (payload.len() as u32).to_be_bytes().to_vec();
    bytes.extend_from_slice(payload);
    bytes
}

/// Asks for frames until the stream ends or fails.
fn read_all(chunks: &[Vec<u8>]) -> (Vec<Vec<u8>>, Option<FrameError>) {
    let mut stream = BinaryStream::new();
    let mut left = chunks.iter();
    let mut frames = Vec::new();
    loop {
        let mut result = stream.next_frame(StreamEvent::Called);
        while let Ok(StreamStep::Receive) = result {
            result = match left.next() {
                Some(chunk) => stream.next_frame(StreamEvent::Chunk(chunk)),
                None => stream.next_frame(StreamEvent::Ended),
            };
        }
        match result {
            Ok(StreamStep::Return(Some(payload))) => frames.push(payload),
            Ok(StreamStep::Return(None)) => return (frames, None),
            Ok(StreamStep::Receive) => unreachable!(),
            Err(error) => return (frames, Some(error)),
        }
    }
}

#[test]
fn an_empty_body_holds_no_frames() {
    assert_eq!(read_all(&[]), (vec![], None));
}

#[test]
fn frames_come_out_however_the_body_is_cut() {
    let payloads = vec![b"first".to_vec(), vec![], b"third one".to_vec()];
    let body: Vec<u8> = payloads.iter().flat_map(|p| frame(p)).collect();
    for size in 1..=body.len() {
        let chunks: Vec<Vec<u8>> = body.chunks(size).map(|c| c.to_vec()).collect();
        assert_eq!(read_all(&chunks), (payloads.clone(), None));
    }
}

#[test]
fn buffered_frames_need_nothing_from_the_transport() {
    let mut stream = BinaryStream::new();
    let mut body = frame(b"a");
    body.extend_from_slice(&frame(b"b"));
    assert!(matches!(
        stream.next_frame(StreamEvent::Called),
        Ok(StreamStep::Receive)
    ));
    match stream.next_frame(StreamEvent::Chunk(&body)) {
        Ok(StreamStep::Return(Some(payload))) => assert_eq!(payload, b"a"),
        other => panic!("{other:?}"),
    }
    match stream.next_frame(StreamEvent::Called) {
        Ok(StreamStep::Return(Some(payload))) => assert_eq!(payload, b"b"),
        other => panic!("{other:?}"),
    }
}

#[test]
fn an_end_within_a_frame_is_an_error() {
    let mut body = frame(b"whole");
    body.extend_from_slice(&[0, 0, 0, 10, 1, 2, 3]);
    let (frames, error) = read_all(&[body]);
    assert_eq!(frames, vec![b"whole".to_vec()]);
    assert_eq!(error, Some(FrameError::Incomplete { pending: 7 }));
    assert_eq!(
        error.unwrap().to_string(),
        "stream ended with 7 bytes of incomplete frame data"
    );
}

#[test]
fn a_length_above_the_limit_is_an_error() {
    let (frames, error) = read_all(&[vec![1, 0, 0, 1]]);
    assert!(frames.is_empty());
    assert_eq!(
        error,
        Some(FrameError::TooLarge {
            len: MAX_FRAME_SIZE + 1
        })
    );
    assert_eq!(
        error.unwrap().to_string(),
        "frame length 16777217 exceeds maximum allowed size 16777216"
    );
}

#[test]
fn a_length_at_the_limit_is_accepted() {
    let payload = vec![7u8; MAX_FRAME_SIZE];
    let (frames, error) = read_all(&[frame(&payload)]);
    assert_eq!(error, None);
    assert_eq!(frames.len(), 1);
    assert!(frames[0] == payload);
}

#[test]
fn the_largest_length_field_is_read_as_unsigned() {
    let (_, error) = read_all(&[vec![255, 255, 255, 255]]);
    assert_eq!(error, Some(FrameError::TooLarge { len: 4294967295 }));
}
