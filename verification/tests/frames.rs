use libhttp3::frame::{try_parse_frame, MAX_FRAME_SIZE};

fn make_frame(payload: &[u8]) -> Vec<u8> {
    let len = (payload.len() as u32).to_be_bytes();
    let mut frame = Vec::with_capacity(4 + payload.len());
    frame.extend_from_slice(&len);
    frame.extend_from_slice(payload);
    frame
}

#[test]
fn parse_complete_frame() {
    let mut buf = make_frame(b"hello");
    let result = try_parse_frame(&mut buf).unwrap();
    assert_eq!(result, Some(b"hello".to_vec()));
    assert!(buf.is_empty());
}

#[test]
fn parse_empty_payload() {
    let mut buf = make_frame(b"");
    let result = try_parse_frame(&mut buf).unwrap();
    assert_eq!(result, Some(vec![]));
    assert!(buf.is_empty());
}

#[test]
fn parse_incomplete_header() {
    let mut buf = vec![0, 0];
    assert_eq!(try_parse_frame(&mut buf).unwrap(), None);
    assert_eq!(buf.len(), 2);
}

#[test]
fn parse_incomplete_payload() {
    let mut buf = vec![0, 0, 0, 10, 1, 2, 3];
    assert_eq!(try_parse_frame(&mut buf).unwrap(), None);
    assert_eq!(buf.len(), 7);
}

#[test]
fn parse_empty_buffer() {
    let mut buf = vec![];
    assert_eq!(try_parse_frame(&mut buf).unwrap(), None);
}

#[test]
fn parse_multiple_frames_sequentially() {
    let mut buf = Vec::new();
    buf.extend_from_slice(&make_frame(b"first"));
    buf.extend_from_slice(&make_frame(b"second"));

    let first = try_parse_frame(&mut buf).unwrap();
    assert_eq!(first, Some(b"first".to_vec()));

    let second = try_parse_frame(&mut buf).unwrap();
    assert_eq!(second, Some(b"second".to_vec()));

    assert!(buf.is_empty());
}

#[test]
fn parse_leaves_trailing_data() {
    let mut buf = make_frame(b"data");
    buf.extend_from_slice(&[0, 0, 0]);

    let result = try_parse_frame(&mut buf).unwrap();
    assert_eq!(result, Some(b"data".to_vec()));
    assert_eq!(buf, vec![0, 0, 0]);
}

#[test]
fn parse_rejects_oversized_frame() {
    let oversized_len = (MAX_FRAME_SIZE as u32 + 1).to_be_bytes();
    let mut buf = oversized_len.to_vec();
    let err = try_parse_frame(&mut buf).unwrap_err();
    assert!(err.to_string().contains("exceeds maximum allowed size"));
}
