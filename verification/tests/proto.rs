use potty::proto::{
    Control, Frame, FrameBuffer, FrameError, MAX_FRAME, PROTOCOL_VERSION, TAG_CONTROL, TAG_DATA,
};

fn roundtrip(f: &Frame) -> Frame {
    let mut buf = Vec::new();
    f.write(&mut buf);
    Frame::read(&mut buf.as_slice()).unwrap().unwrap()
}

#[test]
fn data_roundtrips_raw_bytes() {
    let f = Frame::Data { pane: 3, bytes: vec![0, 27, 255, b'x', b'\n'] };
    assert_eq!(roundtrip(&f), f);
}

#[test]
fn clean_eof_is_none() {
    let mut empty: &[u8] = &[];
    assert!(Frame::read(&mut empty).unwrap().is_none());
}

#[test]
fn control_payloads_are_framed_as_they_are() {
    for json in
        [r#"{"t":"Open","pane":7,"cols":80,"rows":24,"cwd_from":3}"#, r#"{"t":"Ready"}"#, ""]
    {
        let f = Frame::Control(json.as_bytes().to_vec());
        assert_eq!(roundtrip(&f), f);
    }
}

#[test]
fn a_written_frame_has_its_length_and_tag() {
    let mut out = Vec::new();
    Frame::Data { pane: 0x0102, bytes: vec![9] }.write(&mut out);
    assert_eq!(out, [0, 0, 0, 10, TAG_DATA, 2, 1, 0, 0, 0, 0, 0, 0, 9]);
    out.clear();
    Frame::Control(b"{}".to_vec()).write(&mut out);
    assert_eq!(out, [0, 0, 0, 3, TAG_CONTROL, b'{', b'}']);
}

#[test]
fn reading_takes_only_its_frame() {
    let mut buf = Vec::new();
    Frame::Control(b"a".to_vec()).write(&mut buf);
    Frame::Data { pane: 1, bytes: vec![] }.write(&mut buf);
    let mut r = buf.as_slice();
    assert_eq!(Frame::read(&mut r), Ok(Some(Frame::Control(b"a".to_vec()))));
    assert_eq!(Frame::read(&mut r), Ok(Some(Frame::Data { pane: 1, bytes: vec![] })));
    assert_eq!(Frame::read(&mut r), Ok(None));
}

#[test]
fn a_cut_frame_waits_or_ends_the_stream() {
    let mut buf = Vec::new();
    Frame::Data { pane: 5, bytes: vec![1, 2, 3] }.write(&mut buf);
    for n in 1..buf.len() {
        assert_eq!(Frame::try_parse(&buf[..n]), Ok(None));
        let mut r = &buf[..n];
        assert_eq!(Frame::read(&mut r), Err(FrameError::UnexpectedEof));
    }
    let (f, used) = Frame::try_parse(&buf).unwrap().unwrap();
    assert_eq!(f, Frame::Data { pane: 5, bytes: vec![1, 2, 3] });
    assert_eq!(used, buf.len());
}

#[test]
fn malformed_frames_are_refused() {
    assert_eq!(Frame::try_parse(&[0, 0, 0, 0]), Err(FrameError::BadLength(0)));
    let long = (MAX_FRAME as u32 + 1).to_be_bytes();
    assert_eq!(Frame::try_parse(&long), Err(FrameError::BadLength(MAX_FRAME as u32 + 1)));
    assert_eq!(Frame::try_parse(&[0, 0, 0, 1, 9]), Err(FrameError::UnknownTag(9)));
    assert_eq!(Frame::try_parse(&[0, 0, 0, 3, TAG_DATA, 0, 0]), Err(FrameError::ShortData));
    assert_eq!(FrameError::UnknownTag(9).message(), "unknown frame tag 9");
}

#[test]
fn chunks_drain_to_the_frames_that_were_written() {
    let frames = [
        Frame::Control(b"{\"t\":\"Hello\"}".to_vec()),
        Frame::Data { pane: 2, bytes: vec![7; 40] },
        Frame::Control(vec![]),
    ];
    let mut buf = Vec::new();
    for f in &frames {
        f.write(&mut buf);
    }
    for size in [1, 3, 7, 64] {
        let mut fb = FrameBuffer::new();
        let mut got = Vec::new();
        for chunk in buf.chunks(size) {
            fb.push(chunk);
            while let Some(f) = fb.next_frame().unwrap() {
                got.push(f);
            }
        }
        assert_eq!(fb.finish(), Ok(()));
        assert_eq!(got, frames);
    }
    let mut fb = FrameBuffer::new();
    fb.push(&buf[..6]);
    assert_eq!(fb.next_frame(), Ok(None));
    assert_eq!(fb.finish(), Err(FrameError::UnexpectedEof));
}

#[test]
fn a_copied_message_is_the_same() {
    let c = Control::Notify { json: r#"{"v":1,"session":"abc"}"#.to_string() };
    assert_eq!(c.clone(), c);
    assert_eq!(PROTOCOL_VERSION, 2);
}
