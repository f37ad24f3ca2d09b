use libmcp::framing::{
    FrameError, FrameLimit, FrameReadOutcome, LineAssembler, TimedFrameReader, encode_frame, validate_frame_payload,
};

/// Drives the assembler over a byte stream delivered in chunks of at most `chunk` bytes.
fn read_one(stream: &[u8], chunk: usize, limit: FrameLimit) -> (Result<FrameReadOutcome, FrameError>, usize) {
    let mut assembler = LineAssembler::new();
    let mut offset = 0;
    loop {
        if offset == stream.len() {
            return (Ok(assembler.finish()), offset);
        }
        let end = usize::min(stream.len(), offset + chunk);
        match assembler.feed(&stream[offset..end], limit) {
            Err(e) => return (Err(e), offset),
            Ok((consumed, frame)) => {
                offset += consumed;
                if let Some(frame) = frame {
                    return (Ok(FrameReadOutcome::Frame(frame)), offset);
                }
            }
        }
    }
}

#[test]
fn blocking_io_obeys_the_same_frame_bounds() {
    let limit = FrameLimit::try_new(5).expect("limit");
    let (outcome, _) = read_one(b"\n1234\r\n", 64, limit);
    assert!(matches!(outcome, Ok(FrameReadOutcome::Frame(payload)) if payload == b"1234"));

    let (rejected, _) = read_one(b"123456\n", 64, limit);
    assert_eq!(rejected, Err(FrameError::TooLarge(5)));

    let written = encode_frame(b"1234", limit);
    assert_eq!(written, Ok(b"1234\n".to_vec()));
    assert_eq!(encode_frame(b"123456", limit), Err(FrameError::TooLarge(5)));
}

#[test]
fn reads_frames_without_unbounded_line_growth() {
    let limit = FrameLimit::try_new(5).expect("limit");
    let (outcome, _) = read_one(b"\n1234\r\n", 2, limit);
    assert!(matches!(outcome, Ok(FrameReadOutcome::Frame(payload)) if payload == b"1234"));
    let (rejected, _) = read_one(b"123456\n", 2, limit);
    assert_eq!(rejected, Err(FrameError::TooLarge(5)));
}

#[test]
fn rejects_unframeable_output_before_writing() {
    let limit = FrameLimit::try_new(16).expect("limit");
    assert_eq!(validate_frame_payload(b"{}\n{}", limit), Err(FrameError::ContainsDelimiter));
    assert_eq!(validate_frame_payload(b"12345678901234567", limit), Err(FrameError::TooLarge(16)));
    assert_eq!(validate_frame_payload(b"", limit), Err(FrameError::Empty));
    assert_eq!(validate_frame_payload(b"ends\r", limit), Err(FrameError::ContainsDelimiter));
    assert!(validate_frame_payload(b"{}", limit).is_ok());
}

#[test]
fn end_of_stream_yields_the_unfinished_line() {
    let limit = FrameLimit::try_new(8).expect("limit");
    let (outcome, consumed) = read_one(b"tail", 3, limit);
    assert!(matches!(outcome, Ok(FrameReadOutcome::Frame(payload)) if payload == b"tail"));
    assert_eq!(consumed, 4);
    let (outcome, _) = read_one(b"\n\r\n", 3, limit);
    assert_eq!(outcome, Ok(FrameReadOutcome::EndOfStream));
    assert!(FrameLimit::try_new(0).is_err());
    assert_eq!(FrameLimit::default_limit().get(), 8 * 1024 * 1024);
}

#[test]
fn timed_reader_retains_partial_and_read_ahead_frames() {
    let limit = FrameLimit::try_new(5).expect("limit");
    let mut reader = TimedFrameReader::new((), limit);
    assert_eq!(reader.extract_frame(), Ok(None));
    assert!(!reader.has_buffered_input());

    reader.take_in(b"12");
    assert_eq!(reader.extract_frame(), Ok(None));
    assert!(reader.has_buffered_input());

    reader.take_in(b"34\n\n56\n");
    assert_eq!(reader.extract_frame(), Ok(Some(b"1234".to_vec())));
    assert!(reader.has_buffered_input());
    assert_eq!(reader.extract_frame(), Ok(Some(b"56".to_vec())));
    assert!(!reader.has_buffered_input());

    reader.mark_end();
    assert_eq!(reader.extract_frame(), Ok(None));
    assert!(reader.at_end());
}

#[test]
fn timed_reader_rejects_oversized_partial_frames() {
    let limit = FrameLimit::try_new(5).expect("limit");
    let mut reader = TimedFrameReader::new((), limit);
    reader.take_in(b"123456");
    assert_eq!(reader.extract_frame(), Err(FrameError::TooLarge(5)));
}
