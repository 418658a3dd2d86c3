use nrepl_client::error::{IoFailure, NreplError};
use nrepl_client::reader::{FrameReader, ReadEvent, ReadStep, MAX_FRAME_BYTES};

#[test]
fn zero_byte_read_is_connection_closed() {
    let mut r = FrameReader::new();
    assert_eq!(r.step(ReadEvent::Data(b"d2:id".to_vec())), ReadStep::ReadMore);
    assert_eq!(r.step(ReadEvent::Data(Vec::new())), ReadStep::Fail(NreplError::ConnectionClosed));
    assert_eq!(r.buffered_len(), 5);
}

#[test]
fn two_frames_in_one_read_are_both_delivered_in_order() {
    let mut r = FrameReader::new();
    let step = r.step(ReadEvent::Data(b"d1:ai1eed1:bi2ee".to_vec()));
    assert_eq!(step, ReadStep::Frame(b"d1:ai1ee".to_vec()));
    assert_eq!(r.buffered_len(), 8);
    assert_eq!(r.poll(), ReadStep::Frame(b"d1:bi2ee".to_vec()));
    assert_eq!(r.buffered_len(), 0);
    assert_eq!(r.poll(), ReadStep::ReadMore);
}

#[test]
fn frame_split_across_reads_is_assembled() {
    let mut r = FrameReader::new();
    assert_eq!(r.poll(), ReadStep::ReadMore);
    assert_eq!(r.step(ReadEvent::Data(b"d2:i".to_vec())), ReadStep::ReadMore);
    assert_eq!(r.step(ReadEvent::Data(b"d1:".to_vec())), ReadStep::ReadMore);
    assert_eq!(r.step(ReadEvent::Data(b"xe".to_vec())), ReadStep::Frame(b"d2:id1:xe".to_vec()));
}

#[test]
fn remainder_after_frame_is_kept() {
    let mut r = FrameReader::new();
    let step = r.step(ReadEvent::Data(b"d1:ai1eed1:b".to_vec()));
    assert_eq!(step, ReadStep::Frame(b"d1:ai1ee".to_vec()));
    assert_eq!(r.step(ReadEvent::Data(b"i2ee".to_vec())), ReadStep::Frame(b"d1:bi2ee".to_vec()));
}

#[test]
fn malformed_bytes_fail_with_parse_error() {
    let mut r = FrameReader::new();
    let step = r.step(ReadEvent::Data(b"zzz".to_vec()));
    assert!(matches!(step, ReadStep::Fail(NreplError::ParseError(_))));
}

#[test]
fn oversized_incomplete_frame_fails() {
    let mut r = FrameReader::new();
    let mut data = b"99999999:".to_vec();
    data.extend(std::iter::repeat(b'a').take(MAX_FRAME_BYTES));
    let step = r.step(ReadEvent::Data(data));
    assert_eq!(step, ReadStep::Fail(NreplError::ParseError("message too large".to_string())));
}

#[test]
fn incomplete_frame_at_the_cap_keeps_reading() {
    let mut r = FrameReader::new();
    let mut data = b"99999999:".to_vec();
    data.extend(std::iter::repeat(b'a').take(MAX_FRAME_BYTES - 9));
    assert_eq!(r.step(ReadEvent::Data(data)), ReadStep::ReadMore);
}

#[test]
fn deadline_with_partial_data_times_out() {
    let mut r = FrameReader::new();
    assert_eq!(r.step(ReadEvent::Data(b"d2:id".to_vec())), ReadStep::ReadMore);
    assert_eq!(r.step(ReadEvent::DeadlinePassed), ReadStep::Fail(NreplError::Timeout));
}

#[test]
fn deadline_with_a_complete_frame_delivers_it() {
    let mut r = FrameReader::new();
    let step = r.step(ReadEvent::Data(b"d1:ai1eed1:bi2ee".to_vec()));
    assert_eq!(step, ReadStep::Frame(b"d1:ai1ee".to_vec()));
    assert_eq!(r.step(ReadEvent::DeadlinePassed), ReadStep::Frame(b"d1:bi2ee".to_vec()));
}

#[test]
fn read_failures_are_classified() {
    let mut r = FrameReader::new();
    assert_eq!(r.step(ReadEvent::Failed(IoFailure::WouldBlock)), ReadStep::ReadMore);
    assert_eq!(r.step(ReadEvent::Failed(IoFailure::TimedOut)), ReadStep::ReadMore);
    assert_eq!(
        r.step(ReadEvent::Failed(IoFailure::ConnectionReset)),
        ReadStep::Fail(NreplError::ConnectionClosed)
    );
    assert_eq!(
        r.step(ReadEvent::Failed(IoFailure::UnexpectedEof)),
        ReadStep::Fail(NreplError::ConnectionClosed)
    );
    assert_eq!(
        r.step(ReadEvent::Failed(IoFailure::Failed("boom".to_string()))),
        ReadStep::Fail(NreplError::IoError("boom".to_string()))
    );
}

#[test]
fn broken_pipe_on_read_is_an_io_error() {
    let mut r = FrameReader::new();
    assert_eq!(
        r.step(ReadEvent::Failed(IoFailure::BrokenPipe)),
        ReadStep::Fail(NreplError::IoError("broken pipe".to_string()))
    );
}
