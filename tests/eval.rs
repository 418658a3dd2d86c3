use nrepl_client::codec::decode;
use nrepl_client::error::NreplError;
use nrepl_client::eval::{aggregate, exchange_deadline, EvalResult};
use nrepl_client::message::{Bencode, Message};
use nrepl_client::reader::{FrameReader, ReadEvent, ReadStep};

fn bytes(s: &str) -> Bencode {
    Bencode::Bytes(s.as_bytes().to_vec())
}

fn frame(fields: Vec<(&str, Bencode)>) -> Message {
    Message { entries: fields.into_iter().map(|(k, v)| (k.as_bytes().to_vec(), v)).collect() }
}

fn status(words: &[&str]) -> Bencode {
    Bencode::List(words.iter().map(|w| bytes(w)).collect())
}

#[test]
fn value_then_done_gives_the_value() {
    let frames = vec![
        frame(vec![("id", bytes("e1")), ("value", bytes("6"))]),
        frame(vec![("id", bytes("e1")), ("status", status(&["done"]))]),
    ];
    let r = aggregate(b"e1", &frames).unwrap();
    assert_eq!(r.value, Some("6".to_string()));
    assert_eq!(r.output, "");
    assert_eq!(r.error, "");
    assert!(!r.has_error);
}

#[test]
fn error_and_done_without_value() {
    let frames = vec![frame(vec![("id", bytes("e1")), ("status", status(&["error", "done"]))])];
    let r = aggregate(b"e1", &frames).unwrap();
    assert_eq!(r.value, None);
    assert!(r.has_error);
}

#[test]
fn frames_of_other_requests_are_discarded() {
    let frames = vec![
        frame(vec![("id", bytes("e1")), ("out", bytes("a"))]),
        frame(vec![
            ("id", bytes("stale")),
            ("value", bytes("99")),
            ("out", bytes("zzz")),
            ("status", status(&["error", "done"])),
        ]),
        frame(vec![("id", bytes("e1")), ("value", bytes("6"))]),
        frame(vec![("id", bytes("e1")), ("status", status(&["done"]))]),
    ];
    let r = aggregate(b"e1", &frames).unwrap();
    assert_eq!(r.value, Some("6".to_string()));
    assert_eq!(r.output, "a");
    assert!(!r.has_error);
}

#[test]
fn output_and_error_text_append_in_arrival_order() {
    let frames = vec![
        frame(vec![("id", bytes("e1")), ("out", bytes("one "))]),
        frame(vec![("id", bytes("e1")), ("err", bytes("warn1;"))]),
        frame(vec![("id", bytes("e1")), ("out", bytes("two"))]),
        frame(vec![("id", bytes("e1")), ("err", bytes("warn2"))]),
        frame(vec![("id", bytes("e1")), ("status", status(&["done"]))]),
    ];
    let r = aggregate(b"e1", &frames).unwrap();
    assert_eq!(r.output, "one two");
    assert_eq!(r.error, "warn1;warn2");
}

#[test]
fn error_flag_is_sticky_and_ignores_frames_after_done() {
    let frames = vec![
        frame(vec![("id", bytes("e1")), ("status", status(&["error"]))]),
        frame(vec![("id", bytes("e1")), ("value", bytes("1"))]),
        frame(vec![("id", bytes("e1")), ("status", status(&["done"]))]),
    ];
    assert!(aggregate(b"e1", &frames).unwrap().has_error);
    let frames = vec![
        frame(vec![("id", bytes("e1")), ("status", status(&["done"]))]),
        frame(vec![("id", bytes("e1")), ("status", status(&["error"]))]),
    ];
    assert!(!aggregate(b"e1", &frames).unwrap().has_error);
}

#[test]
fn last_value_wins() {
    let frames = vec![
        frame(vec![("id", bytes("e1")), ("value", bytes("1"))]),
        frame(vec![("id", bytes("e1")), ("value", bytes("2")), ("status", status(&["done"]))]),
    ];
    assert_eq!(aggregate(b"e1", &frames).unwrap().value, Some("2".to_string()));
}

#[test]
fn exchange_without_done_has_no_result() {
    let frames = vec![frame(vec![("id", bytes("e1")), ("value", bytes("1"))])];
    assert!(aggregate(b"e1", &frames).is_none());
    assert!(aggregate(b"e1", &Vec::new()).is_none());
}

#[test]
fn frame_without_id_is_taken_in() {
    let mut r = EvalResult::default();
    let done = r.absorb(b"e1", &frame(vec![("out", bytes("x")), ("status", status(&["done"]))]));
    assert!(done);
    assert_eq!(r.output, "x");
}

#[test]
fn absorb_reports_done_only_for_its_request() {
    let mut r = EvalResult::new();
    assert!(!r.absorb(b"e1", &frame(vec![("id", bytes("e2")), ("status", status(&["done"]))])));
    assert!(r.absorb(b"e1", &frame(vec![("id", bytes("e1")), ("status", status(&["done"]))])));
}

#[test]
fn decoded_wire_frames_aggregate() {
    let first = decode(b"d2:id2:e15:value1:6e").unwrap();
    let second = decode(b"d2:id2:e16:statusl4:doneee").unwrap();
    let r = aggregate(b"e1", &vec![first, second]).unwrap();
    assert_eq!(r.value, Some("6".to_string()));
    assert!(!r.has_error);
}

#[test]
fn invalid_utf8_output_is_replaced() {
    let frames = vec![frame(vec![
        ("id", bytes("e1")),
        ("out", Bencode::Bytes(vec![0x68, 0xff])),
        ("status", status(&["done"])),
    ])];
    assert_eq!(aggregate(b"e1", &frames).unwrap().output, "h\u{fffd}");
}

#[test]
fn exchange_fails_only_after_its_limit() {
    assert_eq!(exchange_deadline(50, 50), Ok(()));
    assert_eq!(exchange_deadline(51, 50), Err(NreplError::Timeout));
    assert_eq!(exchange_deadline(0, 60000), Ok(()));
}

#[test]
fn pipelined_value_and_done_frames_give_the_result() {
    let first = frame(vec![("id", bytes("e1")), ("value", bytes("6"))]);
    let second = frame(vec![("id", bytes("e1")), ("status", status(&["done"]))]);
    let mut wire = first.encode();
    wire.extend(second.encode());
    let mut reader = FrameReader::new();
    let mut result = EvalResult::new();
    let mut step = reader.step(ReadEvent::Data(wire));
    let mut done = false;
    while let ReadStep::Frame(bytes) = step {
        done = result.absorb(b"e1", &decode(&bytes).unwrap());
        if done {
            break;
        }
        step = reader.poll();
    }
    assert!(done);
    assert_eq!(result.value, Some("6".to_string()));
    assert!(!result.has_error);
    assert_eq!(reader.buffered_len(), 0);
}
