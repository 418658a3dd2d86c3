use nrepl_client::codec::{decode, Op, Request};
use nrepl_client::error::{read_failure, write_failure, IoFailure, NreplError};
use nrepl_client::framing::{scan_frame, FrameScan};
use nrepl_client::message::Bencode;

fn request() -> Request {
    Request {
        op: Op::Eval,
        id: b"id-1".to_vec(),
        code: Some(b"(+ 1 2)".to_vec()),
        session: Some(b"s-9".to_vec()),
    }
}

#[test]
fn request_encodes_with_sorted_keys() {
    let req = Request { op: Op::Describe, id: b"x".to_vec(), code: None, session: None };
    assert_eq!(req.encode(), b"d2:id1:x2:op8:describee".to_vec());
}

#[test]
fn encoded_request_decodes_to_its_entries() {
    let req = request();
    let bytes = req.encode();
    assert_eq!(scan_frame(&bytes), FrameScan::Complete(bytes.len()));
    let msg = decode(&bytes).unwrap();
    assert_eq!(msg.entries.len(), 4);
    for (k, v) in req.entries() {
        assert_eq!(msg.get(&k), Some(&Bencode::Bytes(v)));
    }
}

#[test]
fn decode_rejects_non_dictionaries() {
    assert!(matches!(decode(b"i3e"), Err(NreplError::ParseError(_))));
    assert!(matches!(decode(b"d2:id"), Err(NreplError::ParseError(_))));
}

#[test]
fn decode_keeps_nested_values() {
    let msg = decode(b"d3:opsd4:evalde5:closedee5:counti7ee").unwrap();
    assert_eq!(msg.get(b"count"), Some(&Bencode::Int(7)));
    match msg.get(b"ops") {
        Some(Bencode::Dict(d)) => assert_eq!(d.len(), 2),
        other => panic!("unexpected {:?}", other),
    }
    assert_eq!(msg.get(b"missing"), None);
}

#[test]
fn error_messages() {
    assert_eq!(NreplError::ConnectionClosed.message(), "Connection closed by server");
    assert_eq!(NreplError::Timeout.message(), "Operation timed out");
    assert_eq!(NreplError::ParseError("bad".to_string()).message(), "Parse error: bad");
    assert_eq!(NreplError::IoError("x".to_string()).message(), "IO error: x");
    assert_eq!(NreplError::Other("y".to_string()).message(), "Error: y");
}

#[test]
fn write_failures_are_classified() {
    assert_eq!(write_failure(IoFailure::BrokenPipe), NreplError::ConnectionClosed);
    assert_eq!(write_failure(IoFailure::ConnectionAborted), NreplError::ConnectionClosed);
    assert_eq!(write_failure(IoFailure::ConnectionReset), NreplError::ConnectionClosed);
    assert_eq!(
        write_failure(IoFailure::UnexpectedEof),
        NreplError::IoError("unexpected end of file".to_string())
    );
    assert_eq!(write_failure(IoFailure::TimedOut), NreplError::IoError("timed out".to_string()));
}

#[test]
fn read_failures_map_only_resets_aborts_and_eof_to_closed() {
    assert_eq!(read_failure(IoFailure::ConnectionReset), NreplError::ConnectionClosed);
    assert_eq!(read_failure(IoFailure::ConnectionAborted), NreplError::ConnectionClosed);
    assert_eq!(read_failure(IoFailure::UnexpectedEof), NreplError::ConnectionClosed);
    assert_eq!(read_failure(IoFailure::BrokenPipe), NreplError::IoError("broken pipe".to_string()));
}

#[test]
fn eval_request_encodes_every_field_in_key_order() {
    assert_eq!(
        request().encode(),
        b"d4:code7:(+ 1 2)2:id4:id-12:op4:eval7:session3:s-9e".to_vec()
    );
}

fn sample_message() -> nrepl_client::message::Message {
    nrepl_client::message::Message {
        entries: vec![
            (b"count".to_vec(), Bencode::Int(-12)),
            (
                b"ops".to_vec(),
                Bencode::Dict(vec![
                    (b"close".to_vec(), Bencode::Dict(Vec::new())),
                    (b"eval".to_vec(), Bencode::List(vec![Bencode::Int(1), Bencode::Bytes(b"x".to_vec())])),
                ]),
            ),
            (b"status".to_vec(), Bencode::List(vec![Bencode::Bytes(b"done".to_vec())])),
        ],
    }
}

#[test]
fn message_encodes_every_kind_of_value() {
    assert_eq!(
        sample_message().encode(),
        b"d5:counti-12e3:opsd5:closede4:evalli1e1:xee6:statusl4:doneee".to_vec()
    );
}

#[test]
fn message_round_trips_through_the_wire() {
    let m = sample_message();
    let bytes = m.encode();
    assert_eq!(scan_frame(&bytes), FrameScan::Complete(bytes.len()));
    let back = decode(&bytes).unwrap();
    assert_eq!(back.entries.len(), m.entries.len());
    for (k, v) in &m.entries {
        match (back.get(k).unwrap(), v) {
            (Bencode::Dict(a), Bencode::Dict(b)) => assert_eq!(a.len(), b.len()),
            (a, b) => assert_eq!(a, b),
        }
    }
    match back.get(b"ops") {
        Some(Bencode::Dict(ops)) => {
            let eval = ops.iter().find(|(k, _)| k == b"eval").unwrap();
            assert_eq!(eval.1, Bencode::List(vec![Bencode::Int(1), Bencode::Bytes(b"x".to_vec())]));
        }
        other => panic!("unexpected {:?}", other),
    }
}
