use nrepl_client::codec::Op;
use nrepl_client::error::NreplError;
use nrepl_client::message::{Bencode, Message};
use nrepl_client::session::Session;

fn clone_response(session: &str) -> Message {
    Message {
        entries: vec![
            (b"id".to_vec(), Bencode::Bytes(b"x".to_vec())),
            (b"new-session".to_vec(), Bencode::Bytes(session.as_bytes().to_vec())),
        ],
    }
}

#[test]
fn request_ids_are_distinct_and_numbered() {
    let mut s = Session::new();
    let mut ids: Vec<Vec<u8>> = Vec::new();
    for _ in 0..50 {
        ids.push(s.describe_request().id);
    }
    for i in 0..ids.len() {
        assert_eq!(ids[i][36], b'-');
        assert_eq!(&ids[i][37..], i.to_string().as_bytes());
        for j in 0..i {
            assert_ne!(ids[i], ids[j]);
        }
    }
}

#[test]
fn eval_without_session_clones_first() {
    let mut s = Session::new();
    let first = s.eval_request("(+ 1 2 3)");
    assert_eq!(first.op, Op::Clone);
    assert_eq!(first.session, None);
    assert_eq!(s.accept_clone(&clone_response("abc")).unwrap(), "abc");
    let second = s.eval_request("(+ 1 2 3)");
    assert_eq!(second.op, Op::Eval);
    assert_eq!(second.code, Some(b"(+ 1 2 3)".to_vec()));
    assert_eq!(second.session, Some(b"abc".to_vec()));
    assert_ne!(first.id, second.id);
    let third = s.eval_request("(+ 1 1)");
    assert_eq!(third.op, Op::Eval);
}

#[test]
fn clone_response_without_session_fails() {
    let mut s = Session::new();
    let resp = Message { entries: vec![(b"id".to_vec(), Bencode::Bytes(b"x".to_vec()))] };
    assert!(matches!(s.accept_clone(&resp), Err(NreplError::Other(_))));
    assert!(!s.has_session());
    let resp = Message { entries: vec![(b"new-session".to_vec(), Bencode::Int(3))] };
    assert!(matches!(s.accept_clone(&resp), Err(NreplError::Other(_))));
}

#[test]
fn close_clears_the_session() {
    let mut s = Session::new();
    s.accept_clone(&clone_response("abc")).unwrap();
    assert_eq!(s.session_text(), Some("abc".to_string()));
    let req = s.close().unwrap();
    assert_eq!(req.op, Op::Close);
    assert_eq!(req.session, Some(b"abc".to_vec()));
    assert!(!s.has_session());
    assert!(s.close().is_none());
    assert_eq!(s.session_text(), None);
}

#[test]
fn interrupt_needs_a_session() {
    let mut s = Session::new();
    assert!(s.interrupt_request().is_none());
    s.accept_clone(&clone_response("abc")).unwrap();
    let req = s.interrupt_request().unwrap();
    assert_eq!(req.op, Op::Interrupt);
    assert_eq!(req.session, Some(b"abc".to_vec()));
    assert!(s.has_session());
}

#[test]
fn describe_carries_no_session() {
    let mut s = Session::new();
    s.accept_clone(&clone_response("abc")).unwrap();
    let req = s.describe_request();
    assert_eq!(req.op, Op::Describe);
    assert_eq!(req.session, None);
    assert_eq!(req.code, None);
    assert!(s.can_issue());
}

#[test]
fn session_text_replaces_invalid_bytes() {
    let mut s = Session::new();
    let resp = Message {
        entries: vec![(b"new-session".to_vec(), Bencode::Bytes(vec![0x61, 0xff]))],
    };
    assert_eq!(s.accept_clone(&resp).unwrap(), "a\u{fffd}");
    assert_eq!(s.session_text(), Some("a\u{fffd}".to_string()));
}
