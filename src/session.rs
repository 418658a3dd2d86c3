//! The client's side of the conversation: request ids, the session that a
//! clone handshake establishes, and the requests of each operation.
use vstd::prelude::*;
use vstd::string::StringSliceAdditionalSpecFns;
use crate::codec::{decimal_text, lossy_text, utf8_lossy, Op, Request};
use crate::error::NreplError;
use crate::message::{bytes_at, Message};
use crate::words::{word, word_bytes, Word};

verus! {

/// The length of the text form of a UUID.
pub const UUID_TEXT_LEN: usize = 36;

/// Relies on uuid::Uuid::new_v4 and its `Display`, which writes the
/// hyphenated form of 36 characters.
#[verifier::external_body]
fn fresh_uuid() -> (r: Vec<u8>)
    ensures
        r@.len() == UUID_TEXT_LEN,
{
    uuid::Uuid::new_v4().to_string().into_bytes()
}

/// `id` is the id of the request numbered `n`: a UUID, `-`, and `n` in decimal.
pub open spec fn is_id_for(id: Seq<u8>, n: nat) -> bool {
    id.len() > UUID_TEXT_LEN && id.subrange(UUID_TEXT_LEN as int, id.len() as int) == seq![45u8]
        + decimal_text(n)
}

fn push_decimal(out: &mut Vec<u8>, n: u64)
    ensures
        final(out)@ == old(out)@ + decimal_text(n as nat),
    decreases n,
{
    if n >= 10 {
        push_decimal(out, n / 10);
    }
    out.push(48u8 + (n % 10) as u8);
    assert(final(out)@ =~= old(out)@ + decimal_text(n as nat));
}

proof fn lemma_decimal_text_injective(a: nat, b: nat)
    requires
        decimal_text(a) == decimal_text(b),
    ensures
        a == b,
    decreases a,
{
    let sa = decimal_text(a);
    let sb = decimal_text(b);
    assert(sa.last() == sb.last());
    if a >= 10 && b >= 10 {
        assert(decimal_text(a / 10) == sa.drop_last());
        assert(decimal_text(b / 10) == sb.drop_last());
        lemma_decimal_text_injective(a / 10, b / 10);
    } else if a >= 10 {
        assert(decimal_text(a / 10).len() >= 1);
    } else if b >= 10 {
        assert(decimal_text(b / 10).len() >= 1);
    }
}

/// Requests numbered differently never share an id.
pub proof fn lemma_ids_distinct(a: Seq<u8>, b: Seq<u8>, m: nat, n: nat)
    requires
        is_id_for(a, m),
        is_id_for(b, n),
        m != n,
    ensures
        a != b,
{
    if a == b {
        let t = a.subrange(UUID_TEXT_LEN as int, a.len() as int);
        assert(t.drop_first() =~= decimal_text(m));
        assert((seq![45u8] + decimal_text(n)).drop_first() =~= decimal_text(n));
        lemma_decimal_text_injective(m, n);
    }
}

/// The ids that a client hands out, in the order it hands them out, are
/// pairwise distinct: the request numbered `k` carries an id for `k` (each
/// request builder of `Session` numbers its request with `issued()` and then
/// counts one up), so no id repeats an earlier one.
pub proof fn lemma_id_history_distinct(ids: Seq<Seq<u8>>)
    requires
        forall|k: int| 0 <= k < ids.len() ==> is_id_for(#[trigger] ids[k], k as nat),
    ensures
        forall|i: int, j: int| 0 <= i < j < ids.len() ==> #[trigger] ids[i] != #[trigger] ids[j],
{
    assert forall|i: int, j: int| 0 <= i < j < ids.len() implies #[trigger] ids[i]
        != #[trigger] ids[j] by {
        lemma_ids_distinct(ids[i], ids[j], i as nat, j as nat);
    }
}

/// Which request `eval` sends first: a clone when no session exists yet, the
/// evaluation itself otherwise.
pub open spec fn eval_opening(session: Option<Seq<u8>>) -> Op {
    match session {
        Some(_) => Op::Eval,
        None => Op::Clone,
    }
}

/// The session that a clone response establishes, if it carries one.
pub open spec fn cloned_session(resp: Message) -> Option<Seq<u8>> {
    bytes_at(resp, word_bytes(Word::NewSession))
}

/// The request state of one client: its session, if any, and how many
/// requests it has numbered.
pub struct Session {
    current: Option<Vec<u8>>,
    issued: u64,
}

pub open spec fn opt_bytes(v: Option<Vec<u8>>) -> Option<Seq<u8>> {
    match v {
        Some(b) => Some(b@),
        None => None,
    }
}

impl Session {
    /// The session id, if a session exists.
    pub closed spec fn session(&self) -> Option<Seq<u8>> {
        opt_bytes(self.current)
    }

    /// How many requests have been numbered.
    pub closed spec fn issued(&self) -> nat {
        self.issued as nat
    }

    /// No session, no request numbered yet.
    pub fn new() -> (r: Session)
        ensures
            r.session() is None,
            r.issued() == 0,
    {
        Session { current: None, issued: 0 }
    }

    /// Whether another request can be numbered.
    pub fn can_issue(&self) -> (r: bool)
        ensures
            r == (self.issued() < u64::MAX),
    {
        self.issued < u64::MAX
    }

    /// Whether a session exists.
    pub fn has_session(&self) -> (r: bool)
        ensures
            r == self.session() is Some,
    {
        self.current.is_some()
    }

    /// The session id as text, if a session exists.
    pub fn session_text(&self) -> (r: Option<String>)
        ensures
            match self.session() {
                Some(s) => r matches Some(t) && t@ == utf8_lossy(s),
                None => r is None,
            },
    {
        match &self.current {
            Some(s) => Some(lossy_text(s.as_slice())),
            None => None,
        }
    }

    fn next_id(&mut self) -> (r: Vec<u8>)
        requires
            old(self).issued() < u64::MAX,
        ensures
            is_id_for(r@, old(self).issued()),
            final(self).issued() == old(self).issued() + 1,
            final(self).session() == old(self).session(),
    {
        let mut id = fresh_uuid();
        id.push(45u8);
        push_decimal(&mut id, self.issued);
        assert(id@.subrange(UUID_TEXT_LEN as int, id@.len() as int) =~= seq![45u8] + decimal_text(
            self.issued as nat,
        ));
        self.issued = self.issued + 1;
        id
    }

    fn plain_request(&mut self, op: Op) -> (r: Request)
        requires
            old(self).issued() < u64::MAX,
        ensures
            r.op == op,
            is_id_for(r.id@, old(self).issued()),
            r.code is None,
            r.session is None,
            final(self).issued() == old(self).issued() + 1,
            final(self).session() == old(self).session(),
    {
        let id = self.next_id();
        Request { op, id, code: None, session: None }
    }

    /// A `describe` request; it carries no session.
    pub fn describe_request(&mut self) -> (r: Request)
        requires
            old(self).issued() < u64::MAX,
        ensures
            r.op == Op::Describe,
            is_id_for(r.id@, old(self).issued()),
            r.code is None,
            r.session is None,
            final(self).issued() == old(self).issued() + 1,
            final(self).session() == old(self).session(),
    {
        self.plain_request(Op::Describe)
    }

    /// A `clone` request, which asks the server for a new session.
    pub fn clone_request(&mut self) -> (r: Request)
        requires
            old(self).issued() < u64::MAX,
        ensures
            r.op == Op::Clone,
            is_id_for(r.id@, old(self).issued()),
            r.code is None,
            r.session is None,
            final(self).issued() == old(self).issued() + 1,
            final(self).session() == old(self).session(),
    {
        self.plain_request(Op::Clone)
    }

    /// Takes in the response to a clone request. A response that carries a
    /// new session makes it the current one and returns its id as text;
    /// any other fails with `Other`, leaving the session as it was.
    pub fn accept_clone(&mut self, resp: &Message) -> (r: Result<String, NreplError>)
        ensures
            final(self).issued() == old(self).issued(),
            match cloned_session(*resp) {
                Some(s) => r matches Ok(t) && t@ == utf8_lossy(s) && final(self).session() == Some(
                    s,
                ),
                None => r matches Err(e) && e is Other && final(self).session() == old(
                    self,
                ).session(),
            },
    {
        let key = word(Word::NewSession);
        match resp.get_bytes(key.as_slice()) {
            Some(b) => {
                self.current = Some(b.clone());
                Ok(lossy_text(b.as_slice()))
            },
            None => Err(NreplError::Other(String::from_str("no session in clone response"))),
        }
    }

    /// The next request of an evaluation of `code`: a clone while no session
    /// exists, otherwise the evaluation itself, in the current session.
    pub fn eval_request(&mut self, code: &str) -> (r: Request)
        requires
            old(self).issued() < u64::MAX,
        ensures
            r.op == eval_opening(old(self).session()),
            is_id_for(r.id@, old(self).issued()),
            final(self).issued() == old(self).issued() + 1,
            final(self).session() == old(self).session(),
            r.op == Op::Eval ==> (r.code matches Some(c) && c@ == code.spec_bytes()),
            r.op == Op::Eval ==> opt_bytes(r.session) == old(self).session(),
            r.op == Op::Clone ==> r.code is None && r.session is None,
    {
        match &self.current {
            None => self.plain_request(Op::Clone),
            Some(s) => {
                let session = s.clone();
                let id = self.next_id();
                let mut c: Vec<u8> = Vec::new();
                c.extend_from_slice(code.as_bytes());
                assert(c@ =~= code.spec_bytes());
                Request { op: Op::Eval, id, code: Some(c), session: Some(session) }
            },
        }
    }

    /// An `interrupt` request for the current session; none without one.
    pub fn interrupt_request(&mut self) -> (r: Option<Request>)
        requires
            old(self).session() is Some ==> old(self).issued() < u64::MAX,
        ensures
            final(self).session() == old(self).session(),
            match old(self).session() {
                Some(s) => r matches Some(q) && q.op == Op::Interrupt && is_id_for(
                    q.id@,
                    old(self).issued(),
                ) && q.code is None && opt_bytes(q.session) == Some(s) && final(self).issued()
                    == old(self).issued() + 1,
                None => r is None && final(self).issued() == old(self).issued(),
            },
    {
        match &self.current {
            None => None,
            Some(s) => {
                let session = s.clone();
                let id = self.next_id();
                Some(Request { op: Op::Interrupt, id, code: None, session: Some(session) })
            },
        }
    }

    /// Ends the current session. Returns the `close` request to send, if a
    /// session existed (and a request can still be numbered); the session is
    /// gone either way, whatever becomes of that request.
    pub fn close(&mut self) -> (r: Option<Request>)
        ensures
            final(self).session() is None,
            match old(self).session() {
                Some(s) => if old(self).issued() < u64::MAX {
                    r matches Some(q) && q.op == Op::Close && is_id_for(q.id@, old(self).issued())
                        && q.code is None && opt_bytes(q.session) == Some(s) && final(self).issued()
                        == old(self).issued() + 1
                } else {
                    r is None && final(self).issued() == old(self).issued()
                },
                None => r is None && final(self).issued() == old(self).issued(),
            },
    {
        match self.current.take() {
            None => None,
            Some(s) => {
                if self.issued < u64::MAX {
                    let id = self.next_id();
                    Some(Request { op: Op::Close, id, code: None, session: Some(s) })
                } else {
                    None
                }
            },
        }
    }
}

/// An evaluation without a session opens with exactly one clone: once a
/// clone response has established a session, the next request of the
/// evaluation is the evaluation itself.
pub proof fn lemma_eval_clones_once(resp: Message)
    requires
        cloned_session(resp) is Some,
    ensures
        eval_opening(None) == Op::Clone,
        eval_opening(cloned_session(resp)) == Op::Eval,
{
}

} // verus!
