//! Turning requests into wire bytes and frames into messages, through
//! serde_bencode.
use vstd::prelude::*;
use crate::error::NreplError;
use crate::framing::{decimal, frame_scan, is_digit, scan_from, skip_digits, token_at, ScanOutcome, Token};
use crate::message::{bytes_at, lookup, Bencode, Message};
use crate::words::{word, word_bytes, Word};

verus! {

/// The decimal digits of `n`, most significant first.
pub open spec fn decimal_text(n: nat) -> Seq<u8>
    decreases n,
{
    if n < 10 {
        seq![(48 + n) as u8]
    } else {
        decimal_text(n / 10).push((48 + n % 10) as u8)
    }
}

/// The bencoding of a byte string: its length in decimal, `:`, the bytes.
pub open spec fn bencoded_bytes(b: Seq<u8>) -> Seq<u8> {
    decimal_text(b.len()) + seq![58u8] + b
}

/// `a` sorts strictly before `b` in byte order.
pub open spec fn bytes_less(a: Seq<u8>, b: Seq<u8>) -> bool
    decreases a.len(),
{
    if a.len() == 0 {
        b.len() > 0
    } else if b.len() == 0 {
        false
    } else if a[0] != b[0] {
        a[0] < b[0]
    } else {
        bytes_less(a.drop_first(), b.drop_first())
    }
}

/// The keys of `entries` ascend strictly in byte order.
pub open spec fn keys_ascending(entries: Seq<(Seq<u8>, Seq<u8>)>) -> bool {
    forall|i: int, j: int|
        0 <= i < j < entries.len() ==> bytes_less(
            (#[trigger] entries[i]).0,
            (#[trigger] entries[j]).0,
        )
}

proof fn lemma_decimal_text_digits(n: nat)
    ensures
        decimal_text(n).len() >= 1,
        forall|i: int| 0 <= i < decimal_text(n).len() ==> is_digit(#[trigger] decimal_text(n)[i]),
    decreases n,
{
    if n >= 10 {
        lemma_decimal_text_digits(n / 10);
    }
}

proof fn lemma_skip_digit_run(s: Seq<u8>, p: int, k: int)
    requires
        0 <= p,
        0 <= k,
        p + k < s.len(),
        forall|i: int| p <= i < p + k ==> is_digit(#[trigger] s[i]),
        !is_digit(s[p + k]),
    ensures
        skip_digits(s, p) == p + k,
    decreases k,
{
    if k > 0 {
        lemma_skip_digit_run(s, p + 1, k - 1);
    }
}

proof fn lemma_read_decimal(s: Seq<u8>, p: int, n: nat)
    requires
        0 <= p,
        p + decimal_text(n).len() <= s.len(),
        s.subrange(p, p + decimal_text(n).len()) == decimal_text(n),
    ensures
        decimal(s, p, p + decimal_text(n).len()) == n,
    decreases n,
{
    let t = decimal_text(n);
    let l = t.len() as int;
    assert(s[p + l - 1] == s.subrange(p, p + l)[l - 1]);
    if n >= 10 {
        let u = decimal_text(n / 10);
        assert(u.len() == l - 1);
        assert(s.subrange(p, p + u.len()) =~= s.subrange(p, p + l).subrange(0, u.len() as int));
        assert(t.subrange(0, u.len() as int) =~= u);
        lemma_read_decimal(s, p, n / 10);
        assert(t[l - 1] == (48 + n % 10) as u8);
        assert(decimal(s, p, p + l) == decimal(s, p, p + l - 1) * 10 + (s[p + l - 1] - 48) as nat);
        assert((n / 10) * 10 + n % 10 == n) by (nonlinear_arith);
    } else {
        assert(l == 1);
        assert(t[0] == (48 + n) as u8);
        assert(decimal(s, p, p + 1) == decimal(s, p, p) * 10 + (s[p] - 48) as nat);
    }
}

/// A bencoded byte string at position `p` of `s` is read as one token that
/// ends where the string does.
proof fn lemma_bytes_token(s: Seq<u8>, p: int, b: Seq<u8>)
    requires
        0 <= p,
        p + bencoded_bytes(b).len() <= s.len(),
        s.subrange(p, p + bencoded_bytes(b).len()) == bencoded_bytes(b),
    ensures
        token_at(s, p) == Token::Atom(p + bencoded_bytes(b).len()),
{
    let e = bencoded_bytes(b);
    let t = decimal_text(b.len());
    let l = t.len() as int;
    lemma_decimal_text_digits(b.len());
    assert forall|i: int| p <= i < p + l implies is_digit(#[trigger] s[i]) by {
        assert(s[i] == s.subrange(p, p + e.len())[i - p]);
        assert(e[i - p] == t[i - p]);
    }
    assert(s[p + l] == s.subrange(p, p + e.len())[l]);
    assert(e[l] == 58u8);
    lemma_skip_digit_run(s, p, l);
    assert(s.subrange(p, p + l) =~= s.subrange(p, p + e.len()).subrange(0, l));
    assert(e.subrange(0, l) =~= t);
    lemma_read_decimal(s, p, b.len());
    assert(s[p] == s.subrange(p, p + e.len())[0]);
    assert(is_digit(s[p]));
}

/// The bencoded entries of a dictionary, found at position `q` inside an
/// open dictionary, are scanned past as a whole.
proof fn lemma_scan_dict_body(s: Seq<u8>, q: int, entries: Seq<(Seq<u8>, Seq<u8>)>)
    requires
        0 <= q,
        q + dict_body(entries).len() <= s.len(),
        s.subrange(q, q + dict_body(entries).len()) == dict_body(entries),
    ensures
        scan_from(s, q, 1) == scan_from(s, q + dict_body(entries).len(), 1),
    decreases entries.len(),
{
    if entries.len() > 0 {
        let front = entries.drop_last();
        let k = entries.last().0;
        let v = entries.last().1;
        let body = dict_body(entries);
        let f = dict_body(front).len() as int;
        let ek = bencoded_bytes(k);
        let ev = bencoded_bytes(v);
        assert(body == dict_body(front) + ek + ev);
        assert(s.subrange(q, q + f) =~= s.subrange(q, q + body.len()).subrange(0, f));
        assert(body.subrange(0, f) =~= dict_body(front));
        lemma_scan_dict_body(s, q, front);
        let q1 = q + f;
        assert(s.subrange(q1, q1 + ek.len()) =~= s.subrange(q, q + body.len()).subrange(
            f,
            f + ek.len(),
        ));
        assert(body.subrange(f, f + ek.len()) =~= ek);
        lemma_bytes_token(s, q1, k);
        let q2 = q1 + ek.len();
        assert(s.subrange(q2, q2 + ev.len()) =~= s.subrange(q, q + body.len()).subrange(
            f + ek.len(),
            f + ek.len() + ev.len(),
        ));
        assert(body.subrange(f + ek.len(), f + ek.len() + ev.len()) =~= ev);
        lemma_bytes_token(s, q2, v);
        assert(scan_from(s, q1, 1) == scan_from(s, q2, 1));
        assert(scan_from(s, q2, 1) == scan_from(s, q2 + ev.len(), 1));
    }
}

/// The bencoding of a dictionary is one complete frame, and nothing more.
pub proof fn lemma_dict_is_one_frame(entries: Seq<(Seq<u8>, Seq<u8>)>)
    ensures
        frame_scan(bencoded_dict(entries)) == ScanOutcome::Complete(
            bencoded_dict(entries).len() as int,
        ),
{
    let s = bencoded_dict(entries);
    let body = dict_body(entries);
    let n = body.len() as int;
    assert(s.subrange(1, 1 + n) =~= body);
    lemma_scan_dict_body(s, 1, entries);
    assert(s[0] == 100u8);
    assert(s[1 + n] == 101u8);
}

/// A request survives the wire: its encoding is a dictionary of byte strings
/// under ASCII keys, so decoding it yields exactly the request's entries.
pub proof fn lemma_request_round_trip(r: Request)
    ensures
        plain_dict(request_entries(r)),
{
    lemma_request_keys_ascend(r);
    let e = request_entries(r);
    assert forall|i: int| 0 <= i < e.len() implies is_ascii_bytes(#[trigger] e[i].0) by {
        let k = e[i].0;
        assert forall|j: int| 0 <= j < k.len() implies #[trigger] k[j] < 128 by {}
    }
}

/// Each request travels as exactly one complete frame.
pub proof fn lemma_request_is_one_frame(r: Request)
    ensures
        frame_scan(bencoded_dict(request_entries(r))) == ScanOutcome::Complete(
            bencoded_dict(request_entries(r)).len() as int,
        ),
{
    lemma_dict_is_one_frame(request_entries(r));
}

/// Each key and value of `entries`, bencoded, in order.
pub open spec fn dict_body(entries: Seq<(Seq<u8>, Seq<u8>)>) -> Seq<u8>
    decreases entries.len(),
{
    if entries.len() == 0 {
        Seq::empty()
    } else {
        dict_body(entries.drop_last()) + bencoded_bytes(entries.last().0) + bencoded_bytes(
            entries.last().1,
        )
    }
}

/// The bencoding of a dictionary of byte strings, listed in key order.
pub open spec fn bencoded_dict(entries: Seq<(Seq<u8>, Seq<u8>)>) -> Seq<u8> {
    seq![100u8] + dict_body(entries) + seq![101u8]
}

/// The text that lossy UTF-8 decoding makes of some bytes.
pub uninterp spec fn utf8_lossy(b: Seq<u8>) -> Seq<char>;

/// Each key occurs once among `entries`.
pub open spec fn keys_distinct(entries: Seq<(Vec<u8>, Bencode)>) -> bool {
    forall|i: int, j: int|
        0 <= i < j < entries.len() ==> (#[trigger] entries[i]).0@ != (#[trigger] entries[j]).0@
}

pub open spec fn pairs_view(entries: Seq<(Vec<u8>, Vec<u8>)>) -> Seq<(Seq<u8>, Seq<u8>)> {
    entries.map_values(|e: (Vec<u8>, Vec<u8>)| (e.0@, e.1@))
}

/// Relies on serde_bencode::to_bytes on a `Value::Dict` of byte strings: it
/// writes `d`, then each key and value as `length:bytes` in ascending key
/// order, then `e`.
#[verifier::external_body]
fn encode_dict(entries: &Vec<(Vec<u8>, Vec<u8>)>) -> (r: Option<Vec<u8>>)
    requires
        keys_ascending(pairs_view(entries@)),
    ensures
        r is Some,
        r matches Some(b) ==> b@ == bencoded_dict(pairs_view(entries@)),
{
    let map: std::collections::HashMap<Vec<u8>, serde_bencode::value::Value> = entries
        .iter()
        .map(|(k, v)| (k.clone(), serde_bencode::value::Value::Bytes(v.clone())))
        .collect();
    serde_bencode::to_bytes(&serde_bencode::value::Value::Dict(map)).ok()
}

/// Every byte is ASCII.
pub open spec fn is_ascii_bytes(b: Seq<u8>) -> bool {
    forall|i: int| 0 <= i < b.len() ==> #[trigger] b[i] < 128
}

/// A dictionary of byte strings under ASCII keys, listed in key order.
pub open spec fn plain_dict(entries: Seq<(Seq<u8>, Seq<u8>)>) -> bool {
    &&& keys_ascending(entries)
    &&& forall|i: int| 0 <= i < entries.len() ==> is_ascii_bytes(#[trigger] entries[i].0)
}

/// `m` holds exactly the keys of `entries`, each with its byte string.
pub open spec fn decodes_as(m: Message, entries: Seq<(Seq<u8>, Seq<u8>)>) -> bool {
    &&& m.entries@.len() == entries.len()
    &&& forall|i: int|
        0 <= i < entries.len() ==> bytes_at(m, (#[trigger] entries[i]).0) == Some(entries[i].1)
}

/// The decimal text of an integer, with `-` before a negative one.
pub open spec fn int_text(i: int) -> Seq<u8> {
    if i < 0 {
        seq![45u8] + decimal_text((-i) as nat)
    } else {
        decimal_text(i as nat)
    }
}

/// The bencoding of a value: a byte string as `length:bytes`, an integer as
/// `i`, its decimal text, `e`, a list as `l`, its items, `e`, and a
/// dictionary as `d`, each key and value in the order listed, `e`.
pub open spec fn bencoded_value(v: Bencode) -> Seq<u8>
    decreases v,
{
    match v {
        Bencode::Bytes(b) => bencoded_bytes(b@),
        Bencode::Int(i) => seq![105u8] + int_text(i as int) + seq![101u8],
        Bencode::List(items) => seq![108u8] + Seq::new(
            items@.len(),
            |k: int|
                if 0 <= k < items@.len() {
                    bencoded_value(items@[k])
                } else {
                    Seq::empty()
                },
        ).flatten() + seq![101u8],
        Bencode::Dict(entries) => seq![100u8] + Seq::new(
            entries@.len(),
            |k: int|
                if 0 <= k < entries@.len() {
                    bencoded_bytes(entries@[k].0@) + bencoded_value(entries@[k].1)
                } else {
                    Seq::empty()
                },
        ).flatten() + seq![101u8],
    }
}

/// The keys of a dictionary's entries are distinct, at this level.
pub open spec fn entry_keys_distinct(entries: Seq<(Vec<u8>, Bencode)>) -> bool {
    forall|i: int, j: int|
        0 <= i < j < entries.len() ==> (#[trigger] entries[i]).0@ != (#[trigger] entries[j]).0@
}

/// Every dictionary within `v`, at any depth, has distinct keys.
pub open spec fn well_keyed(v: Bencode) -> bool
    decreases v,
{
    match v {
        Bencode::Bytes(_) => true,
        Bencode::Int(_) => true,
        Bencode::List(items) => forall|k: int|
            0 <= k < items@.len() ==> well_keyed(#[trigger] items@[k]),
        Bencode::Dict(entries) => entry_keys_distinct(entries@) && forall|k: int|
            0 <= k < entries@.len() ==> well_keyed((#[trigger] entries@[k]).1),
    }
}

/// `a` holds the same value as `b`, up to the order in which the entries
/// of dictionaries are listed.
pub open spec fn same_value(a: Bencode, b: Bencode) -> bool
    decreases b,
{
    match b {
        Bencode::Bytes(x) => a is Bytes && a->Bytes_0@ == x@,
        Bencode::Int(i) => a == Bencode::Int(i),
        Bencode::List(items) => a is List && a->List_0@.len() == items@.len() && forall|k: int|
            0 <= k < items@.len() ==> same_value(a->List_0@[k], #[trigger] items@[k]),
        Bencode::Dict(entries) => a is Dict && a->Dict_0@.len() == entries@.len() && forall|k: int|
            0 <= k < entries@.len() ==> match lookup(a->Dict_0@, (#[trigger] entries@[k]).0@) {
                Some(x) => same_value(x, entries@[k].1),
                None => false,
            },
    }
}

/// A message that serde_bencode decodes into a map with text keys: its keys
/// are ASCII and distinct, and so are the keys of every dictionary within.
pub open spec fn decodable(m: Message) -> bool {
    &&& well_keyed(Bencode::Dict(m.entries))
    &&& forall|k: int| 0 <= k < m.entries@.len() ==> is_ascii_bytes((#[trigger] m.entries@[k]).0@)
}

/// The message `m` holds the same entries as `expected`, up to order at
/// every level.
pub open spec fn same_message(m: Message, expected: Message) -> bool {
    same_value(Bencode::Dict(m.entries), Bencode::Dict(expected.entries))
}

/// Every dictionary within `v`, at any depth, lists its keys in strictly
/// ascending byte order.
pub open spec fn ordered(v: Bencode) -> bool
    decreases v,
{
    match v {
        Bencode::Bytes(_) => true,
        Bencode::Int(_) => true,
        Bencode::List(items) => forall|k: int|
            0 <= k < items@.len() ==> ordered(#[trigger] items@[k]),
        Bencode::Dict(entries) => (forall|i: int, j: int|
            0 <= i < j < entries@.len() ==> bytes_less(
                (#[trigger] entries@[i]).0@,
                (#[trigger] entries@[j]).0@,
            )) && forall|k: int| 0 <= k < entries@.len() ==> ordered((#[trigger] entries@[k]).1),
    }
}

proof fn lemma_bytes_less_irreflexive(a: Seq<u8>)
    ensures
        !bytes_less(a, a),
    decreases a.len(),
{
    if a.len() > 0 {
        lemma_bytes_less_irreflexive(a.drop_first());
    }
}

proof fn lemma_ordered_is_well_keyed(v: Bencode)
    requires
        ordered(v),
    ensures
        well_keyed(v),
    decreases v,
{
    match v {
        Bencode::List(items) => {
            assert forall|k: int| 0 <= k < items@.len() implies well_keyed(#[trigger] items@[k]) by {
                lemma_ordered_is_well_keyed(items@[k]);
            }
        },
        Bencode::Dict(entries) => {
            assert forall|i: int, j: int| 0 <= i < j < entries@.len() implies (
            #[trigger] entries@[i]).0@ != (#[trigger] entries@[j]).0@ by {
                lemma_bytes_less_irreflexive(entries@[i].0@);
            }
            assert forall|k: int| 0 <= k < entries@.len() implies well_keyed(
                (#[trigger] entries@[k]).1,
            ) by {
                lemma_ordered_is_well_keyed(entries@[k].1);
            }
        },
        _ => {},
    }
}

/// A message whose keys are ASCII and listed in ascending order, at every
/// level, survives the wire: `Message::encode` writes its bencoding, and
/// `decode` reads that back as the same message.
pub proof fn lemma_message_round_trip(m: Message)
    requires
        ordered(Bencode::Dict(m.entries)),
        forall|k: int| 0 <= k < m.entries@.len() ==> is_ascii_bytes((#[trigger] m.entries@[k]).0@),
    ensures
        decodable(m),
{
    lemma_ordered_is_well_keyed(Bencode::Dict(m.entries));
}

/// Relies on serde_bencode's `Value`: moves the contents of each variant of
/// `Bencode` into the variant of `Value` of the same name.
#[verifier::external_body]
fn into_value(v: &Bencode) -> serde_bencode::value::Value {
    match v {
        Bencode::Bytes(b) => serde_bencode::value::Value::Bytes(b.clone()),
        Bencode::Int(i) => serde_bencode::value::Value::Int(*i),
        Bencode::List(l) => serde_bencode::value::Value::List(l.iter().map(into_value).collect()),
        Bencode::Dict(d) => serde_bencode::value::Value::Dict(
            d.iter().map(|(k, x)| (k.clone(), into_value(x))).collect(),
        ),
    }
}

/// Relies on serde_bencode::to_bytes on a `Value::Dict`: it writes byte
/// strings as `length:bytes`, integers as `i`, decimal text, `e`, lists in
/// order between `l` and `e`, and dictionaries between `d` and `e` with their
/// keys in ascending order; it does not fail on a `Value`.
#[verifier::external_body]
fn encode_entries(entries: &Vec<(Vec<u8>, Bencode)>) -> (r: Option<Vec<u8>>)
    requires
        ordered(Bencode::Dict(*entries)),
    ensures
        r is Some,
        r matches Some(b) ==> b@ == bencoded_value(Bencode::Dict(*entries)),
{
    let map = entries.iter().map(|(k, x)| (k.clone(), into_value(x))).collect();
    serde_bencode::to_bytes(&serde_bencode::value::Value::Dict(map)).ok()
}

impl Message {
    /// The message's wire bytes. Its keys, and those of every dictionary
    /// within, are listed in ascending order, as the wire form has them.
    pub fn encode(&self) -> (r: Vec<u8>)
        requires
            ordered(Bencode::Dict(self.entries)),
        ensures
            r@ == bencoded_value(Bencode::Dict(self.entries)),
    {
        encode_entries(&self.entries).unwrap()
    }
}

/// Relies on serde_bencode's `Value`: moves the contents of each variant into
/// the variant of `Bencode` of the same name.
#[verifier::external_body]
fn from_value(v: serde_bencode::value::Value) -> Bencode {
    match v {
        serde_bencode::value::Value::Bytes(b) => Bencode::Bytes(b),
        serde_bencode::value::Value::Int(i) => Bencode::Int(i),
        serde_bencode::value::Value::List(l) => Bencode::List(l.into_iter().map(from_value).collect()),
        serde_bencode::value::Value::Dict(d) => Bencode::Dict(
            d.into_iter().map(|(k, x)| (k, from_value(x))).collect(),
        ),
    }
}

/// Relies on serde_bencode::from_bytes into a `HashMap` with text keys: it
/// fails unless the bytes begin with a dictionary, and the keys it yields are
/// distinct; on the bencoding of a dictionary of byte strings under ASCII
/// keys it yields exactly those keys, each with its byte string; more
/// generally, on the bencoding of a message whose keys are ASCII and distinct
/// at the top and distinct in every inner dictionary, it yields the same
/// byte strings, integers, lists and dictionaries. The order of the entries
/// of each dictionary is the map's own.
#[verifier::external_body]
fn decode_dict(frame: &[u8]) -> (r: Option<Message>)
    ensures
        r matches Some(m) ==> keys_distinct(m.entries@),
        forall|e: Seq<(Seq<u8>, Seq<u8>)>|
            plain_dict(e) && frame@ == #[trigger] bencoded_dict(e) ==> r is Some && decodes_as(r->Some_0, e),
        forall|m: Message|
            decodable(m) && frame@ == #[trigger] bencoded_value(Bencode::Dict(m.entries)) ==> r is Some && same_message(r->Some_0, m),
{
    serde_bencode::from_bytes::<std::collections::HashMap<String, serde_bencode::value::Value>>(
        frame,
    ).ok().map(
        |m| Message { entries: m.into_iter().map(|(k, v)| (k.into_bytes(), from_value(v))).collect() },
    )
}

/// Relies on String::from_utf8_lossy: the text depends on the bytes alone,
/// and valid UTF-8, ASCII in particular, comes back unchanged.
#[verifier::external_body]
pub(crate) fn lossy_text(b: &[u8]) -> (r: String)
    ensures
        r@ == utf8_lossy(b@),
        is_ascii_bytes(b@) ==> r@ == b@.map_values(|x: u8| x as char),
{
    String::from_utf8_lossy(b).into_owned()
}

/// Decodes one frame into a message; a frame that is not a dictionary with
/// text keys fails with `ParseError`. The bencoding of a dictionary of byte
/// strings decodes to exactly its entries, and the bencoding of any
/// decodable message to the same message, up to the order of entries.
pub fn decode(frame: &[u8]) -> (r: Result<Message, NreplError>)
    ensures
        r matches Ok(m) ==> keys_distinct(m.entries@),
        forall|e: Seq<(Seq<u8>, Seq<u8>)>|
            plain_dict(e) && frame@ == #[trigger] bencoded_dict(e) ==> r is Ok && decodes_as(r->Ok_0, e),
        forall|m: Message|
            decodable(m) && frame@ == #[trigger] bencoded_value(Bencode::Dict(m.entries)) ==> r is Ok && same_message(r->Ok_0, m),
        r matches Err(e) ==> e is ParseError,
{
    match decode_dict(frame) {
        Some(m) => Ok(m),
        None => Err(NreplError::ParseError(String::from_str("frame is not a dictionary"))),
    }
}

/// An operation that the client asks of the server.
#[derive(Clone, Copy, Debug, PartialEq, Eq)]
pub enum Op {
    Clone,
    Eval,
    Describe,
    Interrupt,
    Close,
}

pub open spec fn op_word(op: Op) -> Word {
    match op {
        Op::Clone => Word::Clone,
        Op::Eval => Word::Eval,
        Op::Describe => Word::Describe,
        Op::Interrupt => Word::Interrupt,
        Op::Close => Word::Close,
    }
}

/// A request, before encoding.
#[derive(Clone, Debug, PartialEq, Eq)]
pub struct Request {
    pub op: Op,
    pub id: Vec<u8>,
    pub code: Option<Vec<u8>>,
    pub session: Option<Vec<u8>>,
}

pub open spec fn opt_entry(w: Word, v: Option<Vec<u8>>) -> Seq<(Seq<u8>, Seq<u8>)> {
    match v {
        Some(b) => seq![(word_bytes(w), b@)],
        None => Seq::empty(),
    }
}

/// The entries that a request puts on the wire, in key order: `code` where
/// present, `id`, `op`, and `session` where present.
pub open spec fn request_entries(r: Request) -> Seq<(Seq<u8>, Seq<u8>)> {
    opt_entry(Word::Code, r.code) + seq![
        (word_bytes(Word::Id), r.id@),
        (word_bytes(Word::Op), word_bytes(op_word(r.op))),
    ] + opt_entry(Word::Session, r.session)
}

fn op_bytes(op: Op) -> (r: Vec<u8>)
    ensures
        r@ == word_bytes(op_word(op)),
{
    match op {
        Op::Clone => word(Word::Clone),
        Op::Eval => word(Word::Eval),
        Op::Describe => word(Word::Describe),
        Op::Interrupt => word(Word::Interrupt),
        Op::Close => word(Word::Close),
    }
}

proof fn lemma_request_keys_ascend(r: Request)
    ensures
        keys_ascending(request_entries(r)),
{
    let e = request_entries(r);
    assert forall|i: int, j: int| 0 <= i < j < e.len() implies bytes_less(
        (#[trigger] e[i]).0,
        (#[trigger] e[j]).0,
    ) by {
        assert(e[i].0.len() > 0 && e[j].0.len() > 0 && e[i].0[0] < e[j].0[0]);
    }
}

impl Request {
    /// The request's entries, as pairs of byte strings.
    pub fn entries(&self) -> (r: Vec<(Vec<u8>, Vec<u8>)>)
        ensures
            pairs_view(r@) == request_entries(*self),
    {
        let mut r: Vec<(Vec<u8>, Vec<u8>)> = Vec::new();
        match &self.code {
            Some(c) => r.push((word(Word::Code), c.clone())),
            None => {},
        }
        r.push((word(Word::Id), self.id.clone()));
        r.push((word(Word::Op), op_bytes(self.op)));
        match &self.session {
            Some(s) => r.push((word(Word::Session), s.clone())),
            None => {},
        }
        assert(pairs_view(r@) =~= request_entries(*self));
        r
    }

    /// The request's wire bytes.
    pub fn encode(&self) -> (r: Vec<u8>)
        ensures
            r@ == bencoded_dict(request_entries(*self)),
    {
        let entries = self.entries();
        proof {
            lemma_request_keys_ascend(*self);
        }
        encode_dict(&entries).unwrap()
    }
}

} // verus!
