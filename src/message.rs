//! Protocol messages: decoded responses, requests, and their wire form.
use vstd::prelude::*;

verus! {

#[verifier::external_type_specification]
#[verifier::external_body]
pub struct ExBencodeValue(serde_bencode::value::Value);

/// A bencoded value.
#[derive(Debug, PartialEq, Eq)]
pub enum Bencode {
    Bytes(Vec<u8>),
    Int(i64),
    List(Vec<Bencode>),
    Dict(Vec<(Vec<u8>, Bencode)>),
}

/// One decoded frame: a mapping from keys to values, each key at most once.
#[derive(Debug, PartialEq, Eq)]
pub struct Message {
    pub entries: Vec<(Vec<u8>, Bencode)>,
}

/// The value stored under `key` among `entries`, if any (the first such).
pub open spec fn lookup(entries: Seq<(Vec<u8>, Bencode)>, key: Seq<u8>) -> Option<Bencode>
    decreases entries.len(),
{
    if entries.len() == 0 {
        None
    } else if entries[0].0@ == key {
        Some(entries[0].1)
    } else {
        lookup(entries.subrange(1, entries.len() as int), key)
    }
}

/// The byte string stored under `key`, if the value there is one.
pub open spec fn bytes_at(m: Message, key: Seq<u8>) -> Option<Seq<u8>> {
    match lookup(m.entries@, key) {
        Some(Bencode::Bytes(b)) => Some(b@),
        _ => None,
    }
}

/// The value under `key` is a list that holds the byte string `word`.
pub open spec fn list_has(m: Message, key: Seq<u8>, word: Seq<u8>) -> bool {
    match lookup(m.entries@, key) {
        Some(Bencode::List(items)) => exists|i: int|
            0 <= i < items@.len() && (#[trigger] items@[i]) is Bytes && items@[i]->Bytes_0@ == word,
        _ => false,
    }
}

pub fn bytes_equal(a: &[u8], b: &[u8]) -> (r: bool)
    ensures
        r == (a@ == b@),
{
    if a.len() != b.len() {
        return false;
    }
    let mut i: usize = 0;
    while i < a.len()
        invariant
            a@.len() == b@.len(),
            i <= a@.len(),
            a@.subrange(0, i as int) == b@.subrange(0, i as int),
        decreases a@.len() - i,
    {
        if a[i] != b[i] {
            assert(a@[i as int] != b@[i as int]);
            return false;
        }
        assert(a@.subrange(0, i + 1) =~= a@.subrange(0, i as int).push(a@[i as int]));
        assert(b@.subrange(0, i + 1) =~= b@.subrange(0, i as int).push(b@[i as int]));
        i = i + 1;
    }
    assert(a@ =~= a@.subrange(0, i as int));
    assert(b@ =~= b@.subrange(0, i as int));
    true
}

impl Message {
    /// The value stored under `key`, if any.
    pub fn get(&self, key: &[u8]) -> (r: Option<&Bencode>)
        ensures
            r matches Some(v) ==> lookup(self.entries@, key@) == Some(*v),
            r is None ==> lookup(self.entries@, key@) is None,
    {
        let mut i: usize = 0;
        assert(self.entries@.subrange(0, self.entries@.len() as int) =~= self.entries@);
        while i < self.entries.len()
            invariant
                i <= self.entries@.len(),
                lookup(self.entries@, key@) == lookup(
                    self.entries@.subrange(i as int, self.entries@.len() as int),
                    key@,
                ),
            decreases self.entries@.len() - i,
        {
            let rest = Ghost(self.entries@.subrange(i as int, self.entries@.len() as int));
            assert(rest@.subrange(1, rest@.len() as int) =~= self.entries@.subrange(
                i + 1,
                self.entries@.len() as int,
            ));
            assert(rest@[0] == self.entries@[i as int]);
            if bytes_equal(self.entries[i].0.as_slice(), key) {
                return Some(&self.entries[i].1);
            }
            i = i + 1;
        }
        None
    }

    /// The byte string stored under `key`, if the value there is one.
    pub fn get_bytes(&self, key: &[u8]) -> (r: Option<&Vec<u8>>)
        ensures
            r matches Some(b) ==> bytes_at(*self, key@) == Some(b@),
            r is None ==> bytes_at(*self, key@) is None,
    {
        match self.get(key) {
            Some(Bencode::Bytes(b)) => Some(b),
            _ => None,
        }
    }

    /// Whether the value under `key` is a list holding the byte string `word`.
    pub fn list_contains(&self, key: &[u8], word: &[u8]) -> (r: bool)
        ensures
            r == list_has(*self, key@, word@),
    {
        let found = self.get(key);
        match found {
            Some(Bencode::List(items)) => {
                assert(lookup(self.entries@, key@) == Some(Bencode::List(*items)));
                let mut i: usize = 0;
                while i < items.len()
                    invariant
                        i <= items@.len(),
                        lookup(self.entries@, key@) == Some(Bencode::List(*items)),
                        forall|k: int|
                            0 <= k < i ==> !((#[trigger] items@[k]) is Bytes && items@[k]->Bytes_0@
                                == word@),
                    decreases items@.len() - i,
                {
                    match &items[i] {
                        Bencode::Bytes(b) => {
                            if bytes_equal(b.as_slice(), word) {
                                assert(items@[i as int] is Bytes && items@[i as int]->Bytes_0@
                                    == word@);
                                return true;
                            }
                        },
                        _ => {},
                    }
                    i = i + 1;
                }
                false
            },
            _ => false,
        }
    }
}

} // verus!
