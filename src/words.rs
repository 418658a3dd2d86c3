//! The fixed words of the protocol, as the bytes that travel on the wire.
use vstd::prelude::*;

verus! {

/// A key or fixed value that the client writes or looks for.
#[derive(Clone, Copy, Debug, PartialEq, Eq)]
pub enum Word {
    Op,
    Id,
    Code,
    Session,
    NewSession,
    Value,
    Stdout,
    Stderr,
    Status,
    Done,
    Error,
    Clone,
    Eval,
    Describe,
    Interrupt,
    Close,
}

/// The ASCII bytes of each word.
pub open spec fn word_bytes(w: Word) -> Seq<u8> {
    match w {
        Word::Op => seq![111u8, 112],
        Word::Id => seq![105u8, 100],
        Word::Code => seq![99u8, 111, 100, 101],
        Word::Session => seq![115u8, 101, 115, 115, 105, 111, 110],
        Word::NewSession => seq![110u8, 101, 119, 45, 115, 101, 115, 115, 105, 111, 110],
        Word::Value => seq![118u8, 97, 108, 117, 101],
        Word::Stdout => seq![111u8, 117, 116],
        Word::Stderr => seq![101u8, 114, 114],
        Word::Status => seq![115u8, 116, 97, 116, 117, 115],
        Word::Done => seq![100u8, 111, 110, 101],
        Word::Error => seq![101u8, 114, 114, 111, 114],
        Word::Clone => seq![99u8, 108, 111, 110, 101],
        Word::Eval => seq![101u8, 118, 97, 108],
        Word::Describe => seq![100u8, 101, 115, 99, 114, 105, 98, 101],
        Word::Interrupt => seq![105u8, 110, 116, 101, 114, 114, 117, 112, 116],
        Word::Close => seq![99u8, 108, 111, 115, 101],
    }
}

/// The bytes of a word.
pub fn word(w: Word) -> (r: Vec<u8>)
    ensures
        r@ == word_bytes(w),
{
    let r = match w {
        Word::Op => vec![111u8, 112],
        Word::Id => vec![105u8, 100],
        Word::Code => vec![99u8, 111, 100, 101],
        Word::Session => vec![115u8, 101, 115, 115, 105, 111, 110],
        Word::NewSession => vec![110u8, 101, 119, 45, 115, 101, 115, 115, 105, 111, 110],
        Word::Value => vec![118u8, 97, 108, 117, 101],
        Word::Stdout => vec![111u8, 117, 116],
        Word::Stderr => vec![101u8, 114, 114],
        Word::Status => vec![115u8, 116, 97, 116, 117, 115],
        Word::Done => vec![100u8, 111, 110, 101],
        Word::Error => vec![101u8, 114, 114, 111, 114],
        Word::Clone => vec![99u8, 108, 111, 110, 101],
        Word::Eval => vec![101u8, 118, 97, 108],
        Word::Describe => vec![100u8, 101, 115, 99, 114, 105, 98, 101],
        Word::Interrupt => vec![105u8, 110, 116, 101, 114, 114, 117, 112, 116],
        Word::Close => vec![99u8, 108, 111, 115, 101],
    };
    assert(r@ =~= word_bytes(w));
    r
}

} // verus!
