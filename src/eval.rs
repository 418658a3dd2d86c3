//! Folding the response frames of one evaluation into a single result.
use vstd::prelude::*;
use crate::codec::{lossy_text, utf8_lossy};
use crate::error::NreplError;
use crate::message::{bytes_at, list_has, Message};
use crate::words::{word, word_bytes, Word};

verus! {

/// The aggregate of one evaluation.
#[derive(Clone, Debug, PartialEq, Eq)]
pub struct EvalResult {
    /// The last value reported, if any.
    pub value: Option<String>,
    /// Everything written to standard output, in arrival order.
    pub output: String,
    /// Everything written to standard error, in arrival order.
    pub error: String,
    /// Whether any frame reported the status `error`.
    pub has_error: bool,
}

/// An evaluation result in mathematical terms.
pub struct EvalView {
    pub value: Option<Seq<char>>,
    pub output: Seq<char>,
    pub error: Seq<char>,
    pub has_error: bool,
}

impl View for EvalResult {
    type V = EvalView;

    open spec fn view(&self) -> EvalView {
        EvalView {
            value: match self.value {
                Some(s) => Some(s@),
                None => None,
            },
            output: self.output@,
            error: self.error@,
            has_error: self.has_error,
        }
    }
}

pub open spec fn empty_eval() -> EvalView {
    EvalView { value: None, output: Seq::empty(), error: Seq::empty(), has_error: false }
}

/// A frame belongs to request `id` unless it names another id.
pub open spec fn belongs(id: Seq<u8>, m: Message) -> bool {
    match bytes_at(m, word_bytes(Word::Id)) {
        Some(b) => b == id,
        None => true,
    }
}

/// The text that a frame of request `id` adds under `key`.
pub open spec fn piece(id: Seq<u8>, m: Message, key: Word) -> Seq<char> {
    match bytes_at(m, word_bytes(key)) {
        Some(b) => if belongs(id, m) {
            utf8_lossy(b)
        } else {
            Seq::empty()
        },
        None => Seq::empty(),
    }
}

/// The frame belongs to request `id` and its status list holds `word`.
pub open spec fn status_of(id: Seq<u8>, m: Message, w: Word) -> bool {
    belongs(id, m) && list_has(m, word_bytes(Word::Status), word_bytes(w))
}

/// The result after taking in frame `m` of request `id`: a frame of another
/// request changes nothing; otherwise a value replaces the last one, output
/// and error text are appended, and a status `error` sets the flag for good.
pub open spec fn absorb_spec(v: EvalView, id: Seq<u8>, m: Message) -> EvalView {
    if !belongs(id, m) {
        v
    } else {
        EvalView {
            value: match bytes_at(m, word_bytes(Word::Value)) {
                Some(b) => Some(utf8_lossy(b)),
                None => v.value,
            },
            output: v.output + piece(id, m, Word::Stdout),
            error: v.error + piece(id, m, Word::Stderr),
            has_error: v.has_error || status_of(id, m, Word::Error),
        }
    }
}

/// The result after the first `n` frames.
pub open spec fn state_after(id: Seq<u8>, frames: Seq<Message>, n: int) -> EvalView
    decreases n,
{
    if n <= 0 {
        empty_eval()
    } else {
        absorb_spec(state_after(id, frames, n - 1), id, frames[n - 1])
    }
}

/// The index of the first frame at or after `i` that ends request `id`, or
/// the number of frames if none does.
pub open spec fn first_done_from(id: Seq<u8>, frames: Seq<Message>, i: int) -> int
    decreases frames.len() - i,
{
    if i < 0 || i >= frames.len() {
        frames.len() as int
    } else if status_of(id, frames[i], Word::Done) {
        i
    } else {
        first_done_from(id, frames, i + 1)
    }
}

/// The result of an exchange that received `frames`: the aggregate up to and
/// including the first frame with status `done`, if one came.
pub open spec fn eval_outcome(id: Seq<u8>, frames: Seq<Message>) -> Option<EvalView> {
    let d = first_done_from(id, frames, 0);
    if d < frames.len() {
        Some(state_after(id, frames, d + 1))
    } else {
        None
    }
}

/// The text under `key` that frames `m..n` of request `id` carry, in order.
pub open spec fn text_between(id: Seq<u8>, frames: Seq<Message>, key: Word, m: int, n: int) -> Seq<
    char,
>
    decreases n - m,
{
    if n <= m {
        Seq::empty()
    } else {
        text_between(id, frames, key, m, n - 1) + piece(id, frames[n - 1], key)
    }
}

proof fn lemma_error_flag_after(id: Seq<u8>, frames: Seq<Message>, n: int)
    requires
        0 <= n <= frames.len(),
    ensures
        state_after(id, frames, n).has_error == exists|k: int|
            0 <= k < n && #[trigger] status_of(id, frames[k], Word::Error),
    decreases n,
{
    if n > 0 {
        lemma_error_flag_after(id, frames, n - 1);
        if status_of(id, frames[n - 1], Word::Error) {
            assert(status_of(id, frames[n - 1], Word::Error));
        }
    }
}

proof fn lemma_first_done(id: Seq<u8>, frames: Seq<Message>, i: int)
    requires
        0 <= i <= frames.len(),
    ensures
        i <= first_done_from(id, frames, i) <= frames.len(),
        first_done_from(id, frames, i) < frames.len() ==> status_of(
            id,
            frames[first_done_from(id, frames, i)],
            Word::Done,
        ),
        forall|k: int|
            i <= k < first_done_from(id, frames, i) ==> !#[trigger] status_of(
                id,
                frames[k],
                Word::Done,
            ),
    decreases frames.len() - i,
{
    if i < frames.len() && !status_of(id, frames[i], Word::Done) {
        lemma_first_done(id, frames, i + 1);
    }
}

/// An exchange reports an error exactly when some frame of its request, up
/// to and including the first one with status `done`, had status `error`;
/// frames after that one are never taken in.
pub proof fn lemma_error_flag(id: Seq<u8>, frames: Seq<Message>)
    requires
        eval_outcome(id, frames) is Some,
    ensures
        ({
            let d = first_done_from(id, frames, 0);
            &&& 0 <= d < frames.len()
            &&& status_of(id, frames[d], Word::Done)
            &&& forall|k: int| 0 <= k < d ==> !#[trigger] status_of(id, frames[k], Word::Done)
            &&& eval_outcome(id, frames)->Some_0.has_error == exists|k: int|
                0 <= k <= d && #[trigger] status_of(id, frames[k], Word::Error)
        }),
{
    lemma_first_done(id, frames, 0);
    let d = first_done_from(id, frames, 0);
    lemma_error_flag_after(id, frames, d + 1);
    assert forall|k: int| 0 <= k <= d && #[trigger] status_of(id, frames[k], Word::Error) implies 0
        <= k < d + 1 && status_of(id, frames[k], Word::Error) by {}
}

/// Output and error text only grow: after more frames, each is the earlier
/// text followed by what the later frames of the request carried, in
/// arrival order.
pub proof fn lemma_text_appends(id: Seq<u8>, frames: Seq<Message>, m: int, n: int)
    requires
        0 <= m <= n <= frames.len(),
    ensures
        state_after(id, frames, n).output == state_after(id, frames, m).output + text_between(
            id,
            frames,
            Word::Stdout,
            m,
            n,
        ),
        state_after(id, frames, n).error == state_after(id, frames, m).error + text_between(
            id,
            frames,
            Word::Stderr,
            m,
            n,
        ),
    decreases n - m,
{
    if n > m {
        lemma_text_appends(id, frames, m, n - 1);
        let f = frames[n - 1];
        if !belongs(id, f) {
            assert(piece(id, f, Word::Stdout) =~= Seq::<char>::empty());
            assert(piece(id, f, Word::Stderr) =~= Seq::<char>::empty());
        }
        assert(state_after(id, frames, n).output =~= state_after(id, frames, m).output
            + text_between(id, frames, Word::Stdout, m, n));
        assert(state_after(id, frames, n).error =~= state_after(id, frames, m).error
            + text_between(id, frames, Word::Stderr, m, n));
    } else {
        assert(state_after(id, frames, m).output =~= state_after(id, frames, m).output
            + text_between(id, frames, Word::Stdout, m, n));
        assert(state_after(id, frames, m).error =~= state_after(id, frames, m).error
            + text_between(id, frames, Word::Stderr, m, n));
    }
}

/// `t` is `s` with the frame `g` inserted at position `i`.
pub open spec fn inserted_at(t: Seq<Message>, s: Seq<Message>, i: int, g: Message) -> bool {
    &&& 0 <= i <= s.len()
    &&& t.len() == s.len() + 1
    &&& t[i] == g
    &&& forall|k: int| 0 <= k < i ==> #[trigger] t[k] == s[k]
    &&& forall|k: int| i < k < t.len() ==> #[trigger] t[k] == s[k - 1]
}

proof fn lemma_state_skips_stranger(
    id: Seq<u8>,
    t: Seq<Message>,
    s: Seq<Message>,
    i: int,
    g: Message,
    n: int,
)
    requires
        inserted_at(t, s, i, g),
        !belongs(id, g),
        0 <= n <= t.len(),
    ensures
        n <= i ==> state_after(id, t, n) == state_after(id, s, n),
        n > i ==> state_after(id, t, n) == state_after(id, s, n - 1),
    decreases n,
{
    if n > 0 {
        lemma_state_skips_stranger(id, t, s, i, g, n - 1);
        if n - 1 > i {
            assert(t[n - 1] == s[n - 2]);
        } else if n - 1 < i {
            assert(t[n - 1] == s[n - 1]);
        }
    }
}

proof fn lemma_done_skips_stranger(
    id: Seq<u8>,
    t: Seq<Message>,
    s: Seq<Message>,
    i: int,
    g: Message,
    j: int,
)
    requires
        inserted_at(t, s, i, g),
        !belongs(id, g),
        0 <= j <= t.len(),
    ensures
        j <= i ==> first_done_from(id, t, j) == if first_done_from(id, s, j) < i {
            first_done_from(id, s, j)
        } else {
            first_done_from(id, s, j) + 1
        },
        j > i ==> first_done_from(id, t, j) == first_done_from(id, s, j - 1) + 1,
    decreases t.len() - j,
{
    if j < t.len() {
        lemma_done_skips_stranger(id, t, s, i, g, j + 1);
        if j <= s.len() {
            lemma_first_done(id, s, j);
        }
        if j < i {
            assert(t[j] == s[j]);
        } else if j > i {
            assert(t[j] == s[j - 1]);
        }
    }
}

/// A frame of another request, inserted anywhere among an exchange's frames,
/// is discarded: the exchange ends with the same result, or with none
/// exactly when it did without that frame.
pub proof fn lemma_stranger_frame_ignored(
    id: Seq<u8>,
    t: Seq<Message>,
    s: Seq<Message>,
    i: int,
    g: Message,
)
    requires
        inserted_at(t, s, i, g),
        !belongs(id, g),
    ensures
        eval_outcome(id, t) == eval_outcome(id, s),
{
    lemma_done_skips_stranger(id, t, s, i, g, 0);
    lemma_first_done(id, s, 0);
    let d = first_done_from(id, s, 0);
    if d < s.len() {
        if d < i {
            lemma_state_skips_stranger(id, t, s, i, g, d + 1);
        } else {
            lemma_state_skips_stranger(id, t, s, i, g, d + 2);
        }
    }
}

fn append_text(s: &mut String, b: &[u8])
    ensures
        final(s)@ == old(s)@ + utf8_lossy(b@),
{
    let t = lossy_text(b);
    s.append(t.as_str());
}

impl EvalResult {
    /// A result with no value, no text and no error.
    pub fn new() -> (r: EvalResult)
        ensures
            r@ == empty_eval(),
    {
        EvalResult { value: None, output: String::new(), error: String::new(), has_error: false }
    }

    /// Takes in one frame of the exchange for request `id`, and tells whether
    /// it ends the exchange.
    pub fn absorb(&mut self, id: &[u8], frame: &Message) -> (done: bool)
        ensures
            final(self)@ == absorb_spec(old(self)@, id@, *frame),
            done == status_of(id@, *frame, Word::Done),
    {
        let id_key = word(Word::Id);
        match frame.get_bytes(id_key.as_slice()) {
            Some(b) => {
                if !crate::message::bytes_equal(b.as_slice(), id) {
                    return false;
                }
            },
            None => {},
        }
        let value_key = word(Word::Value);
        match frame.get_bytes(value_key.as_slice()) {
            Some(b) => {
                self.value = Some(lossy_text(b.as_slice()));
            },
            None => {},
        }
        let out_key = word(Word::Stdout);
        match frame.get_bytes(out_key.as_slice()) {
            Some(b) => append_text(&mut self.output, b.as_slice()),
            None => {},
        }
        let err_key = word(Word::Stderr);
        match frame.get_bytes(err_key.as_slice()) {
            Some(b) => append_text(&mut self.error, b.as_slice()),
            None => {},
        }
        let status_key = word(Word::Status);
        let error_word = word(Word::Error);
        let done_word = word(Word::Done);
        if frame.list_contains(status_key.as_slice(), error_word.as_slice()) {
            self.has_error = true;
        }
        frame.list_contains(status_key.as_slice(), done_word.as_slice())
    }
}

impl Default for EvalResult {
    fn default() -> (r: EvalResult)
        ensures
            r@ == empty_eval(),
    {
        EvalResult::new()
    }
}

/// Whether an exchange may wait for another frame: once more time than the
/// limit has passed since its request was sent, it fails with `Timeout`, and
/// what it had gathered is dropped.
pub fn exchange_deadline(elapsed_millis: u128, limit_millis: u128) -> (r: Result<(), NreplError>)
    ensures
        r == if elapsed_millis > limit_millis {
            Err::<(), NreplError>(NreplError::Timeout)
        } else {
            Ok(())
        },
{
    if elapsed_millis > limit_millis {
        Err(NreplError::Timeout)
    } else {
        Ok(())
    }
}

/// Aggregates the frames that an exchange for request `id` received, in
/// order; `None` when no frame of it had status `done`.
pub fn aggregate(id: &[u8], frames: &Vec<Message>) -> (r: Option<EvalResult>)
    ensures
        match eval_outcome(id@, frames@) {
            Some(v) => r matches Some(x) && x@ == v,
            None => r is None,
        },
{
    let mut r = EvalResult::new();
    let mut i: usize = 0;
    while i < frames.len()
        invariant
            i <= frames@.len(),
            r@ == state_after(id@, frames@, i as int),
            first_done_from(id@, frames@, 0) == first_done_from(id@, frames@, i as int),
        decreases frames@.len() - i,
    {
        let done = r.absorb(id, &frames[i]);
        i = i + 1;
        if done {
            return Some(r);
        }
    }
    None
}

} // verus!
