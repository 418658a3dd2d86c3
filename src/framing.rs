//! Locating the end of one complete bencoded value at the front of a buffer.
//!
//! The scanner reports exactly how many bytes the leading value occupies, or
//! whether the bytes present end before the value does (more data may still
//! complete it), or whether they can never form a value.
use vstd::prelude::*;

verus! {

/// The outcome of scanning a buffer, in mathematical terms.
pub enum ScanOutcome {
    /// The leading value occupies exactly this many bytes.
    Complete(int),
    /// The bytes end before the leading value does.
    Incomplete,
    /// The bytes present can never begin a valid value.
    Malformed,
}

/// One lexical token of bencode, as seen at a position.
pub enum Token {
    /// `l` or `d`: a list or dictionary begins.
    Open,
    /// `e`: the innermost open list or dictionary ends.
    Close,
    /// An integer or byte string that ends just before the given position.
    Atom(int),
    /// The token runs past the end of the bytes present.
    Unfinished,
    /// No token can begin here.
    Invalid,
}

pub open spec fn is_digit(b: u8) -> bool {
    48 <= b && b <= 57
}

/// The first index at or after `i` whose byte is not a digit (or the length).
pub open spec fn skip_digits(s: Seq<u8>, i: int) -> int
    decreases s.len() - i,
{
    if 0 <= i < s.len() && is_digit(s[i]) {
        skip_digits(s, i + 1)
    } else {
        i
    }
}

/// The first index at or after `i` whose byte is neither a digit nor `-`.
pub open spec fn skip_int_body(s: Seq<u8>, i: int) -> int
    decreases s.len() - i,
{
    if 0 <= i < s.len() && (is_digit(s[i]) || s[i] == 45u8) {
        skip_int_body(s, i + 1)
    } else {
        i
    }
}

/// The decimal number written by the digits `s[from..to]`.
pub open spec fn decimal(s: Seq<u8>, from: int, to: int) -> nat
    decreases to - from,
{
    if to <= from {
        0
    } else {
        decimal(s, from, to - 1) * 10 + (s[to - 1] - 48) as nat
    }
}

/// The token that begins at position `p` of `s`.
pub open spec fn token_at(s: Seq<u8>, p: int) -> Token {
    let b = s[p];
    if b == 108u8 || b == 100u8 {
        Token::Open
    } else if b == 101u8 {
        Token::Close
    } else if b == 105u8 {
        let j = skip_int_body(s, p + 1);
        if j >= s.len() {
            Token::Unfinished
        } else if s[j] == 101u8 && j > p + 1 {
            Token::Atom(j + 1)
        } else {
            Token::Invalid
        }
    } else if is_digit(b) {
        let j = skip_digits(s, p);
        if j >= s.len() {
            Token::Unfinished
        } else if s[j] != 58u8 {
            Token::Invalid
        } else if j + 1 + decimal(s, p, j) > s.len() {
            Token::Unfinished
        } else {
            Token::Atom(j + 1 + decimal(s, p, j))
        }
    } else {
        Token::Invalid
    }
}

/// Scanning from position `p` with `depth` lists or dictionaries open.
pub open spec fn scan_from(s: Seq<u8>, p: int, depth: nat) -> ScanOutcome
    decreases s.len() - p,
{
    if p < 0 || p >= s.len() {
        ScanOutcome::Incomplete
    } else {
        match token_at(s, p) {
            Token::Unfinished => ScanOutcome::Incomplete,
            Token::Invalid => ScanOutcome::Malformed,
            Token::Open => scan_from(s, p + 1, depth + 1),
            Token::Close => if depth == 0 {
                ScanOutcome::Malformed
            } else if depth == 1 {
                ScanOutcome::Complete(p + 1)
            } else {
                scan_from(s, p + 1, (depth - 1) as nat)
            },
            Token::Atom(end) => if !(p < end && end <= s.len()) {
                ScanOutcome::Malformed
            } else if depth == 0 {
                ScanOutcome::Complete(end)
            } else {
                scan_from(s, end, depth)
            },
        }
    }
}

/// What the leading value of `s` is, as far as the bytes present tell.
pub open spec fn frame_scan(s: Seq<u8>) -> ScanOutcome {
    scan_from(s, 0, 0)
}

proof fn lemma_skip_digits_extend(s: Seq<u8>, t: Seq<u8>, i: int)
    requires
        0 <= i,
        skip_digits(s, i) < s.len(),
    ensures
        skip_digits(s + t, i) == skip_digits(s, i),
        skip_digits(s, i) >= i,
    decreases s.len() - i,
{
    if i < s.len() && is_digit(s[i]) {
        lemma_skip_digits_extend(s, t, i + 1);
    }
}

proof fn lemma_skip_int_body_extend(s: Seq<u8>, t: Seq<u8>, i: int)
    requires
        0 <= i,
        skip_int_body(s, i) < s.len(),
    ensures
        skip_int_body(s + t, i) == skip_int_body(s, i),
        skip_int_body(s, i) >= i,
    decreases s.len() - i,
{
    if i < s.len() && (is_digit(s[i]) || s[i] == 45u8) {
        lemma_skip_int_body_extend(s, t, i + 1);
    }
}

proof fn lemma_decimal_extend(s: Seq<u8>, t: Seq<u8>, from: int, to: int)
    requires
        0 <= from,
        to <= s.len(),
    ensures
        decimal(s + t, from, to) == decimal(s, from, to),
    decreases to - from,
{
    if from < to {
        lemma_decimal_extend(s, t, from, to - 1);
    }
}

proof fn lemma_token_extend(s: Seq<u8>, t: Seq<u8>, p: int)
    requires
        0 <= p < s.len(),
        !(token_at(s, p) is Unfinished),
    ensures
        token_at(s + t, p) == token_at(s, p),
{
    let b = s[p];
    assert((s + t)[p] == b);
    if b == 105u8 && skip_int_body(s, p + 1) < s.len() {
        lemma_skip_int_body_extend(s, t, p + 1);
        let j = skip_int_body(s, p + 1);
        assert((s + t)[j] == s[j]);
    } else if b != 105u8 && is_digit(b) && skip_digits(s, p) < s.len() {
        lemma_skip_digits_extend(s, t, p);
        let j = skip_digits(s, p);
        assert((s + t)[j] == s[j]);
        lemma_decimal_extend(s, t, p, j);
    }
}

proof fn lemma_scan_extend(s: Seq<u8>, t: Seq<u8>, p: int, depth: nat)
    requires
        scan_from(s, p, depth) is Complete,
    ensures
        scan_from(s + t, p, depth) == scan_from(s, p, depth),
    decreases s.len() - p,
{
    lemma_token_extend(s, t, p);
    match token_at(s, p) {
        Token::Open => lemma_scan_extend(s, t, p + 1, depth + 1),
        Token::Close => if depth > 1 {
            lemma_scan_extend(s, t, p + 1, (depth - 1) as nat);
        },
        Token::Atom(end) => if depth > 0 {
            lemma_scan_extend(s, t, end, depth);
        },
        _ => {},
    }
}

/// A complete value at the front of a buffer stays complete, with the same
/// length, whatever bytes arrive after it.
pub proof fn lemma_complete_frame_is_stable(s: Seq<u8>, t: Seq<u8>)
    requires
        frame_scan(s) is Complete,
    ensures
        frame_scan(s + t) == frame_scan(s),
{
    lemma_scan_extend(s, t, 0, 0);
}

/// The executable result of a scan.
#[derive(Clone, Copy, Debug, PartialEq, Eq)]
pub enum FrameScan {
    Complete(usize),
    Incomplete,
    Malformed,
}

impl FrameScan {
    pub open spec fn outcome(self) -> ScanOutcome {
        match self {
            FrameScan::Complete(n) => ScanOutcome::Complete(n as int),
            FrameScan::Incomplete => ScanOutcome::Incomplete,
            FrameScan::Malformed => ScanOutcome::Malformed,
        }
    }
}

enum Tok {
    Open,
    Close,
    Atom(usize),
    Unfinished,
    Invalid,
}

spec fn tok_is(t: Tok, u: Token) -> bool {
    match t {
        Tok::Open => u is Open,
        Tok::Close => u is Close,
        Tok::Atom(e) => u == Token::Atom(e as int),
        Tok::Unfinished => u is Unfinished,
        Tok::Invalid => u is Invalid,
    }
}

fn is_digit_byte(b: u8) -> (r: bool)
    ensures
        r == is_digit(b),
{
    48 <= b && b <= 57
}

fn next_token(buf: &[u8], p: usize) -> (r: Tok)
    requires
        p < buf@.len(),
    ensures
        tok_is(r, token_at(buf@, p as int)),
{
    let n = buf.len();
    let b = buf[p];
    if b == 108u8 || b == 100u8 {
        Tok::Open
    } else if b == 101u8 {
        Tok::Close
    } else if b == 105u8 {
        let mut q: usize = p + 1;
        while q < n && (is_digit_byte(buf[q]) || buf[q] == 45u8)
            invariant
                p + 1 <= q <= n,
                n == buf@.len(),
                skip_int_body(buf@, p + 1) == skip_int_body(buf@, q as int),
            decreases n - q,
        {
            q = q + 1;
        }
        if q >= n {
            Tok::Unfinished
        } else if buf[q] == 101u8 && q > p + 1 {
            Tok::Atom(q + 1)
        } else {
            Tok::Invalid
        }
    } else if is_digit_byte(b) {
        let mut q: usize = p;
        // the length read so far, capped at the buffer's length
        let mut v: u128 = 0;
        while q < n && is_digit_byte(buf[q])
            invariant
                p <= q <= n,
                n == buf@.len(),
                skip_digits(buf@, p as int) == skip_digits(buf@, q as int),
                v as int == if decimal(buf@, p as int, q as int) < n {
                    decimal(buf@, p as int, q as int) as int
                } else {
                    n as int
                },
            decreases n - q,
        {
            let d = (buf[q] - 48u8) as u128;
            assert(decimal(buf@, p as int, q + 1) == decimal(buf@, p as int, q as int) * 10 + d);
            let w = v * 10 + d;
            if w < n as u128 {
                v = w;
            } else {
                v = n as u128;
            }
            q = q + 1;
        }
        if q >= n {
            Tok::Unfinished
        } else if buf[q] != 58u8 {
            Tok::Invalid
        } else if v > (n - q - 1) as u128 {
            Tok::Unfinished
        } else {
            Tok::Atom(q + 1 + v as usize)
        }
    } else {
        Tok::Invalid
    }
}

/// Scans the front of `buf` for one complete bencoded value.
pub fn scan_frame(buf: &[u8]) -> (r: FrameScan)
    ensures
        r.outcome() == frame_scan(buf@),
        r matches FrameScan::Complete(k) ==> 0 < k <= buf@.len(),
{
    let n = buf.len();
    let mut p: usize = 0;
    let mut depth: usize = 0;
    while p < n
        invariant
            p <= n,
            n == buf@.len(),
            depth <= p,
            frame_scan(buf@) == scan_from(buf@, p as int, depth as nat),
        decreases n - p,
    {
        match next_token(buf, p) {
            Tok::Unfinished => {
                return FrameScan::Incomplete;
            },
            Tok::Invalid => {
                return FrameScan::Malformed;
            },
            Tok::Open => {
                depth = depth + 1;
                p = p + 1;
            },
            Tok::Close => {
                if depth == 0 {
                    return FrameScan::Malformed;
                } else if depth == 1 {
                    return FrameScan::Complete(p + 1);
                }
                depth = depth - 1;
                p = p + 1;
            },
            Tok::Atom(end) => {
                if !(p < end && end <= n) {
                    return FrameScan::Malformed;
                } else if depth == 0 {
                    return FrameScan::Complete(end);
                }
                p = end;
            },
        }
    }
    FrameScan::Incomplete
}

} // verus!
