//! A cursor over the bytes of a source text.

use vstd::prelude::*;
use vstd::slice::slice_subrange;
use vstd::utf8::{encode_utf8, encode_utf8_valid_utf8, valid_utf8};

verus! {

/// The bytes of a text and a position among them. The position only moves
/// forward, and nothing keeps it inside the text.
pub struct InputStream {
    input_bytes: Vec<u8>,
    current_idx: usize,
}

/// What an [`InputStream`] is in contracts.
pub struct Cursor {
    pub bytes: Seq<u8>,
    pub position: int,
}

impl Cursor {
    /// The byte behind the one at the position: the one that a peek shows.
    pub open spec fn next_byte(self) -> u8 {
        self.bytes[self.position + 1]
    }

    /// Whether a peek has a byte to show.
    pub open spec fn has_next(self) -> bool {
        self.position + 1 < self.bytes.len()
    }

    /// The `len` bytes from the position on.
    pub open spec fn ahead(self, len: int) -> Seq<u8> {
        self.bytes.subrange(self.position, self.position + len)
    }

    /// Whether `len` bytes from the position on end before the last byte of
    /// the text does.
    pub open spec fn reaches(self, len: int) -> bool {
        self.position + len < self.bytes.len()
    }

    /// Whether the bytes from the position on are those of `text`, with at
    /// least one more byte behind them.
    pub open spec fn starts_with(self, text: Seq<u8>) -> bool {
        self.reaches(text.len() as int) && self.ahead(text.len() as int) == text
    }

    /// Whether the position is behind the last byte.
    pub open spec fn at_end(self) -> bool {
        self.position >= self.bytes.len()
    }

    /// The cursor moved forward by `amount`.
    pub open spec fn moved(self, amount: int) -> Cursor {
        Cursor { bytes: self.bytes, position: self.position + amount }
    }
}

impl View for InputStream {
    type V = Cursor;

    closed spec fn view(&self) -> Cursor {
        Cursor { bytes: self.input_bytes@, position: self.current_idx as int }
    }
}

/// Wraps `core::str::from_utf8`. The bytes are handed back as text where
/// they are the UTF-8 encoding of one, and nothing is handed back where they
/// are not well-formed UTF-8.
#[verifier::external_body]
fn text_of<'a>(bytes: &'a [u8]) -> (text: Option<&'a str>)
    ensures
        match text {
            Some(s) => encode_utf8(s@) == bytes@,
            None => !valid_utf8(bytes@),
        },
{
    core::str::from_utf8(bytes).ok()
}

/// Whether the two slices hold the same bytes.
fn same_bytes(left: &[u8], right: &[u8]) -> (same: bool)
    ensures
        same == (left@ == right@),
{
    if left.len() != right.len() {
        return false;
    }
    let mut i: usize = 0;
    while i < left.len()
        invariant
            i <= left.len() == right.len(),
            left@.take(i as int) == right@.take(i as int),
        decreases left.len() - i,
    {
        if left[i] != right[i] {
            return false;
        }
        assert(left@.take(i + 1) == left@.take(i as int).push(left@[i as int]));
        assert(right@.take(i + 1) == right@.take(i as int).push(right@[i as int]));
        i = i + 1;
    }
    assert(left@.take(i as int) == left@);
    assert(right@.take(i as int) == right@);
    true
}

impl InputStream {
    /// A cursor at the start of the bytes of `input_string`.
    pub fn new(input_string: String) -> (stream: InputStream)
        ensures
            stream@ == (Cursor { bytes: encode_utf8(input_string@), position: 0 }),
    {
        InputStream { input_bytes: input_string.as_str().as_bytes_vec(), current_idx: 0 }
    }

    /// How many bytes the text has.
    pub fn len(&self) -> (len: usize)
        ensures
            len == self@.bytes.len(),
    {
        self.input_bytes.len()
    }

    /// Where the cursor stands: how many bytes lie before it.
    pub fn position(&self) -> (position: usize)
        ensures
            position == self@.position,
    {
        self.current_idx
    }

    /// The byte behind the one at the position. There must be one.
    pub fn peek_byte(&self) -> (byte: Option<u8>)
        requires
            self@.has_next(),
        ensures
            byte == Some(self@.next_byte()),
    {
        assert(self.current_idx + 1 < self.input_bytes.len());
        if !self.at_end() {
            Some(self.input_bytes[self.current_idx + 1])
        } else {
            None
        }
    }

    /// The `peek_len` bytes from the position on, as text: nothing where
    /// they do not end before the last byte of the text does, or are not
    /// well-formed UTF-8.
    pub fn peek_str(&self, peek_len: usize) -> (text: Option<&str>)
        requires
            self@.position + peek_len <= usize::MAX,
        ensures
            match text {
                Some(s) => self@.reaches(peek_len as int) && encode_utf8(s@) == self@.ahead(
                    peek_len as int,
                ),
                None => !self@.reaches(peek_len as int) || !valid_utf8(
                    self@.ahead(peek_len as int),
                ),
            },
    {
        if self.current_idx + peek_len >= self.input_bytes.len() {
            return None;
        }
        text_of(
            slice_subrange(
                self.input_bytes.as_slice(),
                self.current_idx,
                self.current_idx + peek_len,
            ),
        )
    }

    /// Whether the byte behind the one at the position is `byte_to_match`.
    /// There must be such a byte.
    pub fn matches_byte(&self, byte_to_match: u8) -> (matched: bool)
        requires
            self@.has_next(),
        ensures
            matched == (self@.next_byte() == byte_to_match),
    {
        match self.peek_byte() {
            Some(peeked_byte) => peeked_byte == byte_to_match,
            None => false,
        }
    }

    /// Whether the bytes from the position on are those of `str_to_match`,
    /// with at least one more byte behind them.
    pub fn matches_str(&self, str_to_match: &str) -> (matched: bool)
        requires
            self@.position + encode_utf8(str_to_match@).len() <= usize::MAX,
        ensures
            matched == self@.starts_with(encode_utf8(str_to_match@)),
    {
        proof {
            encode_utf8_valid_utf8(str_to_match@);
        }
        match self.peek_str(str_to_match.len()) {
            Some(peeked_str) => same_bytes(peeked_str.as_bytes(), str_to_match.as_bytes()),
            None => false,
        }
    }

    /// Moves the position forward by `advance_amt`, which must not take it
    /// beyond what a `usize` holds.
    pub fn advance(&mut self, advance_amt: usize)
        requires
            old(self)@.position + advance_amt <= usize::MAX,
        ensures
            final(self)@ == old(self)@.moved(advance_amt as int),
    {
        self.current_idx += advance_amt;
    }

    /// The byte behind the one at the position, if `f` accepts it. There
    /// must be such a byte. The position stays where it is.
    pub fn advance_byte_if(&mut self, f: impl Fn(u8) -> bool) -> (byte: Option<u8>)
        requires
            old(self)@.has_next(),
            call_requires(f, (old(self)@.next_byte(),)),
        ensures
            final(self)@ == old(self)@,
            match byte {
                Some(b) => b == old(self)@.next_byte() && call_ensures(f, (b,), true),
                None => call_ensures(f, (old(self)@.next_byte(),), false),
            },
    {
        match self.peek_byte() {
            Some(byte) => if f(byte) {
                Some(byte)
            } else {
                None
            },
            None => None,
        }
    }

    /// Moves the position behind the bytes of `str_to_match` if they are
    /// what comes from the position on, and says whether they are.
    pub fn advance_if_matches_str(&mut self, str_to_match: &str) -> (matched: bool)
        requires
            old(self)@.position + encode_utf8(str_to_match@).len() <= usize::MAX,
        ensures
            matched == old(self)@.starts_with(encode_utf8(str_to_match@)),
            final(self)@ == if matched {
                old(self)@.moved(encode_utf8(str_to_match@).len() as int)
            } else {
                old(self)@
            },
    {
        let matches_str = self.matches_str(str_to_match);
        if matches_str {
            self.advance(str_to_match.len());
        }
        matches_str
    }

    /// Whether the position is behind the last byte of the text. The text
    /// must have a byte.
    pub fn at_end(&self) -> (ended: bool)
        requires
            self@.bytes.len() > 0,
        ensures
            ended == self@.at_end(),
    {
        self.current_idx > self.input_bytes.len() - 1
    }
}

} // verus!
