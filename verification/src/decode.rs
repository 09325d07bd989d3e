//! The streaming decoder: from a pull source of bytes to messages.
//!
//! What the decoder returns, and how many bytes it takes from the source, is defined on byte
//! sequences by the spec functions of this module. The executable decoder works on any
//! iterator of bytes and is proved to agree with them.

use vstd::prelude::*;
use vstd::std_specs::iter::IteratorSpec;
use vstd::utf8::*;
use crate::decimal::{parse_decimal, parse_i64};
use crate::resp::{views, Msg, MsgView, TAG_ARRAY, TAG_BULK, TAG_ERROR, TAG_INTEGER, TAG_SIMPLE};
use crate::text::{crlf, string_from_utf8, CR, LF};

verus! {

/// The deepest nesting of arrays that `Msg::decode` accepts.
pub const MAX_DEPTH: usize = 32;

/// Why a frame could not be decoded.
#[derive(Debug, PartialEq, Eq)]
pub enum DecodeError {
    /// A line-delimited field did not end in CRLF.
    MissingCrlf,
    /// A text field is not well-formed UTF-8.
    InvalidText,
    /// A length or an integer value is no decimal number of 64 bits.
    InvalidNumber,
    /// The payload of a bulk string is not followed by CRLF.
    BadTerminator,
    /// The source ended where element `index` of an array of `len` elements should start.
    TruncatedArray { index: i64, len: i64 },
    /// Element `index` of an array of `len` elements could not be decoded.
    Element { index: i64, len: i64, cause: Box<DecodeError> },
    /// The leading byte of a frame is no tag.
    UnexpectedByte(u8),
    /// Arrays are nested deeper than the decoder allows.
    DepthExceeded,
}

/// The position of the first carriage return in `s`, or the length of `s` if it holds none.
pub open spec fn first_cr(s: Seq<u8>) -> int
    decreases s.len(),
{
    if s.len() == 0 || s[0] == CR {
        0
    } else {
        1 + first_cr(s.drop_first())
    }
}

/// Reading one line-delimited field from `s`: its text, or why there is none, and the bytes
/// that are left.
///
/// The field runs up to the first carriage return. That byte and the one after it are taken
/// from the source, whatever the second one is; it has to be a line feed.
pub open spec fn decode_line(s: Seq<u8>) -> (Result<Seq<char>, DecodeError>, Seq<u8>) {
    let k = first_cr(s);
    let rest = s.skip(
        if k + 2 <= s.len() {
            k + 2
        } else {
            s.len() as int
        },
    );
    if k + 1 < s.len() && s[k + 1] == LF {
        if valid_utf8(s.take(k)) {
            (Ok(decode_utf8(s.take(k))), rest)
        } else {
            (Err(DecodeError::InvalidText), rest)
        }
    } else {
        (Err(DecodeError::MissingCrlf), rest)
    }
}

/// Reading one line-delimited decimal field from `s`.
pub open spec fn decode_number(s: Seq<u8>) -> (Result<i64, DecodeError>, Seq<u8>) {
    let (line, rest) = decode_line(s);
    match line {
        Err(e) => (Err(e), rest),
        Ok(text) => match parse_i64(encode_utf8(text)) {
            Some(v) => (Ok(v), rest),
            None => (Err(DecodeError::InvalidNumber), rest),
        },
    }
}

/// The first `n` bytes of `s`, or all of `s` where it is shorter.
pub open spec fn front(s: Seq<u8>, n: int) -> Seq<u8> {
    if n <= s.len() {
        s.take(n)
    } else {
        s
    }
}

/// What is left of `s` after its first `n` bytes.
pub open spec fn after(s: Seq<u8>, n: int) -> Seq<u8> {
    if n <= s.len() {
        s.skip(n)
    } else {
        Seq::empty()
    }
}

/// Reading the body of a bulk string from `s`, after its tag.
///
/// A negative length gives the absent value. Otherwise as many payload bytes as declared are
/// taken, then two more, which have to be CRLF; only then is the payload looked at as text.
pub open spec fn decode_bulk(s: Seq<u8>) -> (Result<MsgView, DecodeError>, Seq<u8>) {
    let (len, body) = decode_number(s);
    match len {
        Err(e) => (Err(e), body),
        Ok(n) => if n < 0 {
            (Ok(MsgView::Null), body)
        } else {
            let payload = front(body, n as int);
            let tail = after(body, n as int);
            let rest = after(tail, 2);
            if front(tail, 2) != crlf() {
                (Err(DecodeError::BadTerminator), rest)
            } else if !valid_utf8(payload) {
                (Err(DecodeError::InvalidText), rest)
            } else {
                (Ok(MsgView::BulkString(decode_utf8(payload))), rest)
            }
        },
    }
}

/// Reading the body of a frame from `s`, after its leading byte `tag`, with `depth` levels of
/// array nesting still allowed.
pub open spec fn decode_frame(tag: u8, s: Seq<u8>, depth: nat) -> (
    Result<MsgView, DecodeError>,
    Seq<u8>,
)
    decreases depth, 0nat,
{
    if tag == TAG_SIMPLE {
        let (line, rest) = decode_line(s);
        match line {
            Ok(text) => (Ok(MsgView::SimpleString(text)), rest),
            Err(e) => (Err(e), rest),
        }
    } else if tag == TAG_ERROR {
        let (line, rest) = decode_line(s);
        match line {
            Ok(text) => (Ok(MsgView::Error(text)), rest),
            Err(e) => (Err(e), rest),
        }
    } else if tag == TAG_INTEGER {
        let (number, rest) = decode_number(s);
        match number {
            Ok(value) => (Ok(MsgView::Integer(value)), rest),
            Err(e) => (Err(e), rest),
        }
    } else if tag == TAG_BULK {
        decode_bulk(s)
    } else if tag == TAG_ARRAY {
        let (len, body) = decode_number(s);
        match len {
            Err(e) => (Err(e), body),
            Ok(n) => if n < 0 {
                (Ok(MsgView::Null), body)
            } else if depth == 0 {
                (Err(DecodeError::DepthExceeded), body)
            } else {
                decode_items(body, Seq::empty(), n, (depth - 1) as nat)
            },
        }
    } else {
        (Err(DecodeError::UnexpectedByte(tag)), s)
    }
}

/// Reading the elements of an array of `len` elements from `s`, where the elements `done` have
/// been read already.
///
/// The first element that fails ends the array: with `TruncatedArray` where the source is at
/// its end, with `Element` around the element's own error otherwise. The elements behind it are
/// not looked for: what follows the failing element stays in the source.
pub open spec fn decode_items(s: Seq<u8>, done: Seq<MsgView>, len: i64, depth: nat) -> (
    Result<MsgView, DecodeError>,
    Seq<u8>,
)
    decreases depth, 2 + len - done.len(),
{
    if done.len() >= len {
        (Ok(MsgView::Array(done)), s)
    } else {
        let (next, rest) = decode_msg(s, depth);
        match next {
            None => (Err(DecodeError::TruncatedArray { index: done.len() as i64, len }), rest),
            Some(Err(e)) => (
                Err(DecodeError::Element { index: done.len() as i64, len, cause: Box::new(e) }),
                rest,
            ),
            Some(Ok(m)) => decode_items(rest, done.push(m), len, depth),
        }
    }
}

/// Reading one message from `s`, with `depth` levels of array nesting allowed: `None` where `s`
/// is empty, else the message or the error that the frame gives, and in each case the bytes
/// that are left.
pub open spec fn decode_msg(s: Seq<u8>, depth: nat) -> (
    Option<Result<MsgView, DecodeError>>,
    Seq<u8>,
)
    decreases depth, 1nat,
{
    if s.len() == 0 {
        (None, s)
    } else {
        let (frame, rest) = decode_frame(s[0], s.drop_first(), depth);
        (Some(frame), rest)
    }
}

/// A byte source that the decoder can read: an iterator that hands out the bytes of a finite
/// sequence one by one and then reports the end, and keeps reporting it. The bytes that it has
/// yet to hand out are its `remaining()`.
pub open spec fn is_byte_source<I: Iterator<Item = u8>>(bytes: &I) -> bool {
    bytes.obeys_prophetic_iter_laws() && bytes.decrease() is Some
}

/// The view of a text field that was read.
pub open spec fn line_view(r: Result<String, DecodeError>) -> Result<Seq<char>, DecodeError> {
    match r {
        Ok(text) => Ok(text@),
        Err(e) => Err(e),
    }
}

/// The view of a frame that was read.
pub open spec fn frame_view(r: Result<Msg, DecodeError>) -> Result<MsgView, DecodeError> {
    match r {
        Ok(msg) => Ok(msg@),
        Err(e) => Err(e),
    }
}

/// The view of what one call of the decoder returned.
pub open spec fn outcome_view(r: Option<Result<Msg, DecodeError>>) -> Option<
    Result<MsgView, DecodeError>,
> {
    match r {
        Some(frame) => Some(frame_view(frame)),
        None => None,
    }
}

/// `first_cr` is what its name says: a position in `s` or its end, with no carriage return
/// before it and, unless it is the end, one at it.
pub proof fn lemma_first_cr_is_first(s: Seq<u8>)
    ensures
        0 <= first_cr(s) <= s.len(),
        forall|j: int| 0 <= j < first_cr(s) ==> s[j] != CR,
        first_cr(s) < s.len() ==> s[first_cr(s)] == CR,
    decreases s.len(),
{
    if s.len() > 0 && s[0] != CR {
        let t = s.drop_first();
        lemma_first_cr_is_first(t);
        assert forall|j: int| 0 <= j < first_cr(s) implies s[j] != CR by {
            if j > 0 {
                assert(s[j] == t[j - 1]);
            }
        }
    }
}

/// The first carriage return of `s` is at `k`, where no byte before `k` is one and either `k`
/// is the end of `s` or the byte at `k` is one.
pub proof fn lemma_first_cr(s: Seq<u8>, k: int)
    requires
        0 <= k <= s.len(),
        forall|j: int| 0 <= j < k ==> s[j] != CR,
        k < s.len() ==> s[k] == CR,
    ensures
        first_cr(s) == k,
    decreases k,
{
    if k > 0 {
        let t = s.drop_first();
        assert forall|j: int| 0 <= j < k - 1 implies t[j] != CR by {
            assert(t[j] == s[j + 1]);
        }
        lemma_first_cr(t, k - 1);
    }
}

/// Takes up to `count` bytes from the source: fewer only where the source ends before.
pub fn take_bytes<I: Iterator<Item = u8>>(bytes: &mut I, count: u64) -> (taken: Vec<u8>)
    requires
        is_byte_source(old(bytes)),
    ensures
        is_byte_source(final(bytes)),
        taken@ == front((*old(bytes)).remaining(), count as int),
        (*final(bytes)).remaining() == after((*old(bytes)).remaining(), count as int),
{
    let ghost start = (*bytes).remaining();
    let mut taken: Vec<u8> = Vec::new();
    let mut n: u64 = 0;
    while n < count
        invariant
            is_byte_source(bytes),
            n <= count,
            taken@.len() == n,
            start == taken@ + (*bytes).remaining(),
        ensures
            is_byte_source(bytes),
            taken@ == front(start, count as int),
            (*bytes).remaining() == after(start, count as int),
        decreases count - n,
    {
        match bytes.next() {
            None => {
                assert(start =~= taken@);
                assert(after(start, count as int) =~= Seq::<u8>::empty());
                break ;
            },
            Some(b) => {
                taken.push(b);
                n = n + 1;
                assert(start =~= taken@ + (*bytes).remaining());
            },
        }
        proof {
            if n == count {
                assert(taken@ =~= start.take(count as int));
                assert((*bytes).remaining() =~= start.skip(count as int));
            }
        }
    }
    proof {
        if count == 0 {
            assert(taken@ =~= start.take(0));
            assert((*bytes).remaining() =~= start.skip(0));
        }
    }
    taken
}

/// Reads from the source up to and including the next CRLF and returns the text before it.
///
/// The bytes up to the first carriage return are the field. That byte and the next one are
/// taken from the source too. Where the next one is no line feed, or the source ends before,
/// the field has no end: `MissingCrlf`. A field that ends well and is not UTF-8 gives
/// `InvalidText`.
pub fn take_till_crlf<I: Iterator<Item = u8>>(bytes: &mut I) -> (r: Result<String, DecodeError>)
    requires
        is_byte_source(old(bytes)),
    ensures
        is_byte_source(final(bytes)),
        line_view(r) == decode_line((*old(bytes)).remaining()).0,
        (*final(bytes)).remaining() == decode_line((*old(bytes)).remaining()).1,
{
    let ghost start = (*bytes).remaining();
    let mut content: Vec<u8> = Vec::new();
    loop
        invariant_except_break
            start == content@ + (*bytes).remaining(),
        invariant
            is_byte_source(bytes),
            forall|j: int| 0 <= j < content@.len() ==> content@[j] != CR,
        ensures
            content@.len() <= start.len(),
            content@ == start.take(content@.len() as int),
            content@.len() < start.len() ==> start[content@.len() as int] == CR,
            (*bytes).remaining() == after(start, content@.len() as int + 1),
        decreases (*bytes).decrease()->0,
    {
        match bytes.next() {
            None => {
                assert(start =~= content@);
                assert(content@ =~= start.take(content@.len() as int));
                break ;
            },
            Some(b) => {
                if b == CR {
                    assert(content@ =~= start.take(content@.len() as int));
                    assert((*bytes).remaining() =~= start.skip(content@.len() as int + 1));
                    break ;
                }
                content.push(b);
                assert(start =~= content@ + (*bytes).remaining());
            },
        }
    }
    let ghost k = content@.len() as int;
    let ghost middle = (*bytes).remaining();
    proof {
        assert forall|j: int| 0 <= j < k implies start[j] != CR by {
            assert(start[j] == content@[j]);
        }
        lemma_first_cr(start, k);
    }
    let ended: bool = match bytes.next() {
        Some(b) => b == LF,
        None => false,
    };
    assert((*bytes).remaining() == decode_line(start).1) by {
        if k + 2 <= start.len() {
            assert(middle =~= start.skip(k + 1));
            assert((*bytes).remaining() =~= start.skip(k + 2));
        } else {
            assert((*bytes).remaining() =~= start.skip(start.len() as int));
        }
    }
    if !ended {
        return Err(DecodeError::MissingCrlf);
    }
    match string_from_utf8(content) {
        Some(text) => Ok(text),
        None => Err(DecodeError::InvalidText),
    }
}

/// Reads one line-delimited decimal field from the source.
pub fn take_number<I: Iterator<Item = u8>>(bytes: &mut I) -> (r: Result<i64, DecodeError>)
    requires
        is_byte_source(old(bytes)),
    ensures
        is_byte_source(final(bytes)),
        r == decode_number((*old(bytes)).remaining()).0,
        (*final(bytes)).remaining() == decode_number((*old(bytes)).remaining()).1,
{
    match take_till_crlf(bytes) {
        Err(e) => Err(e),
        Ok(text) => match parse_decimal(text.as_str().as_bytes()) {
            Some(value) => Ok(value),
            None => Err(DecodeError::InvalidNumber),
        },
    }
}

/// Reads the body of a bulk string from the source, after its tag.
pub fn take_bulk<I: Iterator<Item = u8>>(bytes: &mut I) -> (r: Result<Msg, DecodeError>)
    requires
        is_byte_source(old(bytes)),
    ensures
        is_byte_source(final(bytes)),
        frame_view(r) == decode_bulk((*old(bytes)).remaining()).0,
        (*final(bytes)).remaining() == decode_bulk((*old(bytes)).remaining()).1,
{
    let len: i64 = match take_number(bytes) {
        Ok(len) => len,
        Err(e) => {
            return Err(e);
        },
    };
    if len < 0 {
        return Ok(Msg::Null);
    }
    let payload: Vec<u8> = take_bytes(bytes, len as u64);
    let end: Vec<u8> = take_bytes(bytes, 2);
    if !(end.len() == 2 && end[0] == CR && end[1] == LF) {
        assert(end@ != crlf());
        return Err(DecodeError::BadTerminator);
    }
    assert(end@ =~= crlf());
    match string_from_utf8(payload) {
        Some(text) => Ok(Msg::BulkString(text)),
        None => Err(DecodeError::InvalidText),
    }
}

impl Msg {
    /// Reads the next message from the source.
    ///
    /// `None` where the source is at its end. Otherwise one frame is read, arrays with their
    /// elements, and the result is the message or the reason why the frame is none. Arrays may
    /// nest `MAX_DEPTH` deep. Either way the source is left behind the bytes that were read, so
    /// that the next call goes on from there.
    pub fn decode<I: Iterator<Item = u8>>(bytes: &mut I) -> (r: Option<Result<Msg, DecodeError>>)
        requires
            is_byte_source(old(bytes)),
        ensures
            is_byte_source(final(bytes)),
            outcome_view(r) == decode_msg((*old(bytes)).remaining(), MAX_DEPTH as nat).0,
            (*final(bytes)).remaining() == decode_msg(
                (*old(bytes)).remaining(),
                MAX_DEPTH as nat,
            ).1,
    {
        Self::decode_bounded(bytes, MAX_DEPTH)
    }

    /// Reads the next message from the source, with arrays nested at most `depth` deep.
    ///
    /// An array that would nest deeper ends the frame with `DepthExceeded`, after its header
    /// was read.
    pub fn decode_bounded<I: Iterator<Item = u8>>(bytes: &mut I, depth: usize) -> (r: Option<
        Result<Msg, DecodeError>,
    >)
        requires
            is_byte_source(old(bytes)),
        ensures
            is_byte_source(final(bytes)),
            outcome_view(r) == decode_msg((*old(bytes)).remaining(), depth as nat).0,
            (*final(bytes)).remaining() == decode_msg((*old(bytes)).remaining(), depth as nat).1,
        decreases depth, 1nat,
    {
        match bytes.next() {
            None => None,
            Some(first_byte) => Some(Self::decode_with_first_byte(first_byte, bytes, depth)),
        }
    }

    /// Reads the body of a frame from the source, after its leading byte.
    pub fn decode_with_first_byte<I: Iterator<Item = u8>>(
        first_byte: u8,
        bytes: &mut I,
        depth: usize,
    ) -> (r: Result<Msg, DecodeError>)
        requires
            is_byte_source(old(bytes)),
        ensures
            is_byte_source(final(bytes)),
            frame_view(r) == decode_frame(first_byte, (*old(bytes)).remaining(), depth as nat).0,
            (*final(bytes)).remaining() == decode_frame(
                first_byte,
                (*old(bytes)).remaining(),
                depth as nat,
            ).1,
        decreases depth, 0nat,
    {
        if first_byte == TAG_SIMPLE {
            match take_till_crlf(bytes) {
                Ok(text) => Ok(Msg::SimpleString(text)),
                Err(e) => Err(e),
            }
        } else if first_byte == TAG_ERROR {
            match take_till_crlf(bytes) {
                Ok(text) => Ok(Msg::Error(text)),
                Err(e) => Err(e),
            }
        } else if first_byte == TAG_INTEGER {
            match take_number(bytes) {
                Ok(value) => Ok(Msg::Integer(value)),
                Err(e) => Err(e),
            }
        } else if first_byte == TAG_BULK {
            take_bulk(bytes)
        } else if first_byte == TAG_ARRAY {
            let len: i64 = match take_number(bytes) {
                Ok(len) => len,
                Err(e) => {
                    return Err(e);
                },
            };
            if len < 0 {
                return Ok(Msg::Null);
            }
            if depth == 0 {
                return Err(DecodeError::DepthExceeded);
            }
            let ghost goal = decode_frame(first_byte, (*old(bytes)).remaining(), depth as nat);
            let mut parts: Vec<Msg> = Vec::new();
            let mut index: i64 = 0;
            assert(views(parts@) =~= Seq::<MsgView>::empty());
            while index < len
                invariant
                    is_byte_source(bytes),
                    depth > 0,
                    0 <= index <= len,
                    parts@.len() == index,
                    goal == decode_frame(first_byte, (*old(bytes)).remaining(), depth as nat),
                    goal == decode_items(
                        (*bytes).remaining(),
                        views(parts@),
                        len,
                        (depth - 1) as nat,
                    ),
                decreases len - index,
            {
                let ghost done = views(parts@);
                match Self::decode_bounded(bytes, depth - 1) {
                    Some(Ok(part)) => {
                        assert(views(parts@.push(part)) =~= done.push(part@));
                        parts.push(part);
                    },
                    Some(Err(e)) => {
                        return Err(DecodeError::Element { index, len, cause: Box::new(e) });
                    },
                    None => {
                        return Err(DecodeError::TruncatedArray { index, len });
                    },
                }
                index = index + 1;
            }
            Ok(Msg::Array(parts))
        } else {
            Err(DecodeError::UnexpectedByte(first_byte))
        }
    }

    /// A decoder that reads message after message from the source, with arrays nested at most
    /// `MAX_DEPTH` deep.
    pub fn decoder<I: Iterator<Item = u8>>(bytes: I) -> (decoder: Decoder<I>)
        ensures
            decoder.source() == bytes,
            decoder.max_depth() == MAX_DEPTH,
    {
        Decoder { source: bytes, max_depth: MAX_DEPTH }
    }
}

/// A decoder over a byte source: each call of `next` reads one message.
pub struct Decoder<I> {
    source: I,
    max_depth: usize,
}

impl<I: Iterator<Item = u8>> Decoder<I> {
    /// The byte source that the decoder reads from.
    pub closed spec fn source(self) -> I {
        self.source
    }

    /// The deepest nesting of arrays that the decoder accepts.
    pub closed spec fn max_depth(self) -> usize {
        self.max_depth
    }

    /// A decoder over the source that accepts arrays nested at most `max_depth` deep.
    pub fn with_max_depth(bytes: I, max_depth: usize) -> (decoder: Decoder<I>)
        ensures
            decoder.source() == bytes,
            decoder.max_depth() == max_depth,
    {
        Decoder { source: bytes, max_depth }
    }

    /// Reads the next message from the source; `None` where the source is at its end.
    ///
    /// The source is left behind the frame, so the next call reads the frame after it. This
    /// also holds after a frame that could not be decoded.
    pub fn next(&mut self) -> (r: Option<Result<Msg, DecodeError>>)
        requires
            is_byte_source(&old(self).source()),
        ensures
            is_byte_source(&final(self).source()),
            final(self).max_depth() == old(self).max_depth(),
            outcome_view(r) == decode_msg(
                old(self).source().remaining(),
                old(self).max_depth() as nat,
            ).0,
            final(self).source().remaining() == decode_msg(
                old(self).source().remaining(),
                old(self).max_depth() as nat,
            ).1,
    {
        Msg::decode_bounded(&mut self.source, self.max_depth)
    }
}

} // verus!
