//! The message model of the wire protocol.

use vstd::prelude::*;
use vstd::utf8::*;
use crate::decimal::{int_digits, nat_digits, push_int, push_nat};
use crate::text::{crlf, line_safe, CR, LF};

verus! {

/// Leading byte of a simple string: `+`.
pub const TAG_SIMPLE: u8 = 43;

/// Leading byte of an error: `-`.
pub const TAG_ERROR: u8 = 45;

/// Leading byte of an integer: `:`.
pub const TAG_INTEGER: u8 = 58;

/// Leading byte of a bulk string: `$`.
pub const TAG_BULK: u8 = 36;

/// Leading byte of an array: `*`.
pub const TAG_ARRAY: u8 = 42;

/// The kind of a message: which of the variants it is.
#[derive(Debug, Clone, Copy, PartialEq, Eq, Structural)]
pub enum Kind {
    SimpleString,
    BulkString,
    Error,
    Integer,
    Array,
    Null,
}

/// The name of a kind, as it appears in reports.
pub open spec fn name_of(kind: Kind) -> Seq<char> {
    match kind {
        Kind::SimpleString => "simple string"@,
        Kind::BulkString => "bulk string"@,
        Kind::Error => "error"@,
        Kind::Integer => "integer"@,
        Kind::Array => "array"@,
        Kind::Null => "null"@,
    }
}

impl Kind {
    /// The name of the kind.
    pub fn name(self) -> (name: &'static str)
        ensures
            name@ == name_of(self),
    {
        match self {
            Kind::SimpleString => "simple string",
            Kind::BulkString => "bulk string",
            Kind::Error => "error",
            Kind::Integer => "integer",
            Kind::Array => "array",
            Kind::Null => "null",
        }
    }
}

/// A message was asked for as one kind and is of another.
#[derive(Debug, Clone, Copy, PartialEq, Eq, Structural)]
pub struct TypeMismatch {
    /// The kind that was asked for.
    pub expected: Kind,
    /// The kind that the message has.
    pub actual: Kind,
}

/// The mismatch between the kind asked for and the kind found.
pub open spec fn mismatch(expected: Kind, actual: Kind) -> TypeMismatch {
    TypeMismatch { expected, actual }
}

/// A message of the protocol.
#[derive(Debug, PartialEq, Eq)]
pub enum Msg {
    /// Text on one line; it must hold neither a carriage return nor a line feed.
    SimpleString(String),
    /// Text with a declared length; it may hold any character.
    BulkString(String),
    /// An error text, under the same rule as `SimpleString`.
    Error(String),
    /// A signed integer of 64 bits.
    Integer(i64),
    /// A sequence of messages of any kind; arrays may nest.
    Array(Vec<Msg>),
    /// The absent value.
    Null,
}

/// The mathematical value of a message.
pub enum MsgView {
    SimpleString(Seq<char>),
    BulkString(Seq<char>),
    Error(Seq<char>),
    Integer(i64),
    Array(Seq<MsgView>),
    Null,
}

impl View for Msg {
    type V = MsgView;

    open spec fn view(&self) -> MsgView
        decreases self,
    {
        match self {
            Msg::SimpleString(s) => MsgView::SimpleString(s@),
            Msg::BulkString(s) => MsgView::BulkString(s@),
            Msg::Error(s) => MsgView::Error(s@),
            Msg::Integer(i) => MsgView::Integer(*i),
            Msg::Array(items) => MsgView::Array(views(items@)),
            Msg::Null => MsgView::Null,
        }
    }
}

/// The views of a sequence of messages, in order.
pub open spec fn views(items: Seq<Msg>) -> Seq<MsgView>
    decreases items,
{
    Seq::new(
        items.len(),
        |i: int|
            if 0 <= i < items.len() {
                items[i].view()
            } else {
                MsgView::Null
            },
    )
}

impl MsgView {
    /// The canonical bytes of the message on the wire.
    ///
    /// A line-delimited field is its tag, its text and CRLF. A bulk string is `$`, the number of
    /// payload bytes in decimal, CRLF, the payload and CRLF. An array is `*`, the number of
    /// elements in decimal, CRLF, and the elements' bytes one after the other. The absent value
    /// is the bulk string of length -1.
    pub open spec fn encode(self) -> Seq<u8>
        decreases self,
    {
        match self {
            MsgView::SimpleString(text) => seq![TAG_SIMPLE] + encode_utf8(text) + crlf(),
            MsgView::Error(text) => seq![TAG_ERROR] + encode_utf8(text) + crlf(),
            MsgView::Integer(value) => seq![TAG_INTEGER] + int_digits(value as int) + crlf(),
            MsgView::BulkString(text) => seq![TAG_BULK] + nat_digits(encode_utf8(text).len())
                + crlf() + encode_utf8(text) + crlf(),
            MsgView::Array(items) => seq![TAG_ARRAY] + nat_digits(items.len()) + crlf()
                + encodings(items).flatten(),
            MsgView::Null => seq![TAG_BULK] + int_digits(-1) + crlf(),
        }
    }

    /// The message can travel on the wire and come back as it was: the texts of simple strings
    /// and errors hold neither a carriage return nor a line feed, and the payload length of every
    /// bulk string and the element count of every array fit the signed 64-bit length field.
    pub open spec fn representable(self) -> bool
        decreases self,
    {
        match self {
            MsgView::SimpleString(text) => line_safe(text),
            MsgView::Error(text) => line_safe(text),
            MsgView::BulkString(text) => encode_utf8(text).len() <= i64::MAX,
            MsgView::Array(items) => items.len() <= i64::MAX && forall|i: int|
                0 <= i < items.len() ==> (#[trigger] items[i]).representable(),
            MsgView::Integer(_) => true,
            MsgView::Null => true,
        }
    }

    /// Arrays nest at most `depth` deep in the message: a message that is no array nests zero
    /// deep, an array one deeper than the deepest of its elements.
    pub open spec fn within_depth(self, depth: nat) -> bool
        decreases self,
    {
        match self {
            MsgView::Array(items) => depth > 0 && forall|i: int|
                0 <= i < items.len() ==> (#[trigger] items[i]).within_depth((depth - 1) as nat),
            _ => true,
        }
    }

    /// The kind of the message.
    pub open spec fn kind(self) -> Kind {
        match self {
            MsgView::SimpleString(_) => Kind::SimpleString,
            MsgView::BulkString(_) => Kind::BulkString,
            MsgView::Error(_) => Kind::Error,
            MsgView::Integer(_) => Kind::Integer,
            MsgView::Array(_) => Kind::Array,
            MsgView::Null => Kind::Null,
        }
    }
}

/// The canonical bytes of each message of a sequence, in order.
pub open spec fn encodings(items: Seq<MsgView>) -> Seq<Seq<u8>>
    decreases items,
{
    Seq::new(
        items.len(),
        |i: int|
            if 0 <= i < items.len() {
                items[i].encode()
            } else {
                Seq::empty()
            },
    )
}

impl Msg {
    /// The kind of the message.
    pub fn kind(&self) -> (kind: Kind)
        ensures
            kind == self@.kind(),
    {
        match self {
            Msg::SimpleString(_) => Kind::SimpleString,
            Msg::BulkString(_) => Kind::BulkString,
            Msg::Error(_) => Kind::Error,
            Msg::Integer(_) => Kind::Integer,
            Msg::Array(_) => Kind::Array,
            Msg::Null => Kind::Null,
        }
    }

    /// The name of the message's kind.
    pub fn kind_name(&self) -> (name: &'static str)
        ensures
            name@ == name_of(self@.kind()),
    {
        self.kind().name()
    }

    /// The text of a simple string; a mismatch for every other kind.
    pub fn as_simple_string(&self) -> (r: Result<&str, TypeMismatch>)
        ensures
            match r {
                Ok(s) => self@ == MsgView::SimpleString(s@),
                Err(e) => !(self@ is SimpleString) && e == mismatch(
                    Kind::SimpleString,
                    self@.kind(),
                ),
            },
    {
        match self {
            Msg::SimpleString(s) => Ok(s.as_str()),
            _ => Err(TypeMismatch { expected: Kind::SimpleString, actual: self.kind() }),
        }
    }

    /// The text of a bulk string; a mismatch for every other kind.
    pub fn as_bulk_string(&self) -> (r: Result<&str, TypeMismatch>)
        ensures
            match r {
                Ok(s) => self@ == MsgView::BulkString(s@),
                Err(e) => !(self@ is BulkString) && e == mismatch(
                    Kind::BulkString,
                    self@.kind(),
                ),
            },
    {
        match self {
            Msg::BulkString(s) => Ok(s.as_str()),
            _ => Err(TypeMismatch { expected: Kind::BulkString, actual: self.kind() }),
        }
    }

    /// The text of an error; a mismatch for every other kind.
    pub fn as_error(&self) -> (r: Result<&str, TypeMismatch>)
        ensures
            match r {
                Ok(s) => self@ == MsgView::Error(s@),
                Err(e) => !(self@ is Error) && e == mismatch(Kind::Error, self@.kind()),
            },
    {
        match self {
            Msg::Error(s) => Ok(s.as_str()),
            _ => Err(TypeMismatch { expected: Kind::Error, actual: self.kind() }),
        }
    }

    /// The value of an integer; a mismatch for every other kind.
    pub fn as_integer(&self) -> (r: Result<&i64, TypeMismatch>)
        ensures
            match r {
                Ok(i) => self@ == MsgView::Integer(*i),
                Err(e) => !(self@ is Integer) && e == mismatch(Kind::Integer, self@.kind()),
            },
    {
        match self {
            Msg::Integer(i) => Ok(i),
            _ => Err(TypeMismatch { expected: Kind::Integer, actual: self.kind() }),
        }
    }

    /// The elements of an array; a mismatch for every other kind.
    pub fn as_array(&self) -> (r: Result<&[Msg], TypeMismatch>)
        ensures
            match r {
                Ok(slice) => self@ == MsgView::Array(views(slice@)),
                Err(e) => !(self@ is Array) && e == mismatch(Kind::Array, self@.kind()),
            },
    {
        match self {
            Msg::Array(items) => Ok(items.as_slice()),
            _ => Err(TypeMismatch { expected: Kind::Array, actual: self.kind() }),
        }
    }

    /// The message itself where it is the absent value; a mismatch for every other kind.
    pub fn as_null(&self) -> (r: Result<&Msg, TypeMismatch>)
        ensures
            match r {
                Ok(m) => self@ is Null && *m == *self,
                Err(e) => !(self@ is Null) && e == mismatch(Kind::Null, self@.kind()),
            },
    {
        match self {
            Msg::Null => Ok(self),
            _ => Err(TypeMismatch { expected: Kind::Null, actual: self.kind() }),
        }
    }

    /// The bytes of the message on the wire.
    pub fn encode(&self) -> (bytes: Vec<u8>)
        ensures
            bytes@ == self@.encode(),
    {
        let mut out: Vec<u8> = Vec::new();
        self.encode_into(&mut out);
        out
    }

    /// Appends the bytes of the message to `out`.
    pub fn encode_into(&self, out: &mut Vec<u8>)
        ensures
            final(out)@ == old(out)@ + self@.encode(),
        decreases self,
    {
        match self {
            Msg::SimpleString(text) => {
                out.push(TAG_SIMPLE);
                out.extend_from_slice(text.as_str().as_bytes());
                out.push(CR);
                out.push(LF);
                assert(final(out)@ =~= old(out)@ + self@.encode());
            },
            Msg::Error(text) => {
                out.push(TAG_ERROR);
                out.extend_from_slice(text.as_str().as_bytes());
                out.push(CR);
                out.push(LF);
                assert(final(out)@ =~= old(out)@ + self@.encode());
            },
            Msg::Integer(value) => {
                out.push(TAG_INTEGER);
                push_int(out, *value);
                out.push(CR);
                out.push(LF);
                assert(final(out)@ =~= old(out)@ + self@.encode());
            },
            Msg::BulkString(text) => {
                let payload: &[u8] = text.as_str().as_bytes();
                out.push(TAG_BULK);
                push_nat(out, payload.len() as u64);
                out.push(CR);
                out.push(LF);
                out.extend_from_slice(payload);
                out.push(CR);
                out.push(LF);
                assert(final(out)@ =~= old(out)@ + self@.encode());
            },
            Msg::Array(items) => {
                out.push(TAG_ARRAY);
                push_nat(out, items.len() as u64);
                out.push(CR);
                out.push(LF);
                assert(decreases_to!(*self => items@));
                let ghost head = out@;
                let ghost parts = encodings(views(items@));
                let mut i: usize = 0;
                assert(parts.take(0) =~= Seq::<Seq<u8>>::empty());
                while i < items.len()
                    invariant
                        i <= items.len(),
                        decreases_to!(*self => items@),
                        parts == encodings(views(items@)),
                        out@ == head + parts.take(i as int).flatten(),
                    decreases items.len() - i,
                {
                    assert(decreases_to!(items@ => items@[i as int]));
                    items[i].encode_into(out);
                    proof {
                        assert(parts.take(i + 1) =~= parts.take(i as int).push(parts[i as int]));
                        parts.take(i as int).lemma_flatten_push(parts[i as int]);
                        assert(out@ =~= head + parts.take(i + 1).flatten());
                    }
                    i = i + 1;
                }
                proof {
                    assert(parts.take(items.len() as int) =~= parts);
                    assert(final(out)@ =~= old(out)@ + self@.encode());
                }
            },
            Msg::Null => {
                out.push(TAG_BULK);
                push_int(out, -1);
                out.push(CR);
                out.push(LF);
                assert(final(out)@ =~= old(out)@ + self@.encode());
            },
        }
    }
}

} // verus!
