//! Decoding undoes encoding.

use vstd::prelude::*;
use vstd::utf8::*;
use crate::decimal::{
    int_digits,
    is_digit,
    lemma_int_digits_bytes,
    lemma_parse_i64_digits,
    nat_digits,
};
use crate::decode::{
    after,
    decode_bulk,
    decode_items,
    decode_line,
    decode_msg,
    decode_number,
    front,
    lemma_first_cr,
    DecodeError,
    MAX_DEPTH,
};
use crate::resp::{encodings, MsgView, TAG_BULK};
use crate::text::{
    all_ascii,
    crlf,
    lemma_ascii_is_utf8,
    lemma_line_safe_bytes,
    line_safe,
    CR,
    LF,
};

verus! {

/// A field of well-formed UTF-8 without a carriage return, followed by CRLF, is read back as
/// the text that it encodes, and the bytes behind the CRLF are left.
pub proof fn lemma_decode_line(content: Seq<u8>, rest: Seq<u8>)
    requires
        valid_utf8(content),
        !content.contains(CR),
    ensures
        decode_line(content + crlf() + rest) == (
            Ok::<Seq<char>, DecodeError>(decode_utf8(content)),
            rest,
        ),
{
    let s = content + crlf() + rest;
    let k = content.len() as int;
    assert forall|j: int| 0 <= j < k implies s[j] != CR by {
        assert(s[j] == content[j]);
        assert(content.contains(content[j]));
    }
    assert(s[k] == CR);
    assert(s[k + 1] == LF);
    lemma_first_cr(s, k);
    assert(s.take(k) =~= content);
    assert(s.skip(k + 2) =~= rest);
}

/// A line-safe text, encoded and followed by CRLF, is read back as it was.
pub proof fn lemma_decode_text_line(text: Seq<char>, rest: Seq<u8>)
    requires
        line_safe(text),
    ensures
        decode_line(encode_utf8(text) + crlf() + rest) == (
            Ok::<Seq<char>, DecodeError>(text),
            rest,
        ),
{
    lemma_line_safe_bytes(text);
    encode_utf8_valid_utf8(text);
    encode_utf8_decode_utf8(text);
    lemma_decode_line(encode_utf8(text), rest);
}

/// The canonical decimal text of a number, followed by CRLF, is read back as that number.
pub proof fn lemma_decode_number(value: i64, rest: Seq<u8>)
    ensures
        decode_number(int_digits(value as int) + crlf() + rest) == (
            Ok::<i64, DecodeError>(value),
            rest,
        ),
{
    let digits = int_digits(value as int);
    lemma_int_digits_bytes(value as int);
    assert(all_ascii(digits)) by {
        assert forall|i: int| 0 <= i < digits.len() implies #[trigger] digits[i] < 128 by {
            let b = digits[i];
            assert(is_digit(b) || b == 45);
        }
    }
    assert(!digits.contains(CR)) by {
        if digits.contains(CR) {
            let i = choose|i: int| 0 <= i < digits.len() && digits[i] == CR;
            let b = digits[i];
            assert(is_digit(b) || b == 45);
        }
    }
    lemma_ascii_is_utf8(digits);
    lemma_decode_line(digits, rest);
    decode_utf8_encode_utf8(digits);
    lemma_parse_i64_digits(value);
}

/// A bulk string frame is taken from the source in full, well-formed or not: behind a length
/// field of `n`, a payload of `n` bytes and two more bytes, the decoder leaves exactly what
/// follows them. The frame is a bulk string where those two bytes are CRLF and the payload is
/// well-formed UTF-8; it is an error otherwise, a bad terminator before an invalid text.
pub proof fn lemma_decode_bulk_frame(n: i64, payload: Seq<u8>, end: Seq<u8>, rest: Seq<u8>)
    requires
        0 <= n,
        payload.len() == n,
        end.len() == 2,
    ensures
        decode_bulk(int_digits(n as int) + crlf() + payload + end + rest) == (
            if end != crlf() {
                Err::<MsgView, DecodeError>(DecodeError::BadTerminator)
            } else if !valid_utf8(payload) {
                Err::<MsgView, DecodeError>(DecodeError::InvalidText)
            } else {
                Ok::<MsgView, DecodeError>(MsgView::BulkString(decode_utf8(payload)))
            },
            rest,
        ),
{
    let body = payload + end + rest;
    let s = int_digits(n as int) + crlf() + payload + end + rest;
    assert(s =~= int_digits(n as int) + crlf() + body);
    lemma_decode_number(n, body);
    let tail = end + rest;
    assert(front(body, n as int) =~= payload);
    assert(after(body, n as int) =~= tail);
    assert(front(tail, 2) =~= end);
    assert(after(tail, 2) =~= rest);
}

/// The bytes of a bulk string behind its tag, when its payload length fits the length field,
/// are read back as that bulk string.
pub proof fn lemma_decode_bulk(text: Seq<char>, rest: Seq<u8>)
    requires
        encode_utf8(text).len() <= i64::MAX,
    ensures
        decode_bulk(
            nat_digits(encode_utf8(text).len()) + crlf() + encode_utf8(text) + crlf() + rest,
        ) == (Ok::<MsgView, DecodeError>(MsgView::BulkString(text)), rest),
{
    let payload = encode_utf8(text);
    encode_utf8_valid_utf8(text);
    encode_utf8_decode_utf8(text);
    lemma_decode_bulk_frame(payload.len() as i64, payload, crlf(), rest);
}

/// Round trip of one message: what `encode` writes for a representable message, `decode`
/// reads back as that message, and it takes exactly those bytes from the source. This holds
/// with any bytes following, and wherever the decoder allows the nesting depth of the message.
pub proof fn lemma_decode_encode(msg: MsgView, rest: Seq<u8>, depth: nat)
    requires
        msg.representable(),
        msg.within_depth(depth),
    ensures
        decode_msg(msg.encode() + rest, depth) == (
            Some(Ok::<MsgView, DecodeError>(msg)),
            rest,
        ),
    decreases depth, 0nat,
{
    let body = (msg.encode() + rest).drop_first();
    match msg {
        MsgView::SimpleString(text) => {
            assert(body =~= encode_utf8(text) + crlf() + rest);
            lemma_decode_text_line(text, rest);
        },
        MsgView::Error(text) => {
            assert(body =~= encode_utf8(text) + crlf() + rest);
            lemma_decode_text_line(text, rest);
        },
        MsgView::Integer(value) => {
            assert(body =~= int_digits(value as int) + crlf() + rest);
            lemma_decode_number(value, rest);
        },
        MsgView::BulkString(text) => {
            assert(body =~= nat_digits(encode_utf8(text).len()) + crlf() + encode_utf8(text)
                + crlf() + rest);
            lemma_decode_bulk(text, rest);
        },
        MsgView::Array(items) => {
            let n = items.len() as i64;
            let inner = encodings(items).flatten() + rest;
            assert(body =~= int_digits(n as int) + crlf() + inner);
            lemma_decode_number(n, inner);
            lemma_decode_items(items, Seq::empty(), rest, (depth - 1) as nat);
            assert(Seq::<MsgView>::empty() + items =~= items);
        },
        MsgView::Null => {
            assert(body =~= int_digits(-1) + crlf() + rest);
            lemma_decode_number(-1i64, rest);
        },
    }
}

/// Round trip of the elements of an array: after the elements `done`, the bytes of `items` one
/// after the other are read back as those messages, and what follows them is left.
pub proof fn lemma_decode_items(
    items: Seq<MsgView>,
    done: Seq<MsgView>,
    rest: Seq<u8>,
    depth: nat,
)
    requires
        done.len() + items.len() <= i64::MAX,
        forall|i: int| 0 <= i < items.len() ==> (#[trigger] items[i]).representable(),
        forall|i: int| 0 <= i < items.len() ==> (#[trigger] items[i]).within_depth(depth),
    ensures
        decode_items(
            encodings(items).flatten() + rest,
            done,
            (done.len() + items.len()) as i64,
            depth,
        ) == (Ok::<MsgView, DecodeError>(MsgView::Array(done + items)), rest),
    decreases depth, 1 + items.len(),
{
    let len = (done.len() + items.len()) as i64;
    let parts = encodings(items);
    if items.len() == 0 {
        assert(parts.flatten() + rest =~= rest);
        assert(done + items =~= done);
    } else {
        let head = items[0];
        let tail = items.drop_first();
        let behind = encodings(tail).flatten() + rest;
        assert(parts.drop_first() =~= encodings(tail));
        assert(parts.flatten() + rest =~= head.encode() + behind);
        lemma_decode_encode(head, behind, depth);
        assert forall|i: int| 0 <= i < tail.len() implies (#[trigger] tail[i]).representable() by {
            assert(tail[i] == items[i + 1]);
        }
        assert forall|i: int| 0 <= i < tail.len() implies (#[trigger] tail[i]).within_depth(
            depth,
        ) by {
            assert(tail[i] == items[i + 1]);
        }
        lemma_decode_items(tail, done.push(head), rest, depth);
        assert(done.push(head) + tail =~= done + items);
    }
}

/// The decoder finds the next frame behind a malformed bulk string: where a bulk string frame
/// with all its declared bytes is followed by the bytes of a representable message, the first
/// call leaves exactly those bytes and what follows them, and the second call reads the
/// message, however the first one ended.
pub proof fn lemma_next_frame_after_bulk(
    n: i64,
    payload: Seq<u8>,
    end: Seq<u8>,
    msg: MsgView,
    rest: Seq<u8>,
    depth: nat,
)
    requires
        0 <= n,
        payload.len() == n,
        end.len() == 2,
        msg.representable(),
        msg.within_depth(depth),
    ensures
        ({
            let frame = seq![TAG_BULK] + int_digits(n as int) + crlf() + payload + end;
            let first = decode_msg(frame + msg.encode() + rest, depth);
            &&& first.0 is Some
            &&& first.1 == msg.encode() + rest
            &&& decode_msg(first.1, depth) == (Some(Ok::<MsgView, DecodeError>(msg)), rest)
        }),
{
    let frame = seq![TAG_BULK] + int_digits(n as int) + crlf() + payload + end;
    let behind = msg.encode() + rest;
    let s = frame + msg.encode() + rest;
    assert(s.drop_first() =~= int_digits(n as int) + crlf() + payload + end + behind);
    lemma_decode_bulk_frame(n, payload, end, behind);
    lemma_decode_encode(msg, rest, depth);
}

/// Round trip at the depth that `Msg::decode` allows, with nothing following the message.
pub proof fn lemma_round_trip(msg: MsgView)
    requires
        msg.representable(),
        msg.within_depth(MAX_DEPTH as nat),
    ensures
        decode_msg(msg.encode(), MAX_DEPTH as nat) == (
            Some(Ok::<MsgView, DecodeError>(msg)),
            Seq::<u8>::empty(),
        ),
{
    lemma_decode_encode(msg, Seq::empty(), MAX_DEPTH as nat);
    assert(msg.encode() + Seq::<u8>::empty() =~= msg.encode());
}

} // verus!
