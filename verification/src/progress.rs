//! The decoder only moves forward.
//!
//! Whatever a frame holds, decoding it takes bytes from the front of the source and nothing
//! else, and every call that finds a byte takes at least one. A caller can therefore read
//! frame after frame until the source is at its end.

use vstd::prelude::*;
use crate::decode::{
    after,
    decode_bulk,
    decode_frame,
    decode_items,
    decode_line,
    decode_msg,
    decode_number,
    lemma_first_cr_is_first,
};
use crate::resp::{MsgView, TAG_ARRAY, TAG_BULK, TAG_ERROR, TAG_INTEGER, TAG_SIMPLE};

verus! {

/// Being what is left is transitive.
pub proof fn lemma_suffix_of_suffix(a: Seq<u8>, b: Seq<u8>, c: Seq<u8>)
    requires
        a.is_suffix_of(b),
        b.is_suffix_of(c),
    ensures
        a.is_suffix_of(c),
{
    assert(a =~= c.subrange(c.len() - a.len(), c.len() as int));
}

/// What is left of `s` after some of its first bytes is a suffix of `s`.
pub proof fn lemma_after_is_suffix(s: Seq<u8>, n: int)
    requires
        0 <= n,
    ensures
        after(s, n).is_suffix_of(s),
{
    if n <= s.len() {
        assert(s.skip(n) =~= s.subrange(s.len() - s.skip(n).len(), s.len() as int));
    }
}

/// Reading a line leaves a suffix of the source.
pub proof fn lemma_line_leaves_suffix(s: Seq<u8>)
    ensures
        decode_line(s).1.is_suffix_of(s),
        decode_number(s).1.is_suffix_of(s),
{
    let rest = decode_line(s).1;
    lemma_first_cr_is_first(s);
    assert(rest =~= s.subrange(s.len() - rest.len(), s.len() as int));
}

/// Reading the body of a bulk string leaves a suffix of the source.
pub proof fn lemma_bulk_leaves_suffix(s: Seq<u8>)
    ensures
        decode_bulk(s).1.is_suffix_of(s),
{
    let (len, body) = decode_number(s);
    lemma_line_leaves_suffix(s);
    if let Ok(n) = len {
        if n >= 0 {
            let tail = after(body, n as int);
            let rest = after(tail, 2);
            lemma_after_is_suffix(body, n as int);
            lemma_after_is_suffix(tail, 2);
            lemma_suffix_of_suffix(rest, tail, body);
            lemma_suffix_of_suffix(rest, body, s);
        }
    }
}

/// Reading the body of a frame leaves a suffix of the source.
pub proof fn lemma_frame_leaves_suffix(tag: u8, s: Seq<u8>, depth: nat)
    ensures
        decode_frame(tag, s, depth).1.is_suffix_of(s),
    decreases depth, 0nat,
{
    lemma_line_leaves_suffix(s);
    if tag == TAG_BULK {
        lemma_bulk_leaves_suffix(s);
    } else if tag == TAG_ARRAY {
        let (len, body) = decode_number(s);
        if let Ok(n) = len {
            if n >= 0 && depth > 0 {
                let done = Seq::<MsgView>::empty();
                lemma_items_leave_suffix(body, done, n, (depth - 1) as nat);
                lemma_suffix_of_suffix(
                    decode_items(body, done, n, (depth - 1) as nat).1,
                    body,
                    s,
                );
            }
        }
    } else if tag == TAG_SIMPLE || tag == TAG_ERROR || tag == TAG_INTEGER {
    } else {
        assert(s =~= s.subrange(0, s.len() as int));
    }
}

/// Reading the elements of an array leaves a suffix of the source.
pub proof fn lemma_items_leave_suffix(s: Seq<u8>, done: Seq<MsgView>, len: i64, depth: nat)
    ensures
        decode_items(s, done, len, depth).1.is_suffix_of(s),
    decreases depth, 2 + len - done.len(),
{
    if done.len() >= len {
        assert(s =~= s.subrange(0, s.len() as int));
    } else {
        let (next, rest) = decode_msg(s, depth);
        lemma_msg_moves_forward(s, depth);
        if let Some(Ok(m)) = next {
            lemma_items_leave_suffix(rest, done.push(m), len, depth);
            lemma_suffix_of_suffix(decode_items(rest, done.push(m), len, depth).1, rest, s);
        }
    }
}

/// One call of the decoder leaves a suffix of the source, and a shorter one unless the source
/// was at its end. The call reports the end of the stream exactly where the source is empty.
pub proof fn lemma_msg_moves_forward(s: Seq<u8>, depth: nat)
    ensures
        decode_msg(s, depth).1.is_suffix_of(s),
        s.len() > 0 ==> decode_msg(s, depth).1.len() < s.len(),
        decode_msg(s, depth).0 is None <==> s.len() == 0,
    decreases depth, 1nat,
{
    if s.len() == 0 {
        assert(s =~= s.subrange(0, s.len() as int));
    } else {
        let body = s.drop_first();
        lemma_frame_leaves_suffix(s[0], body, depth);
        assert(body.is_suffix_of(s)) by {
            assert(body =~= s.subrange(s.len() - body.len(), s.len() as int));
        }
        lemma_suffix_of_suffix(decode_frame(s[0], body, depth).1, body, s);
    }
}

} // verus!
