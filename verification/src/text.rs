//! Text payloads and their bytes on the wire.
//!
//! Text is held as `String` and travels as UTF-8. The facts below connect properties of the
//! characters with properties of the bytes that encode them.

use vstd::prelude::*;
use vstd::utf8::*;

verus! {

/// ASCII code of carriage return.
pub const CR: u8 = 13;

/// ASCII code of line feed.
pub const LF: u8 = 10;

/// The two bytes that end every field of a frame.
pub open spec fn crlf() -> Seq<u8> {
    seq![CR, LF]
}

/// Text that may travel in a line-delimited field: it holds neither a carriage return nor a
/// line feed.
pub open spec fn line_safe(text: Seq<char>) -> bool {
    !text.contains('\r') && !text.contains('\n')
}

/// Every byte of the sequence is below 128.
pub open spec fn all_ascii(bytes: Seq<u8>) -> bool {
    forall|i: int| 0 <= i < bytes.len() ==> #[trigger] bytes[i] < 128
}

/// Converts bytes to text. Wraps `String::from_utf8`: the conversion succeeds exactly on
/// well-formed UTF-8, and the text is then the one that those bytes encode.
#[verifier::external_body]
pub(crate) fn string_from_utf8(bytes: Vec<u8>) -> (r: Option<String>)
    ensures
        r is Some <==> valid_utf8(bytes@),
        r matches Some(s) ==> s@ == decode_utf8(bytes@),
{
    String::from_utf8(bytes).ok()
}

/// Text is told apart by its bytes: two texts with the same UTF-8 encoding are the same text.
pub proof fn lemma_encoding_injective(a: Seq<char>, b: Seq<char>)
    requires
        encode_utf8(a) == encode_utf8(b),
    ensures
        a == b,
{
    encode_utf8_decode_utf8(a);
    encode_utf8_decode_utf8(b);
}

/// Whether two texts are the same.
pub fn same_text(a: &str, b: &str) -> (same: bool)
    ensures
        same == (a@ == b@),
{
    let x: &[u8] = a.as_bytes();
    let y: &[u8] = b.as_bytes();
    if x.len() != y.len() {
        return false;
    }
    let mut i: usize = 0;
    while i < x.len()
        invariant
            i <= x.len(),
            x.len() == y.len(),
            x@ == encode_utf8(a@),
            y@ == encode_utf8(b@),
            forall|j: int| 0 <= j < i ==> x@[j] == y@[j],
        decreases x.len() - i,
    {
        if x[i] != y[i] {
            return false;
        }
        i = i + 1;
    }
    proof {
        assert(x@ =~= y@);
        lemma_encoding_injective(a@, b@);
    }
    true
}

/// An ASCII byte inside well-formed UTF-8 always stands for the character with that code.
pub proof fn lemma_ascii_byte_is_char(bytes: Seq<u8>, i: int)
    requires
        valid_utf8(bytes),
        0 <= i < bytes.len(),
        bytes[i] < 128,
    ensures
        decode_utf8(bytes).contains(bytes[i] as char),
    decreases bytes.len(),
{
    let width = length_of_first_scalar(bytes);
    let rest = pop_first_scalar(bytes);
    let text = decode_utf8(bytes);
    assert(valid_first_scalar(bytes));
    assert(text =~= seq![decode_first_scalar(bytes) as char] + decode_utf8(rest));
    if i < width {
        assert(i == 0);
        let b = bytes[0];
        assert((b & 0x7F) as u32 == b as u32) by (bit_vector)
            requires
                b < 128,
        ;
        assert(text[0] == b as char);
    } else {
        lemma_ascii_byte_is_char(rest, i - width);
        let c = bytes[i] as char;
        let k = choose|k: int| 0 <= k < decode_utf8(rest).len() && decode_utf8(rest)[k] == c;
        assert(text[k + 1] == c);
    }
}

/// Text without a given ASCII character encodes to bytes without that character's code.
pub proof fn lemma_encoding_lacks_byte(text: Seq<char>, b: u8)
    requires
        b < 128,
        !text.contains(b as char),
    ensures
        !encode_utf8(text).contains(b),
{
    let bytes = encode_utf8(text);
    encode_utf8_valid_utf8(text);
    encode_utf8_decode_utf8(text);
    if bytes.contains(b) {
        let i = choose|i: int| 0 <= i < bytes.len() && bytes[i] == b;
        lemma_ascii_byte_is_char(bytes, i);
    }
}

/// Line-safe text encodes to bytes that hold neither a carriage return nor a line feed.
pub proof fn lemma_line_safe_bytes(text: Seq<char>)
    requires
        line_safe(text),
    ensures
        !encode_utf8(text).contains(CR),
        !encode_utf8(text).contains(LF),
{
    assert(CR as char == '\r');
    assert(LF as char == '\n');
    lemma_encoding_lacks_byte(text, CR);
    lemma_encoding_lacks_byte(text, LF);
}

/// ASCII bytes are well-formed UTF-8.
pub proof fn lemma_ascii_is_utf8(bytes: Seq<u8>)
    requires
        all_ascii(bytes),
    ensures
        valid_utf8(bytes),
    decreases bytes.len(),
{
    if bytes.len() > 0 {
        let rest = pop_first_scalar(bytes);
        assert(is_leading_byte_width_1(bytes[0]));
        assert(length_of_first_scalar(bytes) == 1);
        assert(rest =~= bytes.drop_first());
        assert forall|i: int| 0 <= i < rest.len() implies #[trigger] rest[i] < 128 by {
            assert(rest[i] == bytes[i + 1]);
        }
        lemma_ascii_is_utf8(rest);
    }
}

} // verus!
