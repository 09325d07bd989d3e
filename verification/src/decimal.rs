//! Decimal text of integers, as it appears in length and value fields.

use vstd::prelude::*;

verus! {

/// ASCII code of `'0'`.
pub const ZERO: u8 = 48;

/// ASCII code of `'+'`.
pub const PLUS: u8 = 43;

/// ASCII code of `'-'`.
pub const MINUS: u8 = 45;

/// The byte is one of `'0'..='9'`.
pub open spec fn is_digit(b: u8) -> bool {
    48 <= b <= 57
}

/// Every byte of the sequence is a decimal digit.
pub open spec fn all_digits(s: Seq<u8>) -> bool {
    forall|i: int| 0 <= i < s.len() ==> is_digit(#[trigger] s[i])
}

/// The value of one decimal digit; zero for any other byte.
pub open spec fn digit_value(b: u8) -> nat {
    if is_digit(b) {
        (b - 48) as nat
    } else {
        0
    }
}

/// The number that a sequence of decimal digits denotes, most significant digit first.
pub open spec fn digits_value(s: Seq<u8>) -> nat
    decreases s.len(),
{
    if s.len() == 0 {
        0
    } else {
        digits_value(s.drop_last()) * 10 + digit_value(s.last())
    }
}

/// The shortest decimal text of a natural number.
pub open spec fn nat_digits(n: nat) -> Seq<u8>
    decreases n,
{
    if n < 10 {
        seq![(48 + n) as u8]
    } else {
        nat_digits(n / 10).push((48 + n % 10) as u8)
    }
}

/// The canonical decimal text of an integer: a minus sign for negative values, no plus sign, no
/// leading zeros.
pub open spec fn int_digits(v: int) -> Seq<u8> {
    if v < 0 {
        seq![45u8] + nat_digits((-v) as nat)
    } else {
        nat_digits(v as nat)
    }
}

/// The integer that a decimal text denotes: an optional sign (`+` or `-`) followed by at least
/// one digit. Leading zeros are accepted. `None` for every other text.
pub open spec fn parse_int(s: Seq<u8>) -> Option<int> {
    if s.len() == 0 {
        None
    } else if s[0] == 45 {
        if s.len() > 1 && all_digits(s.drop_first()) {
            Some(-(digits_value(s.drop_first()) as int))
        } else {
            None
        }
    } else if s[0] == 43 {
        if s.len() > 1 && all_digits(s.drop_first()) {
            Some(digits_value(s.drop_first()) as int)
        } else {
            None
        }
    } else if all_digits(s) {
        Some(digits_value(s) as int)
    } else {
        None
    }
}

/// The signed 64-bit integer that a decimal text denotes; `None` where the text is no integer
/// or the integer does not fit.
pub open spec fn parse_i64(s: Seq<u8>) -> Option<i64> {
    match parse_int(s) {
        Some(v) => if i64::MIN <= v <= i64::MAX {
            Some(v as i64)
        } else {
            None
        },
        None => None,
    }
}

/// A longer digit sequence never denotes a smaller number than one of its prefixes.
pub proof fn lemma_digits_value_prefix(s: Seq<u8>, k: int)
    requires
        0 <= k <= s.len(),
    ensures
        digits_value(s.take(k)) <= digits_value(s),
    decreases s.len(),
{
    if k == s.len() {
        assert(s.take(k) =~= s);
    } else {
        assert(s.drop_last().take(k) =~= s.take(k));
        lemma_digits_value_prefix(s.drop_last(), k);
    }
}

/// The text of a natural number consists of digits, is not empty, and denotes that number.
pub proof fn lemma_nat_digits(n: nat)
    ensures
        nat_digits(n).len() >= 1,
        all_digits(nat_digits(n)),
        digits_value(nat_digits(n)) == n,
    decreases n,
{
    if n < 10 {
        let s = nat_digits(n);
        assert(s.drop_last() =~= Seq::<u8>::empty());
        assert(digits_value(s.drop_last()) == 0);
    } else {
        lemma_nat_digits(n / 10);
        let s = nat_digits(n);
        assert(s.drop_last() =~= nat_digits(n / 10));
        assert(s.last() == (48 + n % 10) as u8);
    }
}

/// Reading back the canonical text of an integer gives that integer.
pub proof fn lemma_parse_int_digits(v: int)
    ensures
        parse_int(int_digits(v)) == Some(v),
{
    if v < 0 {
        let m = (-v) as nat;
        lemma_nat_digits(m);
        assert(int_digits(v).drop_first() =~= nat_digits(m));
    } else {
        lemma_nat_digits(v as nat);
        assert(is_digit(nat_digits(v as nat)[0]));
    }
}

/// Reading back the canonical text of a signed 64-bit integer gives that integer.
pub proof fn lemma_parse_i64_digits(v: i64)
    ensures
        parse_i64(int_digits(v as int)) == Some(v),
{
    lemma_parse_int_digits(v as int);
}

/// The canonical text of an integer holds only digits and, in front, possibly a minus sign.
pub proof fn lemma_int_digits_bytes(v: int)
    ensures
        int_digits(v).len() >= 1,
        forall|i: int| 0 <= i < int_digits(v).len() ==> {
            let b = #[trigger] int_digits(v)[i];
            is_digit(b) || b == 45
        },
{
    if v < 0 {
        lemma_nat_digits((-v) as nat);
    } else {
        lemma_nat_digits(v as nat);
    }
}

/// Appends the decimal text of `n` to `out`.
pub fn push_nat(out: &mut Vec<u8>, n: u64)
    ensures
        final(out)@ == old(out)@ + nat_digits(n as nat),
    decreases n,
{
    if n >= 10 {
        push_nat(out, n / 10);
    }
    let d: u8 = (n % 10) as u8;
    out.push(ZERO + d);
    proof {
        if n < 10 {
            assert(final(out)@ =~= old(out)@ + nat_digits(n as nat));
        } else {
            assert(final(out)@ =~= old(out)@ + nat_digits(n as nat));
        }
    }
}

/// Appends the canonical decimal text of `v` to `out`.
pub fn push_int(out: &mut Vec<u8>, v: i64)
    ensures
        final(out)@ == old(out)@ + int_digits(v as int),
{
    if v < 0 {
        out.push(MINUS);
        let magnitude: u64 = if v == i64::MIN {
            9223372036854775808u64
        } else {
            (-v) as u64
        };
        push_nat(out, magnitude);
        assert(final(out)@ =~= old(out)@ + int_digits(v as int));
    } else {
        push_nat(out, v as u64);
    }
}

/// Reads a decimal text as a signed 64-bit integer.
///
/// The text is an optional sign followed by at least one digit. Anything else, and any value
/// outside the 64-bit range, gives `None`.
pub fn parse_decimal(text: &[u8]) -> (r: Option<i64>)
    ensures
        r == parse_i64(text@),
{
    let n: usize = text.len();
    if n == 0 {
        return None;
    }
    let negative: bool = text[0] == MINUS;
    let start: usize = if negative || text[0] == PLUS {
        1
    } else {
        0
    };
    if start == n {
        return None;
    }
    let ghost body = text@.skip(start as int);
    proof {
        if start == 1 {
            assert(body =~= text@.drop_first());
        } else {
            assert(body =~= text@);
        }
    }
    let limit: u64 = if negative {
        9223372036854775808u64
    } else {
        9223372036854775807u64
    };
    let mut acc: u64 = 0;
    let mut i: usize = start;
    assert(body.take(0) =~= Seq::<u8>::empty());
    while i < n
        invariant
            start <= i <= n,
            n == text@.len(),
            body == text@.skip(start as int),
            all_digits(body.take(i - start)),
            acc == digits_value(body.take(i - start)),
            acc <= limit,
            0 < n,
            negative == (text@[0] == 45),
            start == (if text@[0] == 45 || text@[0] == 43 { 1int } else { 0int }),
            start == 1 ==> body == text@.drop_first(),
            start == 0 ==> body == text@,
            limit == (if negative { 9223372036854775808u64 } else { 9223372036854775807u64 }),
        decreases n - i,
    {
        let b: u8 = text[i];
        if b < 48 || b > 57 {
            assert(!is_digit(body[i - start]));
            return None;
        }
        let d: u64 = (b - ZERO) as u64;
        let ghost next = body.take(i + 1 - start);
        proof {
            assert(next.drop_last() =~= body.take(i - start));
            assert(next.last() == b);
            assert(digits_value(next) == acc * 10 + d);
        }
        if acc > (limit - d) / 10 {
            proof {
                lemma_digits_value_prefix(body, i + 1 - start);
            }
            return None;
        }
        acc = acc * 10 + d;
        i = i + 1;
        proof {
            assert forall|j: int| 0 <= j < next.len() implies is_digit(#[trigger] next[j]) by {
                if j < next.len() - 1 {
                    assert(next[j] == body.take(i - 1 - start)[j]);
                }
            }
        }
    }
    assert(body.take(n - start) =~= body);
    if negative {
        if acc == 9223372036854775808u64 {
            Some(i64::MIN)
        } else {
            Some(-(acc as i64))
        }
    } else {
        Some(acc as i64)
    }
}

} // verus!
