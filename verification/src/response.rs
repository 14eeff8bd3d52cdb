//! The wire format of a response: a status line, one `Content-Length`
//! header, a blank line, and the body, byte for byte.
//!
//! ```text
//! HTTP/1.1 200 OK\r\n
//! Content-Length: <N>\r\n
//! \r\n
//! <body, N bytes>
//! ```

use vstd::prelude::*;
use vstd::string::StringSliceAdditionalSpecFns;
use vstd::utf8::is_ascii_chars;
use vstd::utf8::is_ascii_chars_encode_utf8;

verus! {

/// The decimal digits of `n` as ASCII bytes, most significant digit first,
/// with no leading zero (`0` itself is the single digit `0`).
pub open spec fn decimal(n: nat) -> Seq<u8>
    decreases n,
{
    if n < 10 {
        seq![(48 + n) as u8]
    } else {
        decimal(n / 10).push((48 + n % 10) as u8)
    }
}

/// The number that a run of ASCII digits denotes; the empty run denotes 0.
pub open spec fn decimal_value(digits: Seq<u8>) -> nat
    decreases digits.len(),
{
    if digits.len() == 0 {
        0
    } else {
        (decimal_value(digits.drop_last()) * 10 + (digits.last() - 48)) as nat
    }
}

/// The status line, with its line end.
pub open spec fn status_line() -> Seq<u8> {
    "HTTP/1.1 200 OK\r\n".spec_bytes()
}

/// The name of the only header, up to where its value starts.
pub open spec fn length_field() -> Seq<u8> {
    "Content-Length: ".spec_bytes()
}

/// The end of the header line followed by the blank line.
pub open spec fn blank_line() -> Seq<u8> {
    "\r\n\r\n".spec_bytes()
}

/// Everything that precedes a body of `len` bytes.
pub open spec fn head(len: nat) -> Seq<u8> {
    status_line() + length_field() + decimal(len) + blank_line()
}

/// The whole response that carries `body`.
pub open spec fn response(body: Seq<u8>) -> Seq<u8> {
    head(body.len()) + body
}

/// Whether the four bytes CR LF CR LF stand in `bytes` at index `at`.
pub open spec fn blank_line_at(bytes: Seq<u8>, at: int) -> bool {
    &&& 0 <= at
    &&& at + 4 <= bytes.len()
    &&& bytes[at] == 13
    &&& bytes[at + 1] == 10
    &&& bytes[at + 2] == 13
    &&& bytes[at + 3] == 10
}

/// Appends the decimal digits of `n` to `out`.
pub fn push_decimal(out: &mut Vec<u8>, n: usize)
    ensures
        final(out)@ == old(out)@ + decimal(n as nat),
    decreases n,
{
    if n >= 10 {
        push_decimal(out, n / 10);
    }
    let digit: u8 = (n % 10) as u8;
    out.push(48u8 + digit);
}

/// Serialises the response that carries `body`: the status line, the
/// `Content-Length` header with the body's length in bytes, a blank line,
/// and the body unchanged.
pub fn build_response(body: &[u8]) -> (out: Vec<u8>)
    ensures
        out@ == response(body@),
{
    let mut out: Vec<u8> = Vec::new();
    out.extend_from_slice("HTTP/1.1 200 OK\r\n".as_bytes());
    out.extend_from_slice("Content-Length: ".as_bytes());
    push_decimal(&mut out, body.len());
    out.extend_from_slice("\r\n\r\n".as_bytes());
    out.extend_from_slice(body);
    out
}

/// Every byte of `decimal(n)` is an ASCII digit, there is at least one, and
/// only the number 0 starts with the digit `0`.
pub proof fn lemma_decimal_is_canonical(n: nat)
    ensures
        decimal(n).len() >= 1,
        forall|i: int| 0 <= i < decimal(n).len() ==> 48 <= #[trigger] decimal(n)[i] <= 57,
        decimal(n)[0] == 48 <==> n == 0,
    decreases n,
{
    if n >= 10 {
        lemma_decimal_is_canonical(n / 10);
    }
}

/// Reading the digits of `n` back gives `n`.
pub proof fn lemma_decimal_round_trip(n: nat)
    ensures
        decimal_value(decimal(n)) == n,
    decreases n,
{
    let digits = decimal(n);
    if n < 10 {
        assert(digits.drop_last() =~= Seq::<u8>::empty());
        assert(decimal_value(digits.drop_last()) == 0);
    } else {
        lemma_decimal_round_trip(n / 10);
        assert(digits.drop_last() =~= decimal(n / 10));
    }
}

/// Different lengths are written with different digits.
pub proof fn lemma_decimal_is_injective(a: nat, b: nat)
    requires
        decimal(a) == decimal(b),
    ensures
        a == b,
{
    lemma_decimal_round_trip(a);
    lemma_decimal_round_trip(b);
}

/// The fixed parts of the header, byte by byte.
pub proof fn lemma_fixed_parts()
    ensures
        status_line() == seq![
            72u8, 84, 84, 80, 47, 49, 46, 49, 32, 50, 48, 48, 32, 79, 75, 13, 10,
        ],
        length_field() == seq![
            67u8, 111, 110, 116, 101, 110, 116, 45, 76, 101, 110, 103, 116, 104, 58, 32,
        ],
        blank_line() == seq![13u8, 10, 13, 10],
{
    reveal_strlit("HTTP/1.1 200 OK\r\n");
    reveal_strlit("Content-Length: ");
    reveal_strlit("\r\n\r\n");
    assert(is_ascii_chars("HTTP/1.1 200 OK\r\n"@));
    assert(is_ascii_chars("Content-Length: "@));
    assert(is_ascii_chars("\r\n\r\n"@));
    is_ascii_chars_encode_utf8("HTTP/1.1 200 OK\r\n"@);
    is_ascii_chars_encode_utf8("Content-Length: "@);
    is_ascii_chars_encode_utf8("\r\n\r\n"@);
}

/// A response to a body of `L` bytes announces exactly `L` and carries exactly
/// those `L` bytes after its header block.
///
/// The header block is the status line, then `Content-Length: ` with the
/// digits of `L`, which read back as `L`, then the blank line. The blank line
/// at the end of the header block is the first one in the response, so a
/// reader that looks for it finds the body where it starts, and what follows
/// is the body, unchanged, and nothing else.
pub proof fn lemma_content_length_is_exact(body: Seq<u8>)
    ensures
        response(body).len() == head(body.len()).len() + body.len(),
        response(body).subrange(0, head(body.len()).len() as int) == head(body.len()),
        response(body).subrange(head(body.len()).len() as int, response(body).len() as int)
            == body,
        head(body.len()) == status_line() + length_field() + decimal(body.len()) + blank_line(),
        decimal_value(decimal(body.len())) == body.len(),
        blank_line_at(response(body), head(body.len()).len() - 4),
        forall|at: int|
            at < head(body.len()).len() - 4 ==> !#[trigger] blank_line_at(response(body), at),
{
    let len = body.len();
    let digits = decimal(len);
    let whole = response(body);
    lemma_fixed_parts();
    lemma_decimal_is_canonical(len);
    lemma_decimal_round_trip(len);
    assert(head(len).len() == 33 + digits.len() + 4);
    assert forall|i: int| 0 <= i < 33 implies whole[i] == (status_line() + length_field())[i] by {}
    assert forall|i: int| 33 <= i < 33 + digits.len() implies 48 <= #[trigger] whole[i] <= 57 by {
        assert(whole[i] == digits[i - 33]);
    }
    assert forall|at: int| at < head(len).len() - 4 implies !#[trigger] blank_line_at(
        whole,
        at,
    ) by {
        if 0 <= at {
            if at < 33 {
                assert(whole[at] == (status_line() + length_field())[at]);
                if at == 15 {
                    assert(whole[17] == (status_line() + length_field())[17]);
                }
            } else {
                assert(48 <= whole[at] <= 57);
            }
        }
    }
}

} // verus!
