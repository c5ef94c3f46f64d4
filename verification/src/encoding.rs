//! Base64 text of a byte string: the form in which payloads and previews leave the library.

use base64::Engine;
use vstd::prelude::*;

verus! {

/// How many characters the Base64 text of `n` bytes has: four for each started group of three.
pub open spec fn base64_len(n: int) -> int {
    (n + 2) / 3 * 4
}

/// The Base64 digit of the value `v`, `0 <= v < 64`: `A` to `Z`, `a` to `z`, `0` to `9`, `+`, `/`.
pub open spec fn base64_digit(v: int) -> char {
    if v < 26 {
        (65 + v) as char
    } else if v < 52 {
        (71 + v) as char
    } else if v < 62 {
        (v - 4) as char
    } else if v == 62 {
        '+'
    } else {
        '/'
    }
}

/// The byte at `i`, or zero past the end.
pub open spec fn byte_or_zero(bytes: Seq<u8>, i: int) -> int {
    if 0 <= i < bytes.len() {
        bytes[i] as int
    } else {
        0
    }
}

/// The six bits that digit `i` of the Base64 text stands for. Each group of three bytes, most
/// significant first and filled up with zeros, gives four digits.
pub open spec fn sextet(bytes: Seq<u8>, i: int) -> int {
    let g = 3 * (i / 4);
    let a = byte_or_zero(bytes, g);
    let b = byte_or_zero(bytes, g + 1);
    let c = byte_or_zero(bytes, g + 2);
    if i % 4 == 0 {
        a / 4
    } else if i % 4 == 1 {
        a % 4 * 16 + b / 16
    } else if i % 4 == 2 {
        b % 16 * 4 + c / 64
    } else {
        c % 64
    }
}

/// The Base64 text of `bytes` in the standard alphabet, filled up with `=`.
pub open spec fn base64_text(bytes: Seq<u8>) -> Seq<char> {
    Seq::new(
        base64_len(bytes.len() as int) as nat,
        |i: int|
            if 6 * i < 8 * bytes.len() {
                base64_digit(sextet(bytes, i))
            } else {
                '='
            },
    )
}

/// `encode` of the crate `base64`, with its engine for the standard alphabet and padding.
/// Trusted: the result is the standard Base64 text of the bytes. The text is held in one
/// allocation, so it may not be longer than an allocation can be.
#[verifier::external_body]
pub(crate) fn encode(bytes: &[u8]) -> (text: String)
    requires
        base64_len(bytes@.len() as int) <= isize::MAX,
    ensures
        text@ == base64_text(bytes@),
{
    base64::engine::general_purpose::STANDARD.encode(bytes)
}

/// A digit stands for six bits, and tells which.
proof fn lemma_digit_injective(v: int, u: int)
    requires
        0 <= v < 64,
        0 <= u < 64,
    ensures
        base64_digit(v) == base64_digit(u) ==> v == u,
        base64_digit(v) != '=',
        base64_digit(u) != '=',
{
}

/// Six bits are six bits.
proof fn lemma_sextet_range(bytes: Seq<u8>, i: int)
    requires
        0 <= i,
    ensures
        0 <= sextet(bytes, i) < 64,
{
}

/// Where two texts agree, so do the bits that their digits stand for.
proof fn lemma_same_digit(a: Seq<u8>, b: Seq<u8>, i: int)
    requires
        base64_text(a) == base64_text(b),
        0 <= i < base64_text(a).len(),
    ensures
        6 * i < 8 * a.len() <==> 6 * i < 8 * b.len(),
        6 * i < 8 * a.len() ==> sextet(a, i) == sextet(b, i),
{
    lemma_sextet_range(a, i);
    lemma_sextet_range(b, i);
    lemma_digit_injective(sextet(a, i), sextet(b, i));
    assert(base64_text(a)[i] == if 6 * i < 8 * a.len() {
        base64_digit(sextet(a, i))
    } else {
        '='
    });
    assert(base64_text(b)[i] == if 6 * i < 8 * b.len() {
        base64_digit(sextet(b, i))
    } else {
        '='
    });
}

/// Different bytes have different texts: nothing of a payload is lost on the way.
pub proof fn law_base64_keeps_everything(a: Seq<u8>, b: Seq<u8>)
    requires
        base64_text(a) == base64_text(b),
    ensures
        a == b,
{
    let n = a.len() as int;
    let m = b.len() as int;
    assert(base64_text(a).len() == base64_text(b).len());
    if n > m {
        lemma_same_digit(a, b, (8 * m + 5) / 6);
    } else if m > n {
        lemma_same_digit(a, b, (8 * n + 5) / 6);
    }
    assert forall|k: int| 0 <= k < n implies a[k] == b[k] by {
        let i = 4 * (k / 3) + k % 3;
        lemma_same_digit(a, b, i);
        lemma_same_digit(a, b, i + 1);
    }
    assert(a =~= b);
}

/// The value of a Base64 digit, by where it stands among the letters, the numbers and the two signs.
pub open spec fn digit_value(c: char) -> int {
    let n = c as u32 as int;
    if 65 <= n <= 90 {
        n - 65
    } else if 97 <= n <= 122 {
        n - 97 + 26
    } else if 48 <= n <= 57 {
        n - 48 + 52
    } else if n == 43 {
        62
    } else {
        63
    }
}

/// A digit has the value that it stands for.
proof fn lemma_digit_value(v: int)
    requires
        0 <= v < 64,
    ensures
        digit_value(base64_digit(v)) == v,
{
}

/// The text can be read back: byte `k` stands in two digits that follow one another, six bits to a
/// digit, high bits first. The text is filled up with `=` to a whole number of groups of four.
pub proof fn law_base64_reads_back(bytes: Seq<u8>, k: int)
    requires
        0 <= k < bytes.len(),
    ensures
        base64_text(bytes).len() % 4 == 0,
        4 * bytes.len() <= 3 * base64_text(bytes).len() < 4 * bytes.len() + 12,
        ({
            let text = base64_text(bytes);
            let i = 4 * (k / 3);
            bytes[k] == if k % 3 == 0 {
                digit_value(text[i]) * 4 + digit_value(text[i + 1]) / 16
            } else if k % 3 == 1 {
                digit_value(text[i + 1]) % 16 * 16 + digit_value(text[i + 2]) / 4
            } else {
                digit_value(text[i + 2]) % 4 * 64 + digit_value(text[i + 3])
            }
        }),
{
    let i = 4 * (k / 3);
    let n = bytes.len() as int;
    lemma_sextet_range(bytes, i);
    lemma_sextet_range(bytes, i + 1);
    lemma_sextet_range(bytes, i + 2);
    lemma_sextet_range(bytes, i + 3);
    lemma_digit_value(sextet(bytes, i));
    lemma_digit_value(sextet(bytes, i + 1));
    lemma_digit_value(sextet(bytes, i + 2));
    lemma_digit_value(sextet(bytes, i + 3));
}

/// Every place of the text behind the last digit holds `=`, and no other does.
pub proof fn law_base64_is_filled_up(bytes: Seq<u8>, i: int)
    requires
        0 <= i < base64_text(bytes).len(),
    ensures
        base64_text(bytes)[i] == '=' <==> 6 * i >= 8 * bytes.len(),
{
    lemma_sextet_range(bytes, i);
    lemma_digit_injective(sextet(bytes, i), 0);
}

} // verus!
