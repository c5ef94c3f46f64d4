//! Requests to save a received file: their layout, and the check sum that answers them.

use crate::header::le32;
use vstd::arithmetic::div_mod::{lemma_mod_multiples_vanish, lemma_mul_mod_noop_left};
use vstd::prelude::*;
use vstd::string::StringExecFns;
use vstd::utf8::{decode_utf8, encode_utf8, valid_utf8};

verus! {

/// The check sum of nothing.
pub const FNV_OFFSET: u32 = 0x811c_9dc5;

/// What the check sum is multiplied by for each byte.
pub const FNV_PRIME: u32 = 0x0100_0193;

/// The check sum `h`, taken one byte further.
pub open spec fn fnv_step(h: u32, b: u8) -> u32 {
    ((h ^ (b as u32)) * FNV_PRIME % 0x1_0000_0000) as u32
}

/// The check sum `h`, taken further over `data`.
pub open spec fn fnv_over(h: u32, data: Seq<u8>) -> u32
    decreases data.len(),
{
    if data.len() == 0 {
        h
    } else {
        fnv_step(fnv_over(h, data.drop_last()), data.last())
    }
}

/// The FNV-1a check sum of `data`.
pub open spec fn fnv_sum(data: Seq<u8>) -> u32 {
    fnv_over(FNV_OFFSET, data)
}

/// Computes the FNV-1a check sum, by which the front end sees whether its bytes arrived intact.
pub fn fnv1a(data: &[u8]) -> (h: u32)
    ensures
        h == fnv_sum(data@),
{
    let mut h: u32 = FNV_OFFSET;
    for i in 0..data.len()
        invariant
            h == fnv_over(FNV_OFFSET, data@.take(i as int)),
    {
        assert(data@.take(i + 1).drop_last() =~= data@.take(i as int));
        h = h ^ (data[i] as u32);
        h = h.wrapping_mul(FNV_PRIME);
    }
    assert(data@.take(data@.len() as int) =~= data@);
    h
}

/// Why a request to save a file was turned down.
pub enum WriteError {
    /// The request did not come as raw bytes.
    NotRaw,
    /// The request is too short to say how long its path is.
    TooShort,
    /// The path would reach past the end of the request.
    BadHeader,
    /// The path is no UTF-8, with what is to be said of it.
    BadPath(String),
}

impl WriteError {
    /// What is to be said of the error.
    pub open spec fn text(&self) -> Seq<char> {
        match self {
            WriteError::NotRaw => "expected a raw request body"@,
            WriteError::TooShort => "payload too short"@,
            WriteError::BadHeader => "invalid header length"@,
            WriteError::BadPath(e) => e@,
        }
    }

    /// Says what the error is.
    pub fn message(self) -> (text: String)
        ensures
            text@ == self.text(),
    {
        match self {
            WriteError::NotRaw => String::from_str("expected a raw request body"),
            WriteError::TooShort => String::from_str("payload too short"),
            WriteError::BadHeader => String::from_str("invalid header length"),
            WriteError::BadPath(e) => e,
        }
    }
}

/// What `std::str::from_utf8` has to say of bytes that are no UTF-8.
pub uninterp spec fn utf8_error_text(bytes: Seq<u8>) -> Seq<char>;

/// `std::str::from_utf8`. Trusted: the bytes are taken for a text exactly when they are UTF-8, and
/// the text is the one that they encode; otherwise what the error says depends on the bytes alone.
#[verifier::external_body]
fn text_of(bytes: &[u8]) -> (r: Result<&str, String>)
    ensures
        r is Ok <==> valid_utf8(bytes@),
        r matches Ok(s) ==> s@ == decode_utf8(bytes@),
        r matches Err(e) ==> e@ == utf8_error_text(bytes@),
{
    std::str::from_utf8(bytes).map_err(|e| format!("{e}"))
}

/// How long the path of a request is.
pub open spec fn path_len(bytes: Seq<u8>) -> int {
    le32(bytes[0], bytes[1], bytes[2], bytes[3]) as int
}

/// The bytes of a request's path.
pub open spec fn path_bytes(bytes: Seq<u8>) -> Seq<u8> {
    bytes.subrange(4, 4 + path_len(bytes))
}

/// The bytes of the file that a request brings.
pub open spec fn file_bytes(bytes: Seq<u8>) -> Seq<u8> {
    bytes.skip(4 + path_len(bytes))
}

/// Takes a request to save a file apart: the length of the path in four bytes, least significant
/// first, the path in UTF-8, and the bytes of the file.
pub fn parse_write_request<'a>(bytes: &'a [u8]) -> (r: Result<(&'a str, &'a [u8]), WriteError>)
    ensures
        match r {
            Ok((path, data)) => {
                &&& bytes@.len() >= 4
                &&& 4 + path_len(bytes@) <= bytes@.len()
                &&& valid_utf8(path_bytes(bytes@))
                &&& path@ == decode_utf8(path_bytes(bytes@))
                &&& data@ == file_bytes(bytes@)
            },
            Err(WriteError::NotRaw) => false,
            Err(WriteError::TooShort) => bytes@.len() < 4,
            Err(WriteError::BadHeader) => bytes@.len() >= 4 && 4 + path_len(bytes@) > bytes@.len(),
            Err(WriteError::BadPath(e)) => {
                &&& bytes@.len() >= 4
                &&& 4 + path_len(bytes@) <= bytes@.len()
                &&& !valid_utf8(path_bytes(bytes@))
                &&& e@ == utf8_error_text(path_bytes(bytes@))
            },
        },
{
    let len: usize = bytes.len();
    if len < 4 {
        return Err(WriteError::TooShort);
    }
    let n: u32 = bytes[0] as u32 + 256 * bytes[1] as u32 + 65536 * bytes[2] as u32 + 16777216
        * bytes[3] as u32;
    if n as u64 > len as u64 - 4 {
        return Err(WriteError::BadHeader);
    }
    let end: usize = 4 + n as usize;
    let path: &'a [u8] = vstd::slice::slice_subrange(bytes, 4, end);
    let data: &'a [u8] = vstd::slice::slice_subrange(bytes, end, len);
    assert(data@ =~= file_bytes(bytes@));
    match text_of(path) {
        Ok(path) => Ok((path, data)),
        Err(e) => Err(WriteError::BadPath(e)),
    }
}

/// What answers a request: where the file was saved, and the check sum of its bytes.
pub struct WriteResult {
    pub path: String,
    pub fnv: u32,
}

/// The answer to a request whose bytes were saved at `path`.
pub fn write_result(path: String, data: &[u8]) -> (r: WriteResult)
    ensures
        r.path == path,
        r.fnv == fnv_sum(data@),
{
    WriteResult { path, fnv: fnv1a(data) }
}

/// A request to save `data` at `path`.
pub open spec fn write_request(path: Seq<char>, data: Seq<u8>) -> Seq<u8> {
    let p = encode_utf8(path);
    let n = p.len();
    seq![
        (n % 256) as u8,
        (n / 256 % 256) as u8,
        (n / 65536 % 256) as u8,
        (n / 16777216) as u8,
    ] + p + data
}

/// What a request was made of is what is taken out of it.
pub proof fn law_request_reads_back(path: Seq<char>, data: Seq<u8>)
    requires
        encode_utf8(path).len() <= u32::MAX,
    ensures
        write_request(path, data).len() >= 4,
        4 + path_len(write_request(path, data)) <= write_request(path, data).len(),
        valid_utf8(path_bytes(write_request(path, data))),
        decode_utf8(path_bytes(write_request(path, data))) == path,
        file_bytes(write_request(path, data)) == data,
{
    broadcast use {vstd::utf8::encode_utf8_valid_utf8, vstd::utf8::encode_utf8_decode_utf8};

    let p = encode_utf8(path);
    let bytes = write_request(path, data);
    assert(path_len(bytes) == p.len());
    assert(path_bytes(bytes) =~= p);
    assert(file_bytes(bytes) =~= data);
}

/// The check sum of two pieces in a row is that of the first, taken further over the second.
pub proof fn law_fnv_over_pieces(h: u32, a: Seq<u8>, b: Seq<u8>)
    ensures
        fnv_over(h, a + b) == fnv_over(fnv_over(h, a), b),
    decreases b.len(),
{
    if b.len() == 0 {
        assert(a + b =~= a);
    } else {
        law_fnv_over_pieces(h, a, b.drop_last());
        assert((a + b).drop_last() =~= a + b.drop_last());
    }
}

/// A step of the check sum can be undone: it keeps different sums apart, and different bytes too.
proof fn lemma_fnv_step_injective(h: u32, k: u32, b: u8, c: u8)
    ensures
        h != k ==> fnv_step(h, b) != fnv_step(k, b),
        b != c ==> fnv_step(h, b) != fnv_step(h, c),
{
    let (bb, cc): (u32, u32) = (b as u32, c as u32);
    lemma_undo(h ^ bb);
    lemma_undo(k ^ bb);
    lemma_undo(h ^ cc);
    assert(h != k ==> h ^ bb != k ^ bb) by (bit_vector);
    assert(bb != cc ==> h ^ bb != h ^ cc) by (bit_vector);
}

/// Multiplication by the prime can be undone: the prime is odd.
proof fn lemma_undo(x: u32)
    ensures
        (x * FNV_PRIME % 0x1_0000_0000) * 0x359c_449b % 0x1_0000_0000 == x,
{
    let inverse: int = 0x359c_449b;
    lemma_mul_mod_noop_left(x * FNV_PRIME, inverse, 0x1_0000_0000);
    assert(x * FNV_PRIME * inverse == x + 0x1_0000_0000 * (3513497 * x)) by (nonlinear_arith)
        requires
            inverse == 0x359c_449b,
            FNV_PRIME == 0x0100_0193,
    ;
    lemma_mod_multiples_vanish(3513497 * x, x as int, 0x1_0000_0000);
}

/// Check sums that differ still differ after the same bytes.
proof fn lemma_fnv_over_injective(h: u32, k: u32, data: Seq<u8>)
    requires
        h != k,
    ensures
        fnv_over(h, data) != fnv_over(k, data),
    decreases data.len(),
{
    if data.len() > 0 {
        lemma_fnv_over_injective(h, k, data.drop_last());
        lemma_fnv_step_injective(
            fnv_over(h, data.drop_last()),
            fnv_over(k, data.drop_last()),
            data.last(),
            data.last(),
        );
    }
}

/// A single byte that was damaged on the way always shows in the check sum.
pub proof fn law_fnv_shows_a_damaged_byte(data: Seq<u8>, i: int, b: u8)
    requires
        0 <= i < data.len(),
        data[i] != b,
    ensures
        fnv_sum(data.update(i, b)) != fnv_sum(data),
{
    let head = data.take(i);
    let tail = data.skip(i + 1);
    let h = fnv_over(FNV_OFFSET, head);
    assert(data =~= head.push(data[i]) + tail);
    assert(data.update(i, b) =~= head.push(b) + tail);
    law_fnv_over_pieces(FNV_OFFSET, head.push(data[i]), tail);
    law_fnv_over_pieces(FNV_OFFSET, head.push(b), tail);
    assert(head.push(data[i]).drop_last() =~= head);
    assert(head.push(b).drop_last() =~= head);
    lemma_fnv_step_injective(h, h, data[i], b);
    lemma_fnv_over_injective(fnv_step(h, data[i]), fnv_step(h, b), tail);
}

/// The check sum of nothing is where every check sum begins.
pub proof fn law_fnv_of_nothing()
    ensures
        fnv_sum(Seq::<u8>::empty()) == 0x811c_9dc5,
        forall|h: u32| #[trigger] fnv_over(h, Seq::<u8>::empty()) == h,
{
}

/// A byte changes only the low eight bits of the check sum before it is multiplied, whichever of the
/// 256 bytes it is: with those bits clear the byte is simply added.
pub proof fn law_fnv_mixes_in_one_byte(h: u32, b: u8)
    ensures
        fnv_over(h, seq![b]) as int == (h as int - h as int % 256 + (((h % 256) as u32) ^ (b as u32)) as int)
            * 0x0100_0193 % 0x1_0000_0000,
        h % 256 == 0 ==> fnv_over(h, seq![b]) as int == (h as int + b as int) * 0x0100_0193
            % 0x1_0000_0000,
        (((h % 256) as u32) ^ (b as u32)) < 256,
{
    let x: u32 = b as u32;
    let low: u32 = (h % 256) as u32;
    let high: u32 = (h - low) as u32;
    assert(seq![b].drop_last() =~= Seq::empty());
    assert(seq![b].last() == b);
    reveal_with_fuel(fnv_over, 2);
    assert(h ^ x == high + (low ^ x)) by (bit_vector)
        requires
            x < 256,
            low == h % 256,
            high == h - low,
    ;
    assert(low ^ x < 256) by (bit_vector)
        requires
            x < 256,
            low < 256,
    ;
    assert(low == 0 ==> low ^ x == x) by (bit_vector);
}

/// The check sum of a longer file goes on from that of its beginning, byte by byte.
pub proof fn law_fnv_goes_on_from_the_beginning(data: Seq<u8>, b: u8)
    ensures
        fnv_sum(data.push(b)) == fnv_over(fnv_sum(data), seq![b]),
{
    assert(data.push(b) =~= data + seq![b]);
    law_fnv_over_pieces(FNV_OFFSET, data, seq![b]);
}

/// The four bytes in front say how long the path is, low byte first; the path follows them, and the
/// file is all that follows the path: no byte is left out and none is taken twice.
pub proof fn law_request_is_length_path_and_file(bytes: Seq<u8>)
    requires
        bytes.len() >= 4,
        4 + bytes[0] + 256 * bytes[1] + 65536 * bytes[2] + 16777216 * bytes[3] <= bytes.len(),
    ensures
        path_len(bytes) == bytes[0] + 256 * bytes[1] + 65536 * bytes[2] + 16777216 * bytes[3],
        path_bytes(bytes).len() == bytes[0] + 256 * bytes[1] + 65536 * bytes[2] + 16777216
            * bytes[3],
        path_bytes(bytes) + file_bytes(bytes) == bytes.skip(4),
{
    assert(path_bytes(bytes) + file_bytes(bytes) =~= bytes.skip(4));
}

} // verus!
