//! What a QR reader reports of a code, and the raw bytes that the code carries.

use vstd::prelude::*;

verus! {

/// Byte strings, each by its contents.
pub open spec fn byte_strings(v: Seq<Vec<u8>>) -> Seq<Seq<u8>> {
    v.map_values(|p: Vec<u8>| p@)
}

/// A code that a reader found and decoded.
pub struct QrRead {
    /// The byte-mode segments as they stand in the code, where the reader reports them.
    pub segments: Option<Vec<Vec<u8>>>,
    /// The text of the code.
    pub text: Vec<char>,
}

impl View for QrRead {
    type V = (Option<Seq<Seq<u8>>>, Seq<char>);

    open spec fn view(&self) -> (Option<Seq<Seq<u8>>>, Seq<char>) {
        (
            match self.segments {
                Some(segments) => Some(byte_strings(segments@)),
                None => None,
            },
            self.text@,
        )
    }
}

/// What a reader reports of an image, by its contents.
pub open spec fn read_view(r: Option<QrRead>) -> Option<(Option<Seq<Seq<u8>>>, Seq<char>)> {
    match r {
        Some(q) => Some(q@),
        None => None,
    }
}

/// The byte that a character of a byte-mode text stands for.
pub open spec fn latin1_byte(c: char) -> u8 {
    (c as u32 % 256) as u8
}

/// The payloads of a code: the segments in one piece where the reader reports any, or else the text
/// byte by byte. A code with neither carries no payload.
pub open spec fn payloads(read: (Option<Seq<Seq<u8>>>, Seq<char>)) -> Seq<Seq<u8>> {
    if read.0 is Some && read.0->0.len() > 0 {
        seq![read.0->0.flatten()]
    } else if read.1.len() > 0 {
        seq![read.1.map_values(|c: char| latin1_byte(c))]
    } else {
        Seq::empty()
    }
}

/// Joins byte strings into one.
fn concat(parts: &Vec<Vec<u8>>) -> (out: Vec<u8>)
    ensures
        out@ == byte_strings(parts@).flatten(),
{
    let mut out: Vec<u8> = Vec::new();
    let ghost all = byte_strings(parts@);
    assert(all.take(0).flatten() =~= Seq::empty());
    for i in 0..parts.len()
        invariant
            all == byte_strings(parts@),
            out@ == all.take(i as int).flatten(),
    {
        out.extend_from_slice(parts[i].as_slice());
        proof {
            all.take(i as int).lemma_flatten_push(parts[i as int]@);
            assert(all.take(i + 1) =~= all.take(i as int).push(parts[i as int]@));
            assert(out@ =~= all.take(i as int).flatten() + parts[i as int]@);
        }
    }
    assert(all.take(parts@.len() as int) =~= all);
    out
}

/// Turns a byte-mode text back into its bytes.
fn latin1_bytes(text: &Vec<char>) -> (out: Vec<u8>)
    ensures
        out@ == text@.map_values(|c: char| latin1_byte(c)),
{
    let mut out: Vec<u8> = Vec::with_capacity(text.len());
    for i in 0..text.len()
        invariant
            out@ == text@.take(i as int).map_values(|c: char| latin1_byte(c)),
    {
        let code: u32 = text[i] as u32;
        assert(code as u8 == code % 256) by (bit_vector);
        out.push(code as u8);
        assert(out@ =~= text@.take(i + 1).map_values(|c: char| latin1_byte(c)));
    }
    assert(text@.take(text@.len() as int) =~= text@);
    out
}

/// Pulls the raw bytes out of a decoded code. Prefers the byte segments, which no character set has
/// touched; falls back on the text, whose characters each stand for one byte.
pub fn extract_payload(read: &QrRead) -> (out: Vec<Vec<u8>>)
    ensures
        byte_strings(out@) == payloads(read@),
{
    let mut out: Vec<Vec<u8>> = Vec::new();
    if let Some(segments) = &read.segments {
        if segments.len() > 0 {
            out.push(concat(segments));
            assert(byte_strings(out@) =~= payloads(read@));
            return out;
        }
    }
    if read.text.len() > 0 {
        out.push(latin1_bytes(&read.text));
    }
    assert(byte_strings(out@) =~= payloads(read@));
    out
}

/// A byte-mode text gives back the bytes that it was made of, one for each character.
pub proof fn law_text_reads_back(bytes: Seq<u8>)
    ensures
        payloads((None, bytes.map_values(|b: u8| b as char))) == if bytes.len() == 0 {
            Seq::empty()
        } else {
            seq![bytes]
        },
{
    let text = bytes.map_values(|b: u8| b as char);
    assert(text.map_values(|c: char| latin1_byte(c)) =~= bytes);
}

/// Where the reader reports byte segments, the payload is those and nothing else: the text, which
/// went through a character set, has no part in it.
pub proof fn law_segments_come_first(segments: Seq<Seq<u8>>, text: Seq<char>)
    requires
        segments.len() > 0,
    ensures
        payloads((Some(segments), text)) == seq![segments.flatten()],
{
}

/// The payload of a text has a byte for each character, the low eight bits of its number.
pub proof fn law_text_gives_a_byte_for_each_character(text: Seq<char>, i: int)
    requires
        0 <= i < text.len(),
    ensures
        payloads((None, text)).len() == 1,
        payloads((None, text))[0].len() == text.len(),
        payloads((None, text))[0][i] as int == text[i] as u32 % 256,
        payloads((Some(Seq::<Seq<u8>>::empty()), text)) == payloads((None, text)),
{
}

/// A code with neither segments nor text carries nothing.
pub proof fn law_bare_codes_carry_nothing()
    ensures
        payloads((None, Seq::empty())).len() == 0,
        payloads((Some(Seq::<Seq<u8>>::empty()), Seq::empty())).len() == 0,
{
}

} // verus!
