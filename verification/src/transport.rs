//! The text form in which messages travel: compressed, then in base64.
use crate::text::{blank, chars_of, lemma_trimmed_keeps, replaced, trim_bounds, trimmed};
use crate::wire::{ThriftError, ThriftFault};
use base64::engine::general_purpose::STANDARD;
use base64::Engine;
use bzip2::read::BzDecoder;
use bzip2::write::BzEncoder;
use bzip2::Compression;
use std::io::{Read, Write};
use vstd::prelude::*;

verus! {

/// The largest decompressed payload that is accepted.
pub const MAX_DECOMPRESSED_BYTES: usize = 32 * 1024 * 1024;

/// Why a stream could not be written.
#[verifier::external_type_specification]
#[verifier::external_body]
pub struct ExIoError(std::io::Error);

/// The symbol of the standard base64 alphabet for a number below 64.
pub open spec fn base64_symbol(n: int) -> char {
    if n < 26 {
        ('A' as int + n) as char
    } else if n < 52 {
        ('a' as int + n - 26) as char
    } else if n < 62 {
        ('0' as int + n - 52) as char
    } else if n == 62 {
        '+'
    } else {
        '/'
    }
}

/// A byte, or zero behind the last one.
pub open spec fn byte_or_zero(raw: Seq<u8>, i: int) -> int {
    if i < raw.len() {
        raw[i] as int
    } else {
        0
    }
}

/// The three bytes at a place as one number.
pub open spec fn three_bytes(raw: Seq<u8>, at: int) -> int {
    byte_or_zero(raw, at) * 65536 + byte_or_zero(raw, at + 1) * 256 + byte_or_zero(raw, at + 2)
}

/// One of the four groups of six bits, from the highest, in the three bytes at a
/// place.
pub open spec fn six_bits(raw: Seq<u8>, at: int, number: int) -> int {
    let bits = three_bytes(raw, at);
    if number == 0 {
        bits / 262144
    } else if number == 1 {
        bits / 4096 % 64
    } else if number == 2 {
        bits / 64 % 64
    } else {
        bits % 64
    }
}

/// Bytes in base64 with the standard alphabet: four symbols for three bytes, and
/// padding for symbols without a bit of a byte.
pub open spec fn base64_text(raw: Seq<u8>) -> Seq<char> {
    Seq::new(
        4 * ((raw.len() + 2) / 3),
        |i: int|
            if i % 4 > raw.len() - 3 * (i / 4) {
                '='
            } else {
                base64_symbol(six_bits(raw, 3 * (i / 4), i % 4))
            },
    )
}

/// The bytes that a text is the base64 of, or nothing where there are none.
pub open spec fn base64_bytes(text: Seq<char>) -> Option<Seq<u8>> {
    if exists|raw: Seq<u8>| #[trigger] base64_text(raw) == text {
        Some(choose|raw: Seq<u8>| #[trigger] base64_text(raw) == text)
    } else {
        None
    }
}

/// The stream that `bzip2` makes of bytes at its best compression.
pub uninterp spec fn bzip2_stream(raw: Seq<u8>) -> Seq<u8>;

/// The first bytes, at most `limit`, of what `bzip2` finds in a stream, or what it
/// says where it reports an error before that many were read.
pub uninterp spec fn bzip2_prefix(stream: Seq<u8>, limit: u64) -> Result<Seq<u8>, Seq<char>>;

/// What `base64`'s standard engine says of a text that it does not decode.
pub uninterp spec fn base64_complaint(text: Seq<char>) -> Seq<char>;

/// A character of the standard base64 alphabet, or its padding.
pub open spec fn base64_char(c: char) -> bool {
    'A' <= c <= 'Z' || 'a' <= c <= 'z' || '0' <= c <= '9' || c == '+' || c == '/' || c == '='
}

/// Whether a text is made of such characters.
pub open spec fn base64_texted(text: Seq<char>) -> bool {
    forall|i: int| 0 <= i < text.len() ==> base64_char(#[trigger] text[i])
}

/// `Engine::encode` of `base64` with the standard engine: base64 with the standard
/// alphabet and padding.
#[verifier::external_body]
fn base64_encode(raw: &Vec<u8>) -> (text: String)
    ensures
        text@ == base64_text(raw@),
{
    STANDARD.encode(raw)
}

/// `Engine::decode` of `base64` with the standard engine: it takes exactly the
/// texts that encoding makes, with their padding and no bit beyond the last byte.
/// An error is handed on as the text that it displays.
#[verifier::external_body]
fn base64_decode(text: &String) -> (r: Result<Vec<u8>, String>)
    ensures
        match r {
            Ok(bytes) => base64_text(bytes@) == text@,
            Err(complaint) => complaint@ == base64_complaint(text@) && forall|raw: Seq<u8>|
                #[trigger] base64_text(raw) != text@,
        },
{
    match STANDARD.decode(text) {
        Ok(bytes) => Ok(bytes),
        Err(error) => Err(error.to_string()),
    }
}

proof fn lemma_symbols_differ(a: int, b: int)
    requires
        0 <= a < 64,
        0 <= b < 64,
        base64_symbol(a) == base64_symbol(b),
    ensures
        a == b,
{
}

proof fn lemma_symbol(n: int)
    requires
        0 <= n < 64,
    ensures
        base64_char(base64_symbol(n)),
        base64_symbol(n) != '=',
{
}

proof fn lemma_six_bits(raw: Seq<u8>, at: int, number: int)
    requires
        0 <= at,
    ensures
        0 <= six_bits(raw, at, number) < 64,
{
}

/// A number is the sum of its groups of six bits.
proof fn lemma_sum_of_bits(raw: Seq<u8>, at: int)
    requires
        0 <= at,
    ensures
        three_bytes(raw, at) == six_bits(raw, at, 0) * 262144 + six_bits(raw, at, 1) * 4096
            + six_bits(raw, at, 2) * 64 + six_bits(raw, at, 3),
{
    let bits = three_bytes(raw, at);
    assert(bits / 64 / 64 == bits / 4096);
    assert(bits / 4096 / 64 == bits / 262144);
}

proof fn lemma_bytes_of_sum(a2: int, a1: int, a0: int, b2: int, b1: int, b0: int)
    requires
        0 <= a0 < 256,
        0 <= a1 < 256,
        0 <= b0 < 256,
        0 <= b1 < 256,
        a2 * 65536 + a1 * 256 + a0 == b2 * 65536 + b1 * 256 + b0,
    ensures
        a2 == b2,
        a1 == b1,
        a0 == b0,
{
}

/// Three bytes are known by their four groups of six bits.
proof fn lemma_bytes_of_bits(a: Seq<u8>, b: Seq<u8>, at: int)
    requires
        0 <= at,
        six_bits(a, at, 0) == six_bits(b, at, 0),
        six_bits(a, at, 1) == six_bits(b, at, 1),
        six_bits(a, at, 2) == six_bits(b, at, 2),
        six_bits(a, at, 3) == six_bits(b, at, 3),
    ensures
        byte_or_zero(a, at) == byte_or_zero(b, at),
        byte_or_zero(a, at + 1) == byte_or_zero(b, at + 1),
        byte_or_zero(a, at + 2) == byte_or_zero(b, at + 2),
{
    assert(three_bytes(a, at) == three_bytes(b, at)) by {
        lemma_sum_of_bits(a, at);
        lemma_sum_of_bits(b, at);
    }
    lemma_bytes_of_sum(
        byte_or_zero(a, at),
        byte_or_zero(a, at + 1),
        byte_or_zero(a, at + 2),
        byte_or_zero(b, at),
        byte_or_zero(b, at + 1),
        byte_or_zero(b, at + 2),
    );
}

/// Groups of six bits without a bit of a byte are zero.
proof fn lemma_padding_bits(raw: Seq<u8>, at: int, number: int)
    requires
        0 <= at < raw.len(),
        raw.len() - at < number < 4,
    ensures
        six_bits(raw, at, number) == 0,
{
}

/// Different bytes have different texts.
pub proof fn law_base64_tells_apart(a: Seq<u8>, b: Seq<u8>)
    requires
        base64_text(a) == base64_text(b),
    ensures
        a == b,
{
    let text = base64_text(a);
    assert(text.len() == base64_text(b).len());
    assert((a.len() + 2) / 3 == (b.len() + 2) / 3);
    assert forall|at: int, n: int| 0 <= at < a.len() && at % 3 == 0 && 0 <= n < 4 implies (n
        > a.len() - at <==> n > b.len() - at) && six_bits(a, at, n) == #[trigger] six_bits(
        b,
        at,
        n,
    ) by {
        let i = 4 * (at / 3) + n;
        assert(i / 4 == at / 3 && i % 4 == n);
        assert(at < b.len());
        assert(0 <= i < text.len());
        assert(base64_text(a)[i] == base64_text(b)[i]);
        lemma_six_bits(a, at, n);
        lemma_six_bits(b, at, n);
        lemma_symbol(six_bits(a, at, n));
        lemma_symbol(six_bits(b, at, n));
        if n > a.len() - at {
            lemma_padding_bits(a, at, n);
            lemma_padding_bits(b, at, n);
        } else {
            lemma_symbols_differ(six_bits(a, at, n), six_bits(b, at, n));
        }
    }
    if a.len() > 0 {
        let at = 3 * ((a.len() - 1) / 3);
        assert(six_bits(a, at, 2) == six_bits(b, at, 2));
        assert(six_bits(a, at, 3) == six_bits(b, at, 3));
        assert(a.len() == b.len());
    }
    assert forall|i: int| 0 <= i < a.len() implies a[i] == b[i] by {
        let at = 3 * (i / 3);
        assert(at % 3 == 0 && 0 <= at <= i);
        assert(six_bits(a, at, 0) == six_bits(b, at, 0));
        assert(six_bits(a, at, 1) == six_bits(b, at, 1));
        assert(six_bits(a, at, 2) == six_bits(b, at, 2));
        assert(six_bits(a, at, 3) == six_bits(b, at, 3));
        lemma_bytes_of_bits(a, b, at);
        assert(i == at || i == at + 1 || i == at + 2);
    }
    assert(a =~= b);
}

/// What a text was made of is what is found in it.
proof fn lemma_base64_round_trip(raw: Seq<u8>)
    ensures
        base64_bytes(base64_text(raw)) == Some(raw),
{
    let text = base64_text(raw);
    let found = choose|other: Seq<u8>| #[trigger] base64_text(other) == text;
    assert(base64_text(found) == text);
    law_base64_tells_apart(found, raw);
}

proof fn lemma_base64_chars(raw: Seq<u8>)
    ensures
        base64_texted(base64_text(raw)),
        raw.len() > 0 ==> base64_text(raw).len() > 0 && base64_text(raw)[0] == base64_symbol(
            raw[0] as int / 4,
        ),
{
    let text = base64_text(raw);
    assert forall|i: int| 0 <= i < text.len() implies base64_char(#[trigger] text[i]) by {
        lemma_six_bits(raw, 3 * (i / 4), i % 4);
        lemma_symbol(six_bits(raw, 3 * (i / 4), i % 4));
    }
}

/// Bytes read up to a limit.
pub open spec fn first_bytes(raw: Seq<u8>, limit: u64) -> Result<Seq<u8>, Seq<char>> {
    if raw.len() <= limit {
        Ok(raw)
    } else {
        Ok(raw.take(limit as int))
    }
}

/// `write::BzEncoder` of `bzip2` at its best compression, writing to memory: it
/// always makes a stream, which begins with a capital B, and reading the stream with
/// a limit gives back the bytes up to that limit.
#[verifier::external_body]
fn bzip2_compress(raw: &[u8]) -> (r: Result<Vec<u8>, std::io::Error>)
    ensures
        r is Ok,
        r->Ok_0@ == bzip2_stream(raw@),
        r->Ok_0@.len() > 0 && r->Ok_0@[0] == 0x42,
        forall|limit: u64| #[trigger]
            bzip2_prefix(r->Ok_0@, limit) == first_bytes(raw@, limit),
{
    let mut encoder = BzEncoder::new(Vec::new(), Compression::best());
    encoder.write_all(raw)?;
    encoder.finish()
}

/// `read::BzDecoder` of `bzip2` over a stream in memory, read to its end or to
/// the limit, whichever comes first. An error is handed on as the text that it
/// displays.
#[verifier::external_body]
fn bzip2_decompress(stream: &Vec<u8>, limit: u64) -> (r: Result<Vec<u8>, String>)
    ensures
        match r {
            Ok(bytes) => bzip2_prefix(stream@, limit) == Ok::<Seq<u8>, Seq<char>>(bytes@)
                && bytes@.len() <= limit,
            Err(complaint) => bzip2_prefix(stream@, limit) == Err::<Seq<u8>, Seq<char>>(
                complaint@,
            ),
        },
{
    let mut raw = Vec::new();
    match BzDecoder::new(stream.as_slice()).take(limit).read_to_end(&mut raw) {
        Ok(_) => Ok(raw),
        Err(error) => Err(error.to_string()),
    }
}

/// A received text without white space at its ends, and with the plus signs
/// that a form decoder has turned into spaces.
pub open spec fn normalized(encoded: Seq<char>) -> Seq<char> {
    replaced(trimmed(encoded), ' ', '+')
}

/// Whether a decompressed payload is accepted.
pub open spec fn payload(raw: Seq<u8>) -> Result<Seq<u8>, ThriftFault> {
    if raw.len() > MAX_DECOMPRESSED_BYTES {
        Err(ThriftFault::PayloadTooLarge)
    } else if raw.len() == 0 {
        Err(ThriftFault::EmptyPayload)
    } else {
        Ok(raw)
    }
}

/// The payload of a received text.
pub open spec fn decoded(encoded: Seq<char>) -> Result<Seq<u8>, ThriftFault> {
    if normalized(encoded).len() == 0 {
        Err(ThriftFault::EmptyPayload)
    } else {
        match base64_bytes(normalized(encoded)) {
            None => Err(ThriftFault::Base64(base64_complaint(normalized(encoded)))),
            Some(stream) => match bzip2_prefix(stream, (MAX_DECOMPRESSED_BYTES + 1) as u64) {
                Err(complaint) => Err(ThriftFault::Io(complaint)),
                Ok(raw) => payload(raw),
            },
        }
    }
}

/// The bytes of a result.
pub open spec fn bytes_result(r: Result<Vec<u8>, ThriftError>) -> Result<Seq<u8>, ThriftFault> {
    match r {
        Ok(bytes) => Ok(bytes@),
        Err(e) => Err(e@),
    }
}

pub fn normalize(encoded: &str) -> (text: String)
    ensures
        text@ == normalized(encoded@),
{
    let v = chars_of(encoded);
    let (a, b) = trim_bounds(&v);
    let ghost middle = v@.subrange(a as int, b as int);
    let mut text = String::new();
    let mut i: usize = a;
    while i < b
        invariant
            a <= i <= b <= v@.len(),
            text@ == replaced(v@.subrange(a as int, i as int), ' ', '+'),
        decreases b - i,
    {
        let c = v[i];
        text.push(
            if c == ' ' {
                '+'
            } else {
                c
            },
        );
        i = i + 1;
        proof {
            assert(text@ =~= replaced(v@.subrange(a as int, i as int), ' ', '+'));
        }
    }
    text
}

/// Accepts a decompressed payload that is neither empty nor too large.
pub fn accept_payload(raw: Vec<u8>) -> (r: Result<Vec<u8>, ThriftError>)
    ensures
        bytes_result(r) == payload(raw@),
{
    if raw.len() > MAX_DECOMPRESSED_BYTES {
        Err(ThriftError::PayloadTooLarge)
    } else if raw.len() == 0 {
        Err(ThriftError::EmptyPayload)
    } else {
        Ok(raw)
    }
}

/// The message in a received text.
pub fn decode_transport(encoded: &str) -> (r: Result<Vec<u8>, ThriftError>)
    ensures
        bytes_result(r) == decoded(encoded@),
{
    let text = normalize(encoded);
    if text.as_str().is_empty() {
        return Err(ThriftError::EmptyPayload);
    }
    let stream = match base64_decode(&text) {
        Ok(stream) => {
            proof {
                lemma_base64_round_trip(stream@);
            }
            stream
        },
        Err(complaint) => {
            return Err(ThriftError::Base64(complaint));
        },
    };
    match bzip2_decompress(&stream, MAX_DECOMPRESSED_BYTES as u64 + 1) {
        Ok(raw) => accept_payload(raw),
        Err(complaint) => Err(ThriftError::Io(complaint)),
    }
}

/// The text that carries a message. Decoding it gives back the message, where
/// that is not larger than a receiver accepts.
pub fn encode_transport(raw: &[u8]) -> (r: Result<String, ThriftError>)
    ensures
        match r {
            Ok(text) => {
                &&& raw@.len() > 0
                &&& text@ == base64_text(bzip2_stream(raw@))
                &&& decoded(text@) == payload(raw@)
                &&& base64_texted(text@)
                &&& text@.len() > 0 && text@[0] == 'Q'
            },
            Err(e) => e == ThriftError::EmptyPayload && raw@.len() == 0,
        },
{
    if raw.len() == 0 {
        return Err(ThriftError::EmptyPayload);
    }
    match bzip2_compress(raw) {
        Ok(stream) => {
            let text = base64_encode(&stream);
            proof {
                lemma_base64_round_trip(stream@);
                lemma_base64_chars(stream@);
                lemma_normalized(Seq::empty(), text@, Seq::empty());
                assert(Seq::<char>::empty() + text@ + Seq::<char>::empty() =~= text@);
            }
            Ok(text)
        },
        Err(_) => Err(ThriftError::Io(String::new())),
    }
}

proof fn lemma_normalized(before: Seq<char>, text: Seq<char>, after: Seq<char>)
    requires
        blank(before),
        blank(after),
        base64_texted(text),
    ensures
        normalized(before + text + after) == text,
{
    if text.len() > 0 {
        assert(base64_char(text[0]));
        assert(base64_char(text[text.len() - 1]));
    }
    lemma_trimmed_keeps(before, text, after);
    assert forall|i: int| 0 <= i < text.len() implies text[i] != ' ' by {
        assert(base64_char(text[i]));
    }
    assert(replaced(text, ' ', '+') =~= text);
}

/// A text as a form decoder hands it on, with its plus signs turned into spaces.
pub open spec fn form_decoded(text: Seq<char>) -> Seq<char> {
    replaced(text, '+', ' ')
}

/// White space around a text makes no difference.
pub proof fn law_white_space_around(before: Seq<char>, text: Seq<char>, after: Seq<char>)
    requires
        blank(before),
        blank(after),
        base64_texted(text),
    ensures
        decoded(before + text + after) == decoded(text),
{
    lemma_normalized(before, text, after);
    lemma_normalized(Seq::empty(), text, Seq::empty());
    assert(Seq::<char>::empty() + text + Seq::<char>::empty() =~= text);
}

/// Plus signs that a form decoder has turned into spaces make no difference, also
/// with white space around the text, where none of them stands at its ends.
pub proof fn law_form_decoding(before: Seq<char>, text: Seq<char>, after: Seq<char>)
    requires
        blank(before),
        blank(after),
        base64_texted(text),
        text.len() > 0 ==> text[0] != '+' && text.last() != '+',
    ensures
        decoded(before + form_decoded(text) + after) == decoded(text),
{
    let sent = form_decoded(text);
    if text.len() > 0 {
        assert(base64_char(text[0]));
        assert(base64_char(text[text.len() - 1]));
        assert(sent[0] == text[0]);
        assert(sent.last() == text.last());
    }
    lemma_trimmed_keeps(before, sent, after);
    assert forall|i: int| 0 <= i < text.len() implies text[i] != ' ' by {
        assert(base64_char(text[i]));
    }
    assert(replaced(sent, ' ', '+') =~= text);
    lemma_normalized(Seq::empty(), text, Seq::empty());
    assert(Seq::<char>::empty() + text + Seq::<char>::empty() =~= text);
}

/// A text of white space alone carries no message.
pub proof fn law_blank_is_empty(text: Seq<char>)
    requires
        blank(text),
    ensures
        decoded(text) == Err::<Seq<u8>, ThriftFault>(ThriftFault::EmptyPayload),
{
    lemma_normalized(text, Seq::empty(), Seq::empty());
    assert(text + Seq::<char>::empty() + Seq::<char>::empty() =~= text);
}

} // verus!
