use vstd::prelude::*;
use vstd::utf8::{
    decode_first_scalar, encode_scalar, is_scalar, length_of_first_scalar, valid_first_scalar,
};

verus! {

/// Raw bytes 0x80-0xFF that are not part of valid UTF-8 are carried as the
/// private-use characters U+E080-U+E0FF (byte 0xHH is U+E0HH).
pub open spec fn is_byte_char(c: char) -> bool {
    0xE080 <= (c as u32) <= 0xE0FF
}

/// The bytes one character stands for: its raw byte if it is a byte
/// character, its UTF-8 encoding otherwise.
pub open spec fn char_bytes(c: char) -> Seq<u8> {
    if is_byte_char(c) {
        seq![((c as u32) - 0xE000) as u8]
    } else {
        encode_scalar(c as u32)
    }
}

/// The bytes a shell string stands for.
pub open spec fn spec_str_to_bytes(s: Seq<char>) -> Seq<u8>
    decreases s.len(),
{
    if s.len() == 0 {
        Seq::empty()
    } else {
        char_bytes(s[0]) + spec_str_to_bytes(s.drop_first())
    }
}

/// The bytes of joined texts are the bytes of each, joined.
pub proof fn lemma_str_to_bytes_concat(a: Seq<char>, b: Seq<char>)
    ensures
        spec_str_to_bytes(a + b) == spec_str_to_bytes(a) + spec_str_to_bytes(b),
    decreases a.len(),
{
    if a.len() == 0 {
        assert(a + b =~= b);
        assert(Seq::<u8>::empty() + spec_str_to_bytes(b) =~= spec_str_to_bytes(b));
    } else {
        lemma_str_to_bytes_concat(a.drop_first(), b);
        assert((a + b).drop_first() =~= a.drop_first() + b);
        assert((a + b)[0] == a[0]);
        assert(char_bytes(a[0]) + (spec_str_to_bytes(a.drop_first()) + spec_str_to_bytes(b)) =~= (char_bytes(a[0])
            + spec_str_to_bytes(a.drop_first())) + spec_str_to_bytes(b));
    }
}

/// The character a raw byte 0x80-0xFF is carried as.
pub open spec fn byte_char(b: u8) -> char {
    (0xE000u32 + b as u32) as char
}

proof fn lemma_first_scalar_len(bytes: Seq<u8>)
    requires
        valid_first_scalar(bytes),
    ensures
        1 <= length_of_first_scalar(bytes) <= bytes.len(),
{
}

/// The shell string for raw bytes: each valid UTF-8 sequence becomes its
/// character, each other byte becomes its byte character.
pub open spec fn spec_bytes_to_str(b: Seq<u8>) -> Seq<char>
    decreases b.len(),
{
    if b.len() == 0 {
        Seq::empty()
    } else if valid_first_scalar(b) {
        seq![decode_first_scalar(b) as char] + spec_bytes_to_str(
            b.subrange(length_of_first_scalar(b), b.len() as int),
        )
    } else {
        seq![byte_char(b[0])] + spec_bytes_to_str(b.drop_first())
    }
}

/// The character with scalar value `v` (std's `char::from_u32`).
#[verifier::external_body]
fn char_from_scalar(v: u32) -> (c: char)
    requires
        is_scalar(v),
    ensures
        c as u32 == v,
{
    match char::from_u32(v) {
        Some(c) => c,
        None => '\u{FFFD}',
    }
}

fn is_cont(b: u8) -> (r: bool)
    ensures
        r == vstd::utf8::is_continuation_byte(b),
{
    0x80 <= b && b <= 0xbf
}

/// Decode the scalar at the start of `b[i..]`: its value and length in
/// bytes, or `None` when no valid UTF-8 scalar starts there.
fn decode_at(b: &[u8], i: usize) -> (r: Option<(u32, usize)>)
    requires
        i < b.len(),
    ensures
        r is Some <==> valid_first_scalar(b@.subrange(i as int, b@.len() as int)),
        r matches Some((v, n)) ==> v == decode_first_scalar(b@.subrange(i as int, b@.len() as int))
            && n == length_of_first_scalar(b@.subrange(i as int, b@.len() as int))
            && 1 <= n <= b.len() - i && is_scalar(v),
{
    let ghost s = b@.subrange(i as int, b@.len() as int);
    let rem = b.len() - i;
    let b0 = b[i];
    assert(s[0] == b0);
    if b0 <= 0x7f {
        let v = (b0 & 0x7F) as u32;
        assert(v <= 0x7f) by (bit_vector) requires v == (b0 & 0x7F) as u32;
        return Some((v, 1));
    }
    if 0xc0 <= b0 && b0 <= 0xdf {
        if rem < 2 {
            return None;
        }
        let b1 = b[i + 1];
        assert(s[1] == b1);
        if !is_cont(b1) {
            return None;
        }
        let v: u32 = (((b0 & 0x1F) as u32) << 6) | ((b1 & 0x3F) as u32);
        assert(v <= 0x7ff) by (bit_vector) requires v == (((b0 & 0x1F) as u32) << 6) | ((b1 & 0x3F) as u32);
        if v < 0x80 {
            return None;
        }
        return Some((v, 2));
    }
    if 0xe0 <= b0 && b0 <= 0xef {
        if rem < 3 {
            return None;
        }
        let b1 = b[i + 1];
        let b2 = b[i + 2];
        assert(s[1] == b1);
        assert(s[2] == b2);
        if !is_cont(b1) || !is_cont(b2) {
            return None;
        }
        let v: u32 = (((b0 & 0x0F) as u32) << 12) | (((b1 & 0x3F) as u32) << 6) | ((b2 & 0x3F) as u32);
        assert(v <= 0xffff) by (bit_vector) requires v == (((b0 & 0x0F) as u32) << 12) | (((b1 & 0x3F) as u32) << 6) | ((b2 & 0x3F) as u32);
        if v < 0x800 || (0xD800 <= v && v <= 0xDFFF) {
            return None;
        }
        return Some((v, 3));
    }
    if 0xf0 <= b0 && b0 <= 0xf7 {
        if rem < 4 {
            return None;
        }
        let b1 = b[i + 1];
        let b2 = b[i + 2];
        let b3 = b[i + 3];
        assert(s[1] == b1);
        assert(s[2] == b2);
        assert(s[3] == b3);
        if !is_cont(b1) || !is_cont(b2) || !is_cont(b3) {
            return None;
        }
        let v: u32 = (((b0 & 0x07) as u32) << 18) | (((b1 & 0x3F) as u32) << 12) | (((b2 & 0x3F) as u32) << 6) | ((b3 & 0x3F) as u32);
        if v < 0x10000 || v > 0x10FFFF {
            return None;
        }
        return Some((v, 4));
    }
    None
}

/// Decode raw bytes into a shell string: valid UTF-8 sequences become their
/// characters, every other byte becomes its byte character (U+E000 + byte).
pub fn bytes_to_str(bytes: &[u8]) -> (r: String)
    ensures
        r@ == spec_bytes_to_str(bytes@),
{
    let mut out: Vec<char> = Vec::new();
    let mut i: usize = 0;
    assert(bytes@.subrange(0, bytes@.len() as int) =~= bytes@);
    assert(out@ + spec_bytes_to_str(bytes@) =~= spec_bytes_to_str(bytes@));
    while i < bytes.len()
        invariant
            i <= bytes.len(),
            out@ + spec_bytes_to_str(bytes@.subrange(i as int, bytes@.len() as int)) == spec_bytes_to_str(bytes@),
        decreases bytes.len() - i,
    {
        let ghost rest = bytes@.subrange(i as int, bytes@.len() as int);
        match decode_at(bytes, i) {
            Some((v, n)) => {
                let c = char_from_scalar(v);
                out.push(c);
                assert(rest.subrange(n as int, rest.len() as int) =~= bytes@.subrange(i + n, bytes@.len() as int));
                assert(c == decode_first_scalar(rest) as char);
                i = i + n;
            },
            None => {
                let b = bytes[i];
                let c = char_from_scalar(0xE000u32 + b as u32);
                out.push(c);
                assert(rest.drop_first() =~= bytes@.subrange(i + 1, bytes@.len() as int));
                assert(rest[0] == b);
                i = i + 1;
            },
        }
        proof {
            assert(out@ + spec_bytes_to_str(bytes@.subrange(i as int, bytes@.len() as int)) =~= spec_bytes_to_str(bytes@)) by {
                assert(out@.drop_last() + spec_bytes_to_str(rest) == spec_bytes_to_str(bytes@));
            }
        }
    }
    assert(bytes@.subrange(bytes.len() as int, bytes@.len() as int) =~= Seq::<u8>::empty());
    assert(out@ + Seq::<char>::empty() =~= out@);
    crate::text::string_of(&out)
}

/// The bytes of one character: its raw byte for a byte character, its
/// UTF-8 encoding otherwise.
fn push_char_bytes(out: &mut Vec<u8>, c: char)
    ensures
        final(out)@ == old(out)@ + char_bytes(c),
{
    let v = c as u32;
    proof {
        vstd::utf8::char_is_scalar(c);
    }
    if 0xE080 <= v && v <= 0xE0FF {
        out.push((v - 0xE000) as u8);
        assert(out@ =~= old(out)@ + char_bytes(c));
    } else if v <= 0x7F {
        out.push((v & 0x7F) as u8);
        assert(out@ =~= old(out)@ + char_bytes(c));
    } else if v <= 0x7FF {
        out.push(0xC0 | ((v >> 6) & 0x1F) as u8);
        out.push(0x80 | (v & 0x3F) as u8);
        assert(out@ =~= old(out)@ + char_bytes(c));
    } else if v <= 0xFFFF {
        out.push(0xE0 | ((v >> 12) & 0x0F) as u8);
        out.push(0x80 | ((v >> 6) & 0x3F) as u8);
        out.push(0x80 | (v & 0x3F) as u8);
        assert(out@ =~= old(out)@ + char_bytes(c));
    } else {
        out.push(0xF0 | ((v >> 18) & 0x7) as u8);
        out.push(0x80 | ((v >> 12) & 0x3F) as u8);
        out.push(0x80 | ((v >> 6) & 0x3F) as u8);
        out.push(0x80 | (v & 0x3F) as u8);
        assert(out@ =~= old(out)@ + char_bytes(c));
    }
}

/// Encode a shell string back to raw bytes: byte characters become their
/// byte, every other character its UTF-8 encoding.
pub fn str_to_bytes(s: &str) -> (r: Vec<u8>)
    ensures
        r@ == spec_str_to_bytes(s@),
{
    let cs = crate::text::chars_of(s);
    let mut out: Vec<u8> = Vec::new();
    let mut i: usize = 0;
    assert(cs@.subrange(0, cs@.len() as int) =~= cs@);
    assert(out@ + spec_str_to_bytes(cs@) =~= spec_str_to_bytes(cs@));
    while i < cs.len()
        invariant
            i <= cs.len(),
            out@ + spec_str_to_bytes(cs@.subrange(i as int, cs@.len() as int)) == spec_str_to_bytes(cs@),
        decreases cs.len() - i,
    {
        let ghost rest = cs@.subrange(i as int, cs@.len() as int);
        assert(rest.drop_first() =~= cs@.subrange(i + 1, cs@.len() as int));
        assert(rest[0] == cs@[i as int]);
        push_char_bytes(&mut out, cs[i]);
        i += 1;
        assert(out@ + spec_str_to_bytes(cs@.subrange(i as int, cs@.len() as int)) =~= spec_str_to_bytes(cs@));
    }
    assert(cs@.subrange(0, cs@.len() as int) =~= cs@);
    assert(cs@.subrange(cs.len() as int, cs@.len() as int) =~= Seq::<char>::empty());
    assert(out@ + Seq::<u8>::empty() =~= out@);
    out
}


/// The bytes `b[from..to]`.
pub fn slice_bytes(b: &Vec<u8>, from: usize, to: usize) -> (r: Vec<u8>)
    requires
        from <= to <= b@.len(),
    ensures
        r@ == b@.subrange(from as int, to as int),
{
    let mut out: Vec<u8> = Vec::new();
    let mut i = from;
    while i < to
        invariant
            from <= i <= to <= b@.len(),
            out@ == b@.subrange(from as int, i as int),
        decreases to - i,
    {
        out.push(b[i]);
        assert(b@.subrange(from as int, i + 1) =~= b@.subrange(from as int, i as int).push(b@[i as int]));
        i += 1;
    }
    out
}

/// Decoding `b` from the start meets no UTF-8 encoding of a byte
/// character (U+E080..U+E0FF): those are the only sequences that read back
/// as other bytes.
pub open spec fn decodes_no_byte_char(b: Seq<u8>) -> bool
    decreases b.len(),
{
    if b.len() == 0 {
        true
    } else if valid_first_scalar(b) {
        !is_byte_char(decode_first_scalar(b) as char) && decodes_no_byte_char(
            b.subrange(length_of_first_scalar(b), b.len() as int),
        )
    } else {
        decodes_no_byte_char(b.drop_first())
    }
}

/// What a valid first scalar decodes to is a scalar value.
proof fn lemma_decoded_is_scalar(b: Seq<u8>)
    requires
        valid_first_scalar(b),
    ensures
        is_scalar(decode_first_scalar(b)),
        length_of_first_scalar(b) <= 2 ==> decode_first_scalar(b) <= 0x7FF,
{
    let b0 = b[0];
    if vstd::utf8::is_leading_byte_width_1(b0) {
        assert((b0 & 0x7F) as u32 <= 0x7F) by (bit_vector);
    } else if vstd::utf8::is_leading_byte_width_2(b0) {
        let b1 = b[1];
        assert(((((b0 & 0x1F) as u32) << 6) | ((b1 & 0x3F) as u32)) <= 0x7FF) by (bit_vector);
    } else if vstd::utf8::is_leading_byte_width_3(b0) {
        let b1 = b[1];
        let b2 = b[2];
        assert(((((b0 & 0x0F) as u32) << 12) | (((b1 & 0x3F) as u32) << 6) | ((b2 & 0x3F) as u32)) <= 0xFFFF)
            by (bit_vector);
    }
}

/// The bytes of the first scalar encode the value they decode to.
proof fn lemma_first_scalar_encoding(b: Seq<u8>)
    requires
        valid_first_scalar(b),
    ensures
        encode_scalar(decode_first_scalar(b)) == b.subrange(0, length_of_first_scalar(b)),
{
    let n = length_of_first_scalar(b);
    lemma_first_scalar_len(b);
    let t = b.subrange(0, n);
    assert(t.len() == n);
    assert(forall|k: int| 0 <= k < n ==> t[k] == b[k]);
    assert(valid_first_scalar(t));
    assert(decode_first_scalar(t) == decode_first_scalar(b));
    assert(length_of_first_scalar(t) == n);
    assert(vstd::utf8::pop_first_scalar(t) =~= Seq::<u8>::empty());
    assert(vstd::utf8::valid_utf8(vstd::utf8::pop_first_scalar(t)));
    assert(vstd::utf8::valid_utf8(t));
    vstd::utf8::decode_utf8_first_scalar(t);
    lemma_decoded_is_scalar(b);
    lemma_decoded_cast(decode_first_scalar(b));
    assert(vstd::utf8::take_first_scalar(t) =~= t);
}

/// A scalar value survives the cast to `char` and back.
proof fn lemma_decoded_cast(v: u32)
    requires
        is_scalar(v),
    ensures
        (v as char) as u32 == v,
{
}

/// The bytes of a shell string's characters.
proof fn lemma_str_to_bytes_prepend(c: char, rest: Seq<char>)
    ensures
        spec_str_to_bytes(seq![c] + rest) == char_bytes(c) + spec_str_to_bytes(rest),
{
    let s = seq![c] + rest;
    assert(s.drop_first() =~= rest);
}

/// Turning raw bytes into a shell string and back gives the same bytes,
/// unless decoding them meets a UTF-8 encoding of one of the characters
/// that carry raw bytes.
pub proof fn law_bytes_round_trip(b: Seq<u8>)
    requires
        decodes_no_byte_char(b),
    ensures
        spec_str_to_bytes(spec_bytes_to_str(b)) == b,
    decreases b.len(),
{
    if b.len() == 0 {
    } else if valid_first_scalar(b) {
        let n = length_of_first_scalar(b);
        lemma_first_scalar_len(b);
        let v = decode_first_scalar(b);
        lemma_decoded_is_scalar(b);
        lemma_decoded_cast(v);
        let c = v as char;
        let rest = b.subrange(n, b.len() as int);
        lemma_first_scalar_encoding(b);
        law_bytes_round_trip(rest);
        lemma_str_to_bytes_prepend(c, spec_bytes_to_str(rest));
        assert(char_bytes(c) == encode_scalar(v));
        assert(b.subrange(0, n) + rest =~= b);
    } else {
        let rest = b.drop_first();
        law_bytes_round_trip(rest);
        let c = byte_char(b[0]);
        lemma_str_to_bytes_prepend(c, spec_bytes_to_str(rest));
        assert(b[0] >= 0x80) by {
            if b[0] < 0x80 {
                assert(vstd::utf8::is_leading_byte_width_1(b[0]));
                assert(valid_first_scalar(b));
            }
        }
        assert((c as u32) == 0xE000 + b[0] as u32);
        assert(is_byte_char(c));
        assert(char_bytes(c) =~= seq![b[0]]);
        assert(seq![b[0]] + rest =~= b);
    }
}

/// The bytes of a string without byte characters are its UTF-8 encoding.
pub proof fn law_text_bytes_utf8(s: Seq<char>)
    requires
        forall|i: int| 0 <= i < s.len() ==> !is_byte_char(#[trigger] s[i]),
    ensures
        spec_str_to_bytes(s) == vstd::utf8::encode_utf8(s),
    decreases s.len(),
{
    if s.len() > 0 {
        let rest = s.drop_first();
        assert forall|i: int| 0 <= i < rest.len() implies !is_byte_char(#[trigger] rest[i]) by {
            assert(rest[i] == s[i + 1]);
        }
        law_text_bytes_utf8(rest);
        assert(!is_byte_char(s[0]));
    }
}

/// Valid UTF-8 reads back as the text it encodes.
proof fn lemma_valid_bytes_text(b: Seq<u8>)
    requires
        vstd::utf8::valid_utf8(b),
    ensures
        spec_bytes_to_str(b) == vstd::utf8::decode_utf8(b),
    decreases b.len(),
{
    if b.len() > 0 {
        lemma_first_scalar_len(b);
        lemma_valid_bytes_text(vstd::utf8::pop_first_scalar(b));
    }
}

/// A shell string without byte characters survives the trip to bytes and
/// back unchanged.
pub proof fn law_text_round_trip(s: Seq<char>)
    requires
        forall|i: int| 0 <= i < s.len() ==> !is_byte_char(#[trigger] s[i]),
    ensures
        spec_bytes_to_str(spec_str_to_bytes(s)) == s,
{
    law_text_bytes_utf8(s);
    vstd::utf8::encode_utf8_valid_utf8(s);
    lemma_valid_bytes_text(vstd::utf8::encode_utf8(s));
    vstd::utf8::encode_utf8_decode_utf8(s);
}

} // verus!
