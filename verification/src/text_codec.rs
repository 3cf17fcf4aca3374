//! The 1-bit-per-pixel text-in-image codec: a length-prefixed bitstream —
//! the 4-byte big-endian byte count, then the payload's bytes, each byte
//! most-significant-bit first — written into the least significant bit of
//! the red channel, one bit per pixel in raster order.  The payload is a
//! sequence of single bytes: each character of a text occupies exactly one
//! byte (code points 0-255); wider characters are not supported.

use crate::pixel::{lemma_chan_index, PixelBuffer, StegoError};
use vstd::prelude::*;

verus! {

/// Bit `k` of a byte, counting from the most significant bit.
pub open spec fn bit_of(b: u8, k: u8) -> u8
    recommends
        k < 8,
{
    (b >> ((7 - k) as u8)) & 1
}

/// Byte `j` of the 4-byte big-endian length prefix for length `n`.
pub open spec fn be_len_byte(n: u32, j: int) -> u8
    recommends
        0 <= j < 4,
{
    if j == 0 {
        (n >> 24) as u8
    } else if j == 1 {
        ((n >> 16) & 0xFF) as u8
    } else if j == 2 {
        ((n >> 8) & 0xFF) as u8
    } else {
        (n & 0xFF) as u8
    }
}

/// Byte `j` of the length-prefixed message: four big-endian length bytes,
/// then the text's own bytes.
pub open spec fn message_byte(text: Seq<u8>, j: int) -> u8
    recommends
        0 <= j < text.len() + 4,
        text.len() <= u32::MAX,
{
    if j < 4 {
        be_len_byte(text.len() as u32, j)
    } else {
        text[j - 4]
    }
}

/// The bit carried by pixel `p`: the message's bytes in order, each one
/// most-significant-bit first.
pub open spec fn message_bit(text: Seq<u8>, p: int) -> u8 {
    bit_of(message_byte(text, p / 8), (p % 8) as u8)
}

/// The embedding of a message into raw image bytes: each pixel `p` below
/// `8 * (text.len() + 4)` carries message bit `p` in the least significant
/// bit of its red channel; every other bit of every byte is untouched.
pub open spec fn embed_text_data(data: Seq<u8>, text: Seq<u8>) -> Seq<u8> {
    Seq::new(
        data.len(),
        |i: int|
            if i % 3 == 0 && i / 3 < 8 * (text.len() + 4) {
                (data[i] & 0xFE) | message_bit(text, i / 3)
            } else {
                data[i]
            },
    )
}

/// The least significant red-channel bit of pixel `p`.
pub open spec fn red_lsb(data: Seq<u8>, p: int) -> u8 {
    data[3 * p] & 1
}

/// The byte assembled, most significant bit first, from the red-channel
/// bits of the eight pixels starting at pixel `8 * j`.
pub open spec fn stream_byte(data: Seq<u8>, j: int) -> u8 {
    (red_lsb(data, 8 * j) * 128 + red_lsb(data, 8 * j + 1) * 64 + red_lsb(data, 8 * j + 2) * 32
        + red_lsb(data, 8 * j + 3) * 16 + red_lsb(data, 8 * j + 4) * 8 + red_lsb(data, 8 * j + 5)
        * 4 + red_lsb(data, 8 * j + 6) * 2 + red_lsb(data, 8 * j + 7)) as u8
}

/// The byte count declared by the first four stream bytes, big-endian.
pub open spec fn declared_len(data: Seq<u8>) -> int {
    stream_byte(data, 0) * 0x1000000 + stream_byte(data, 1) * 0x10000 + stream_byte(data, 2) * 0x100
        + stream_byte(data, 3)
}

/// The payload carried by the red-channel bits: `declared_len` bytes
/// following the four-byte length prefix.
pub open spec fn decoded_text(data: Seq<u8>) -> Seq<u8> {
    Seq::new(declared_len(data) as nat, |j: int| stream_byte(data, j + 4))
}

/// Embeds a byte payload into the carrier: one bit per pixel in raster
/// order, in the red channel's least significant bit — first the payload's
/// 4-byte big-endian length, then its bytes, each most-significant-bit
/// first.  Green, blue, and the top seven red bits are byte-for-byte
/// identical to the input.  Fails with a capacity error if and only if the
/// prefixed payload needs more bits than the image has pixels.
pub fn hide_text_in_image(image: &PixelBuffer, text: &Vec<u8>) -> (r: Result<
    PixelBuffer,
    StegoError,
>)
    requires
        image.wf(),
        text@.len() <= u32::MAX,
    ensures
        r is Ok <==> 8 * (text@.len() + 4) <= image.pixels(),
        8 * (text@.len() + 4) > image.pixels() ==> r == Err::<PixelBuffer, StegoError>(
            StegoError::InsufficientCapacity,
        ),
        r matches Ok(out) ==> out.wf() && out.width == image.width && out.height == image.height
            && out.data@ == embed_text_data(image.data@, text@),
{
    proof {
        image.lemma_wf_bounds();
        assert((image.width as int) * (image.height as int) < u64::MAX) by (nonlinear_arith)
            requires
                image.width <= u32::MAX,
                image.height <= u32::MAX,
        ;
    }
    let total: u64 = (image.width as u64) * (image.height as u64);
    let needed: u64 = 8 * ((text.len() as u64) + 4);
    if needed > total {
        return Err(StegoError::InsufficientCapacity);
    }
    let n: u32 = text.len() as u32;
    let b0: u8 = (n >> 24) as u8;
    let b1: u8 = ((n >> 16) & 0xFF) as u8;
    let b2: u8 = ((n >> 8) & 0xFF) as u8;
    let b3: u8 = (n & 0xFF) as u8;
    let ghost goal = embed_text_data(image.data@, text@);
    let mut out: Vec<u8> = Vec::new();
    let mut i: usize = 0;
    while i < image.data.len()
        invariant
            text@.len() <= u32::MAX,
            goal == embed_text_data(image.data@, text@),
            goal.len() == image.data@.len(),
            needed == 8 * (text@.len() + 4),
            n == text@.len() as u32,
            b0 == be_len_byte(n, 0),
            b1 == be_len_byte(n, 1),
            b2 == be_len_byte(n, 2),
            b3 == be_len_byte(n, 3),
            i <= image.data@.len(),
            out@.len() == i,
            forall|jj: int| 0 <= jj < i ==> out@[jj] == goal[jj],
        decreases image.data@.len() - i,
    {
        let v = image.data[i];
        let value: u8;
        if i % 3 == 0 && ((i / 3) as u64) < needed {
            let p: usize = i / 3;
            let jb: usize = p / 8;
            let k: u8 = (p % 8) as u8;
            let byte: u8 = if jb == 0 {
                b0
            } else if jb == 1 {
                b1
            } else if jb == 2 {
                b2
            } else if jb == 3 {
                b3
            } else {
                text[jb - 4]
            };
            proof {
                assert(byte == message_byte(text@, jb as int));
            }
            let bit: u8 = (byte >> (7 - k)) & 1;
            value = (v & 0xFE) | bit;
            proof {
                assert(bit == message_bit(text@, i as int / 3));
            }
        } else {
            value = v;
        }
        out.push(value);
        i = i + 1;
    }
    proof {
        assert(out@ =~= goal);
    }
    Ok(PixelBuffer { width: image.width, height: image.height, data: out })
}

/// Reads the stream byte at byte index `j` from the red-channel bits.
fn read_stream_byte(data: &Vec<u8>, j: usize) -> (r: u8)
    requires
        24 * (j as int) + 24 <= data@.len(),
    ensures
        r == stream_byte(data@, j as int),
{
    proof {
        assert(forall|v: u8| #[trigger] (v & 1) <= 1) by (bit_vector);
    }
    // binding the length as a usize bounds the index arithmetic below
    let dlen: usize = data.len();
    let base: usize = 24 * j;
    let t0 = data[base] & 1;
    let t1 = data[base + 3] & 1;
    let t2 = data[base + 6] & 1;
    let t3 = data[base + 9] & 1;
    let t4 = data[base + 12] & 1;
    let t5 = data[base + 15] & 1;
    let t6 = data[base + 18] & 1;
    let t7 = data[base + 21] & 1;
    t0 * 128 + t1 * 64 + t2 * 32 + t3 * 16 + t4 * 8 + t5 * 4 + t6 * 2 + t7
}

/// Recovers the byte payload declared and carried by the red-channel bits:
/// the 4-byte big-endian length first, then that many bytes.  Fails with a
/// too-small error when fewer than 32 pixels exist (no room for a length
/// prefix), and with a capacity error when the declared length would read
/// beyond the image's pixels.
pub fn extract_text_from_image(image: &PixelBuffer) -> (r: Result<Vec<u8>, StegoError>)
    requires
        image.wf(),
    ensures
        r is Ok <==> 8 * (declared_len(image.data@) + 4) <= image.pixels(),
        image.pixels() < 32 ==> r == Err::<Vec<u8>, StegoError>(StegoError::ImageTooSmall),
        image.pixels() >= 32 && 8 * (declared_len(image.data@) + 4) > image.pixels() ==> r
            == Err::<Vec<u8>, StegoError>(StegoError::InsufficientCapacity),
        r matches Ok(text) ==> text@ == decoded_text(image.data@),
{
    proof {
        image.lemma_wf_bounds();
        assert((image.width as int) * (image.height as int) < u64::MAX) by (nonlinear_arith)
            requires
                image.width <= u32::MAX,
                image.height <= u32::MAX,
        ;
    }
    let total: u64 = (image.width as u64) * (image.height as u64);
    proof {
        assert(image.data@.len() == 3 * (total as int)) by (nonlinear_arith)
            requires
                total as int == (image.width as int) * (image.height as int),
                image.data@.len() == 3 * (image.width as int) * (image.height as int),
        ;
    }
    if total < 32 {
        return Err(StegoError::ImageTooSmall);
    }
    let c0 = read_stream_byte(&image.data, 0);
    let c1 = read_stream_byte(&image.data, 1);
    let c2 = read_stream_byte(&image.data, 2);
    let c3 = read_stream_byte(&image.data, 3);
    let n64: u64 = (c0 as u64) * 16777216 + (c1 as u64) * 65536 + (c2 as u64) * 256 + (c3 as u64);
    if 8 * (n64 + 4) > total {
        return Err(StegoError::InsufficientCapacity);
    }
    let count: usize = n64 as usize;
    // binding the length as a usize bounds the loop's index arithmetic
    let dlen: usize = image.data.len();
    let mut out: Vec<u8> = Vec::new();
    let mut j: usize = 0;
    while j < count
        invariant
            image.data@.len() == 3 * (total as int),
            24 * (count as int + 4) <= usize::MAX,
            count as int == declared_len(image.data@),
            8 * (count as int + 4) <= total as int,
            j <= count,
            out@.len() == j,
            forall|k: int| 0 <= k < j ==> out@[k] == stream_byte(image.data@, k + 4),
        decreases count - j,
    {
        out.push(read_stream_byte(&image.data, j + 4));
        j = j + 1;
    }
    proof {
        assert(out@ =~= decoded_text(image.data@));
    }
    Ok(out)
}

/// Converts a text to its payload, one byte per character; `None` exactly
/// when some character's code point exceeds 255, the widest this codec
/// supports.
pub fn text_to_bytes(text: &Vec<char>) -> (r: Option<Vec<u8>>)
    ensures
        r is Some <==> (forall|i: int|
            0 <= i < text@.len() ==> (#[trigger] text@[i]) as u32 <= 255),
        r matches Some(bytes) ==> bytes@.len() == text@.len() && (forall|i: int|
            0 <= i < text@.len() ==> bytes@[i] == ((#[trigger] text@[i]) as u32) as u8),
{
    let mut bytes: Vec<u8> = Vec::new();
    let mut i: usize = 0;
    while i < text.len()
        invariant
            i <= text@.len(),
            bytes@.len() == i,
            forall|k: int| 0 <= k < i ==> (#[trigger] text@[k]) as u32 <= 255,
            forall|k: int| 0 <= k < i ==> bytes@[k] == ((#[trigger] text@[k]) as u32) as u8,
        decreases text@.len() - i,
    {
        let cp: u32 = text[i] as u32;
        if cp > 255 {
            return None;
        }
        bytes.push(cp as u8);
        i = i + 1;
    }
    Some(bytes)
}

/// Reinterprets each payload byte as one character of the recovered text.
pub fn bytes_to_text(bytes: &Vec<u8>) -> (r: Vec<char>)
    ensures
        r@.len() == bytes@.len(),
        forall|i: int| 0 <= i < bytes@.len() ==> r@[i] == (#[trigger] bytes@[i]) as char,
{
    let mut text: Vec<char> = Vec::new();
    let mut i: usize = 0;
    while i < bytes.len()
        invariant
            i <= bytes@.len(),
            text@.len() == i,
            forall|k: int| 0 <= k < i ==> text@[k] == (#[trigger] bytes@[k]) as char,
        decreases bytes@.len() - i,
    {
        text.push(bytes[i] as char);
        i = i + 1;
    }
    text
}

/// A bit extracted from a byte is 0 or 1.
proof fn lemma_bit_le_one(b: u8, k: u8)
    by (bit_vector)
    requires
        k < 8,
    ensures
        (b >> ((7 - k) as u8)) & 1 <= 1,
{
}

/// Writing a bit into a byte's least significant position and masking it
/// back out returns the bit.
proof fn lemma_lsb_write(x: u8, b: u8)
    by (bit_vector)
    requires
        b <= 1,
    ensures
        ((x & 0xFE) | b) & 1 == b,
{
}

/// A byte emitted bit by bit, most significant first, reassembles to
/// itself.
proof fn lemma_byte_bits_roundtrip(b: u8)
    by (bit_vector)
    ensures
        ((b >> 7) & 1) * 128 + ((b >> 6) & 1) * 64 + ((b >> 5) & 1) * 32 + ((b >> 4) & 1) * 16 + ((b
            >> 3) & 1) * 8 + ((b >> 2) & 1) * 4 + ((b >> 1) & 1) * 2 + ((b >> 0) & 1) == b,
{
}

/// The four big-endian bytes of a 32-bit length reassemble to it.
proof fn lemma_be32_roundtrip(n: u32)
    by (bit_vector)
    ensures
        ((n >> 24) as u8) * 0x1000000 + (((n >> 16) & 0xFF) as u8) * 0x10000 + (((n >> 8) & 0xFF)
            as u8) * 0x100 + ((n & 0xFF) as u8) == n,
{
}

/// The red-channel bit of each pixel inside the embedded region is the
/// message bit for that pixel.
proof fn lemma_embedded_lsb(data: Seq<u8>, text: Seq<u8>, p: int)
    requires
        text.len() <= u32::MAX,
        0 <= p < 8 * (text.len() + 4),
        3 * p < data.len(),
    ensures
        red_lsb(embed_text_data(data, text), p) == message_bit(text, p),
{
    let e = embed_text_data(data, text);
    lemma_chan_index(p, 0);
    vstd::arithmetic::div_mod::lemma_mod_bound(p, 8);
    lemma_bit_le_one(message_byte(text, p / 8), (p % 8) as u8);
    lemma_lsb_write(data[3 * p], message_bit(text, p));
    assert(e[3 * p] == (data[3 * p] & 0xFE) | message_bit(text, p));
}

/// Every stream byte of an embedding is the corresponding message byte.
proof fn lemma_stream_byte_of_embedding(data: Seq<u8>, text: Seq<u8>, j: int)
    requires
        text.len() <= u32::MAX,
        0 <= j < text.len() + 4,
        24 * (text.len() + 4) <= data.len(),
    ensures
        stream_byte(embed_text_data(data, text), j) == message_byte(text, j),
{
    let e = embed_text_data(data, text);
    let b = message_byte(text, j);
    lemma_embedded_lsb(data, text, 8 * j);
    lemma_embedded_lsb(data, text, 8 * j + 1);
    lemma_embedded_lsb(data, text, 8 * j + 2);
    lemma_embedded_lsb(data, text, 8 * j + 3);
    lemma_embedded_lsb(data, text, 8 * j + 4);
    lemma_embedded_lsb(data, text, 8 * j + 5);
    lemma_embedded_lsb(data, text, 8 * j + 6);
    lemma_embedded_lsb(data, text, 8 * j + 7);
    vstd::arithmetic::div_mod::lemma_fundamental_div_mod_converse(8 * j, 8, j, 0);
    vstd::arithmetic::div_mod::lemma_fundamental_div_mod_converse(8 * j + 1, 8, j, 1);
    vstd::arithmetic::div_mod::lemma_fundamental_div_mod_converse(8 * j + 2, 8, j, 2);
    vstd::arithmetic::div_mod::lemma_fundamental_div_mod_converse(8 * j + 3, 8, j, 3);
    vstd::arithmetic::div_mod::lemma_fundamental_div_mod_converse(8 * j + 4, 8, j, 4);
    vstd::arithmetic::div_mod::lemma_fundamental_div_mod_converse(8 * j + 5, 8, j, 5);
    vstd::arithmetic::div_mod::lemma_fundamental_div_mod_converse(8 * j + 6, 8, j, 6);
    vstd::arithmetic::div_mod::lemma_fundamental_div_mod_converse(8 * j + 7, 8, j, 7);
    lemma_byte_bits_roundtrip(b);
    assert(bit_of(b, 0) == (b >> 7) & 1);
    assert(bit_of(b, 1) == (b >> 6) & 1);
    assert(bit_of(b, 2) == (b >> 5) & 1);
    assert(bit_of(b, 3) == (b >> 4) & 1);
    assert(bit_of(b, 4) == (b >> 3) & 1);
    assert(bit_of(b, 5) == (b >> 2) & 1);
    assert(bit_of(b, 6) == (b >> 1) & 1);
    assert(bit_of(b, 7) == (b >> 0) & 1);
}

/// Law (text round-trip exactness): a payload whose prefixed bitstream
/// fits into the image is declared and recovered exactly, byte for byte.
pub proof fn lemma_text_round_trip(data: Seq<u8>, text: Seq<u8>)
    requires
        text.len() <= u32::MAX,
        24 * (text.len() + 4) <= data.len(),
    ensures
        declared_len(embed_text_data(data, text)) == text.len(),
        decoded_text(embed_text_data(data, text)) == text,
{
    let e = embed_text_data(data, text);
    lemma_stream_byte_of_embedding(data, text, 0);
    lemma_stream_byte_of_embedding(data, text, 1);
    lemma_stream_byte_of_embedding(data, text, 2);
    lemma_stream_byte_of_embedding(data, text, 3);
    lemma_be32_roundtrip(text.len() as u32);
    assert(declared_len(e) == text.len());
    assert forall|j: int| 0 <= j < text.len() implies decoded_text(e)[j] == text[j] by {
        lemma_stream_byte_of_embedding(data, text, j + 4);
    }
    assert(decoded_text(e) =~= text);
}

} // verus!
