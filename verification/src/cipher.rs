//! The GENE cipher of Freelancer saves.
//!
//! An encrypted save starts with the four bytes `FLS1`; every byte after
//! them is XORed with a key byte that depends only on its position.

use bstr::ByteSlice;
use vstd::prelude::*;
use vstd::utf8::*;

use crate::SaveError;

verus! {

/// The four bytes `FLS1` that mark an encrypted save.
pub open spec fn header() -> Seq<u8> {
    seq![0x46u8, 0x4Cu8, 0x53u8, 0x31u8]
}

/// The letters of "Gene", one of which is picked by the position modulo 4.
pub open spec fn gene_letter(k: int) -> int {
    if k == 0 {
        0x47
    } else if k == 1 {
        0x65
    } else if k == 2 {
        0x6E
    } else {
        0x65
    }
}

/// The key byte XORed into the payload byte at position `i`.
pub open spec fn key_byte(i: int) -> u8 {
    (((gene_letter(i % 4) + i) % 256) as u8) | 0x80u8
}

/// The payload XORed with the key stream, byte by byte.
pub open spec fn gene_xor(payload: Seq<u8>) -> Seq<u8> {
    Seq::new(payload.len(), |i: int| payload[i] ^ key_byte(i))
}

/// `hay` begins with `prefix`.
pub open spec fn begins_with(hay: Seq<u8>, prefix: Seq<u8>) -> bool {
    prefix.len() <= hay.len() && hay.take(prefix.len() as int) == prefix
}

/// The buffer begins with the encrypted-save marker.
pub open spec fn has_header(buffer: Seq<u8>) -> bool {
    begins_with(buffer, header())
}

/// The bytes that deciphering an encrypted buffer yields: everything
/// after the first four bytes, run through the key stream.
pub open spec fn deciphered(buffer: Seq<u8>) -> Seq<u8> {
    gene_xor(buffer.skip(4))
}

/// `decrypt` can produce text for this buffer: either it is not
/// encrypted, or its deciphered bytes are valid UTF-8.
pub open spec fn decryptable(buffer: Seq<u8>) -> bool {
    has_header(buffer) ==> valid_utf8(deciphered(buffer))
}

/// The text `decrypt` produces for a buffer it accepts: the decoded
/// deciphered payload of an encrypted buffer; the decoded bytes of any
/// other buffer, invalid UTF-8 being shown as `bstr` shows it.
pub open spec fn decrypted_text(buffer: Seq<u8>) -> Seq<char> {
    if has_header(buffer) {
        decode_utf8(deciphered(buffer))
    } else if valid_utf8(buffer) {
        decode_utf8(buffer)
    } else {
        lossy_utf8(buffer)
    }
}

/// The bytes of an encrypted save holding `plain`: the marker, then the
/// UTF-8 encoding of the text run through the key stream.
pub open spec fn encrypted_save(plain: Seq<char>) -> Seq<u8> {
    header() + gene_xor(encode_utf8(plain))
}

/// Every byte is below 0x80.
pub open spec fn ascii_bytes(bytes: Seq<u8>) -> bool {
    forall|i: int| 0 <= i < bytes.len() ==> #[trigger] bytes[i] < 0x80
}

/// What `bstr` displays for a byte string: its UTF-8 text, with each
/// invalid sequence shown as U+FFFD.
pub uninterp spec fn lossy_utf8(bytes: Seq<u8>) -> Seq<char>;

/// Calls `bstr::ByteSlice::starts_with_str`, which reports whether `hay`
/// begins with the bytes of `prefix`.
#[verifier::external_body]
fn bytes_begin_with(hay: &[u8], prefix: &[u8]) -> (res: bool)
    ensures
        res == begins_with(hay@, prefix@),
{
    hay.starts_with_str(prefix)
}

/// Calls `Display` of `bstr::BStr` through `to_string`: the result is the
/// name `lossy_utf8` of the bytes, and, as the source shows (one valid
/// chunk and nothing invalid), exactly their decoding when they are
/// valid UTF-8. How invalid sequences are replaced is left to the name.
#[verifier::external_body]
fn lossy_text(bytes: &[u8]) -> (res: String)
    ensures
        res@ == lossy_utf8(bytes@),
        valid_utf8(bytes@) ==> res@ == decode_utf8(bytes@),
{
    bstr::BStr::new(bytes).to_string()
}

/// Calls `std::str::from_utf8`: `Some` exactly for valid UTF-8, holding
/// the decoded characters.
#[verifier::external_body]
fn utf8_text(bytes: &[u8]) -> (res: Option<String>)
    ensures
        res is Some <==> valid_utf8(bytes@),
        res matches Some(s) ==> s@ == decode_utf8(bytes@),
{
    match std::str::from_utf8(bytes) {
        Ok(s) => Some(s.to_string()),
        Err(_) => None,
    }
}

/// Runs the key stream over `buffer[4..]`.
fn decipher(buffer: &[u8]) -> (out: Vec<u8>)
    requires
        buffer@.len() >= 4,
    ensures
        out@ == deciphered(buffer@),
{
    let gene: [usize; 4] = [0x47, 0x65, 0x6E, 0x65];
    let mut out: Vec<u8> = Vec::new();
    let mut len: usize = 4;
    let mut my_iter: usize = 0;
    let ghost payload = buffer@.skip(4);
    while len < buffer.len()
        invariant
            4 <= len <= buffer@.len(),
            len == my_iter + 4,
            payload == buffer@.skip(4),
            gene@ == seq![0x47usize, 0x65usize, 0x6Eusize, 0x65usize],
            out@ == gene_xor(payload).take(my_iter as int),
        decreases buffer@.len() - len,
    {
        let k: usize = my_iter % 4;
        let g: usize = gene[k];
        assert(g == gene_letter(my_iter as int % 4));
        let gene_cipher: u8 = ((g + my_iter % 256) % 256) as u8;
        assert(gene_cipher == (gene_letter(my_iter as int % 4) + my_iter) % 256) by {
            vstd::arithmetic::div_mod::lemma_add_mod_noop_right(g as int, my_iter as int, 256);
        }
        out.push(buffer[len] ^ (gene_cipher | 0x80));
        assert(out@ =~= gene_xor(payload).take(my_iter + 1));
        len += 1;
        my_iter += 1;
    }
    assert(out@ =~= gene_xor(payload));
    out
}

/// True exactly when `decrypt` accepts `buffer`: it is not encrypted, or
/// its deciphered payload is valid UTF-8.
pub fn is_decryptable(buffer: &[u8]) -> (res: bool)
    ensures
        res == decryptable(buffer@),
{
    let marker: [u8; 4] = [0x46, 0x4C, 0x53, 0x31];
    assert(marker@ == header());
    if bytes_begin_with(buffer, marker.as_slice()) {
        assert(buffer@.len() >= 4);
        let out = decipher(buffer);
        utf8_text(out.as_slice()).is_some()
    } else {
        true
    }
}

/// Turns a save buffer into its text. A buffer that begins with `FLS1` is
/// encrypted: the bytes after its first four are deciphered with
/// the GENE key stream and read as UTF-8. Any other buffer is read as
/// UTF-8 with invalid sequences replaced.
pub fn decrypt(buffer: &[u8]) -> (res: Result<String, SaveError>)
    requires
        decryptable(buffer@),
    ensures
        res matches Ok(text) && text@ == decrypted_text(buffer@),
{
    let marker: [u8; 4] = [0x46, 0x4C, 0x53, 0x31];
    assert(marker@ == header());
    if bytes_begin_with(buffer, marker.as_slice()) {
        assert(buffer@.len() >= 4);
        let decipher_buf = decipher(buffer);
        let decipher_save = utf8_text(decipher_buf.as_slice());
        Ok(decipher_save.unwrap())
    } else {
        Ok(lossy_text(buffer))
    }
}

/// The key stream is its own inverse: running it twice over a payload
/// gives the payload back, so the same operation enciphers and deciphers.
pub proof fn lemma_gene_xor_involution(payload: Seq<u8>)
    ensures
        gene_xor(gene_xor(payload)) == payload,
{
    assert forall|i: int| 0 <= i < payload.len() implies #[trigger] gene_xor(gene_xor(payload))[i]
        == payload[i] by {
        let b = payload[i];
        let k = key_byte(i);
        assert((b ^ k) ^ k == b) by (bit_vector);
    }
    assert(gene_xor(gene_xor(payload)) =~= payload);
}

/// Bytes that are all below 0x80 are valid UTF-8.
pub proof fn lemma_ascii_bytes_valid_utf8(bytes: Seq<u8>)
    requires
        ascii_bytes(bytes),
    ensures
        valid_utf8(bytes),
    decreases bytes.len(),
{
    if bytes.len() > 0 {
        let b = bytes[0];
        assert((b & 0x7F) as u32 <= 0x7f) by (bit_vector);
        assert(valid_first_scalar(bytes));
        let rest = pop_first_scalar(bytes);
        assert(rest =~= bytes.subrange(1, bytes.len() as int));
        assert(ascii_bytes(rest)) by {
            assert forall|i: int| 0 <= i < rest.len() implies #[trigger] rest[i] < 0x80 by {
                assert(rest[i] == bytes[i + 1]);
            }
        }
        lemma_ascii_bytes_valid_utf8(rest);
    }
}

/// Deciphering restores what enciphering hid: the encrypted save of any
/// text is accepted by `decrypt`, which gives back exactly that text.
pub proof fn lemma_decrypt_recovers_plaintext(plain: Seq<char>)
    ensures
        decryptable(encrypted_save(plain)),
        decrypted_text(encrypted_save(plain)) == plain,
{
    let saved = encrypted_save(plain);
    let bytes = encode_utf8(plain);
    assert(saved.take(header().len() as int) =~= header());
    assert(saved.skip(4) =~= gene_xor(bytes));
    lemma_gene_xor_involution(bytes);
    vstd::utf8::encode_utf8_valid_utf8(plain);
    vstd::utf8::encode_utf8_decode_utf8(plain);
}

/// A buffer without the marker is passed through: when it is valid UTF-8,
/// `decrypt` gives back the text it encodes.
pub proof fn lemma_plain_text_passes_through(text: Seq<char>)
    requires
        !has_header(encode_utf8(text)),
    ensures
        decryptable(encode_utf8(text)),
        decrypted_text(encode_utf8(text)) == text,
{
    vstd::utf8::encode_utf8_valid_utf8(text);
    vstd::utf8::encode_utf8_decode_utf8(text);
}

/// The GENE key stream repeats every 256 bytes: the key of a position is
/// the key of the position 256 further on.
pub proof fn lemma_key_stream_period(i: int)
    requires
        0 <= i,
    ensures
        key_byte(i + 256) == key_byte(i),
        key_byte(i) == ((((seq![0x47int, 0x65int, 0x6Eint, 0x65int][i % 4] + i) % 256) as u8)
            | 0x80u8),
{
    let g = seq![0x47int, 0x65int, 0x6Eint, 0x65int];
    assert((i + 256) % 4 == i % 4);
    assert(gene_letter(i % 4) == g[i % 4]) by {
        if i % 4 == 0 {
        } else if i % 4 == 1 {
        } else if i % 4 == 2 {
        } else {
        }
    }
    assert((g[i % 4] + i + 256) % 256 == (g[i % 4] + i) % 256);
}

/// Deciphering an encrypted save reads every payload byte, wherever it
/// stands, through the GENE key of its position: the UTF-8 bytes of the
/// text `decrypt` returns are the bytes after the marker, the one at
/// payload position `i` XORed with `((G[i % 4] + i) % 256) | 0x80` for
/// `G = [0x47, 0x65, 0x6E, 0x65]`.
pub proof fn lemma_decrypted_bytes(buffer: Seq<u8>, i: int)
    requires
        has_header(buffer),
        decryptable(buffer),
        0 <= i < buffer.len() - 4,
    ensures
        encode_utf8(decrypted_text(buffer)).len() == buffer.len() - 4,
        encode_utf8(decrypted_text(buffer))[i] == buffer[i + 4] ^ ((((seq![
            0x47int,
            0x65int,
            0x6Eint,
            0x65int,
        ][i % 4] + i) % 256) as u8) | 0x80u8),
{
    vstd::utf8::decode_utf8_encode_utf8(deciphered(buffer));
    lemma_key_stream_period(i);
    assert(buffer.skip(4)[i] == buffer[i + 4]);
}

/// An encrypted buffer whose payload bytes all have the high bit set, as
/// those of enciphered ASCII text have, deciphers to ASCII, so `decrypt`
/// accepts it.
pub proof fn lemma_high_bit_payload_decryptable(buffer: Seq<u8>)
    requires
        forall|i: int| 4 <= i < buffer.len() ==> #[trigger] buffer[i] >= 0x80,
    ensures
        decryptable(buffer),
        has_header(buffer) ==> ascii_bytes(deciphered(buffer)),
{
    if has_header(buffer) {
        let d = deciphered(buffer);
        assert forall|i: int| 0 <= i < d.len() implies #[trigger] d[i] < 0x80 by {
            let b = buffer[i + 4];
            assert(buffer.skip(4)[i] == b);
            let x = ((gene_letter(i % 4) + i) % 256) as u8;
            assert(b >= 0x80 ==> (b ^ (x | 0x80u8)) < 0x80) by (bit_vector);
        }
        lemma_ascii_bytes_valid_utf8(d);
    }
}

} // verus!
