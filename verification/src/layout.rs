//! The byte layout of an encoded message.

use vstd::prelude::*;
use crate::endian::{be_bytes, be_value, lemma_be_bytes_len, lemma_u64_fits_eight_bytes};
use crate::message::{ContentView, Message, MessageView};
use crate::varu::varu64_bytes;

verus! {

/// Set in the flags byte where the message names a predecessor.
pub const FLAG_PREVIOUS: u8 = 0x04;

/// Set in the flags byte where the feed swaps its fields.
pub const FLAG_SWAPPED: u8 = 0x02;

/// Set in the flags byte where the payload is encrypted.
pub const FLAG_ENCRYPTED: u8 = 0x01;

/// The flags byte: one bit each for a predecessor, for swapped fields and
/// for an encrypted payload; the five high bits stay clear.
pub open spec fn flags(m: MessageView) -> u8 {
    (if m.previous is Some { FLAG_PREVIOUS } else { 0u8 })
        | (if m.swapped { FLAG_SWAPPED } else { 0u8 })
        | (if m.content is Encrypted { FLAG_ENCRYPTED } else { 0u8 })
}

/// The timestamp field: the eight bytes of the bit pattern, most
/// significant first.
pub open spec fn timestamp_bytes(m: MessageView) -> Seq<u8> {
    be_bytes(m.timestamp as nat, 8)
}

/// The field for the predecessor: its hash, or nothing at all.
pub open spec fn previous_bytes(m: MessageView) -> Seq<u8> {
    match m.previous {
        Some(hash) => hash,
        None => Seq::empty(),
    }
}

/// Whether the payload has a byte form.
pub open spec fn encodable(m: MessageView) -> bool {
    !(m.content matches ContentView::Plain(Err(_)))
}

/// The content field: the ciphertext of an encrypted payload, the CBOR
/// bytes of a plain one.
pub open spec fn content_bytes(m: MessageView) -> Seq<u8> {
    match m.content {
        ContentView::Encrypted(ciphertext) => ciphertext,
        ContentView::Plain(Ok(cbor)) => cbor,
        ContentView::Plain(Err(_)) => Seq::empty(),
    }
}

/// Everything that stands before the content field: flags, author,
/// sequence number, timestamp and, where there is one, the predecessor.
pub open spec fn head(m: MessageView) -> Seq<u8> {
    seq![flags(m)] + m.author + varu64_bytes(m.sequence) + timestamp_bytes(m) + previous_bytes(m)
}

/// The encoded message: the head, the content field and the signature.
/// It says what is written only of a message that is `encodable`.
pub open spec fn encoding(m: MessageView) -> Seq<u8> {
    head(m) + content_bytes(m) + m.signature
}

/// The bytes that an encoder sets out to write: the whole encoding, or,
/// where the payload has no byte form, the head, after which it gives up.
pub open spec fn attempted(m: MessageView) -> Seq<u8> {
    if encodable(m) {
        encoding(m)
    } else {
        head(m)
    }
}

/// Where the timestamp field begins.
pub open spec fn timestamp_offset(m: MessageView) -> int {
    1 + m.author.len() + varu64_bytes(m.sequence).len() as int
}

/// Each flag bit says what it is named for, and the five high bits are
/// clear.
pub proof fn lemma_flag_bits(m: MessageView)
    ensures
        flags(m) & FLAG_PREVIOUS == (if m.previous is Some { FLAG_PREVIOUS } else { 0u8 }),
        flags(m) & FLAG_SWAPPED == (if m.swapped { FLAG_SWAPPED } else { 0u8 }),
        flags(m) & FLAG_ENCRYPTED == (if m.content is Encrypted { FLAG_ENCRYPTED } else { 0u8 }),
        flags(m) & 0xf8 == 0,
{
    let p: u8 = if m.previous is Some { FLAG_PREVIOUS } else { 0u8 };
    let s: u8 = if m.swapped { FLAG_SWAPPED } else { 0u8 };
    let e: u8 = if m.content is Encrypted { FLAG_ENCRYPTED } else { 0u8 };
    assert((p | s | e) & 0x04 == p && (p | s | e) & 0x02 == s && (p | s | e) & 0x01 == e && (p
        | s | e) & 0xf8 == 0) by (bit_vector)
        requires
            p == 0x04 || p == 0,
            s == 0x02 || s == 0,
            e == 0x01 || e == 0,
    ;
}

/// A message without a predecessor has the predecessor bit clear and no
/// bytes for the predecessor: its head ends with the timestamp.
pub proof fn lemma_without_previous(m: MessageView)
    requires
        m.previous is None,
    ensures
        flags(m) & FLAG_PREVIOUS == 0,
        previous_bytes(m).len() == 0,
        head(m).len() == timestamp_offset(m) + 8,
{
    lemma_flag_bits(m);
    lemma_be_bytes_len(m.timestamp as nat, 8);
}

/// A message with a predecessor has the predecessor bit set, and the
/// bytes that follow its timestamp are the predecessor's hash.
pub proof fn lemma_with_previous(m: MessageView, hash: Seq<u8>)
    requires
        m.previous == Some(hash),
    ensures
        flags(m) & FLAG_PREVIOUS == FLAG_PREVIOUS,
        timestamp_offset(m) + 8 + hash.len() <= attempted(m).len(),
        attempted(m).subrange(timestamp_offset(m) + 8, timestamp_offset(m) + 8 + hash.len())
            == hash,
{
    lemma_flag_bits(m);
    lemma_be_bytes_len(m.timestamp as nat, 8);
    let from = timestamp_offset(m) + 8;
    assert(attempted(m).subrange(from, from + hash.len()) =~= hash);
}

/// The encrypted bit is set for an encrypted payload and for no other, and
/// the content field holds the ciphertext of an encrypted payload and the
/// CBOR bytes of a plain one. In the encoding it stands right behind the
/// head.
pub proof fn lemma_encrypted_content(m: MessageView)
    ensures
        m.content is Encrypted <==> flags(m) & FLAG_ENCRYPTED == FLAG_ENCRYPTED,
        m.content matches ContentView::Encrypted(ciphertext) ==> content_bytes(m) == ciphertext,
        m.content matches ContentView::Plain(Ok(cbor)) ==> content_bytes(m) == cbor,
        encoding(m).subrange(head(m).len() as int, (head(m).len() + content_bytes(m).len()) as int)
            == content_bytes(m),
{
    lemma_flag_bits(m);
    let from = head(m).len() as int;
    assert(encoding(m).subrange(from, from + content_bytes(m).len()) =~= content_bytes(m));
}

/// The timestamp field stands behind the sequence number, and its eight
/// bytes read as a big-endian number give the bit pattern back.
pub proof fn lemma_timestamp_field(m: MessageView)
    ensures
        timestamp_offset(m) + 8 <= attempted(m).len(),
        attempted(m).subrange(timestamp_offset(m), timestamp_offset(m) + 8)
            == timestamp_bytes(m),
        be_value(timestamp_bytes(m)) == m.timestamp,
{
    lemma_be_bytes_len(m.timestamp as nat, 8);
    lemma_u64_fits_eight_bytes(m.timestamp);
    let from = timestamp_offset(m);
    assert(attempted(m).subrange(from, from + 8) =~= timestamp_bytes(m));
}

/// The encoding is as long as its fields together: one byte of flags, the
/// author, the sequence number, eight bytes of timestamp, the predecessor
/// where there is one, the content and the signature.
pub proof fn lemma_encoding_len(m: MessageView)
    ensures
        encoding(m).len() == 1 + m.author.len() + varu64_bytes(m.sequence).len() + 8 + (match m.previous {
            Some(hash) => hash.len(),
            None => 0,
        }) + content_bytes(m).len() + m.signature.len(),
{
    lemma_be_bytes_len(m.timestamp as nat, 8);
}

/// The signature closes the encoding, whatever the flags are.
pub proof fn lemma_signature_last(m: MessageView)
    ensures
        m.signature.len() <= encoding(m).len(),
        encoding(m).subrange(encoding(m).len() - m.signature.len(), encoding(m).len() as int)
            == m.signature,
{
    let n = encoding(m).len();
    assert(encoding(m).subrange(n - m.signature.len(), n as int) =~= m.signature);
}

/// Messages that agree in every field have the same encoding, and either
/// both have a byte form or neither has.
pub proof fn lemma_encoding_deterministic(a: Message, b: Message)
    requires
        a@ == b@,
    ensures
        encodable(a@) == encodable(b@),
        encoding(a@) == encoding(b@),
        attempted(a@) == attempted(b@),
{
}

} // verus!
