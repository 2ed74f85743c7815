//! Writing a message in its compact form.

use vstd::prelude::*;
use vstd::std_specs::convert::FromSpecImpl;
use vstd::utf8::{decode_utf8, valid_utf8};
use crate::endian::u64_be_bytes;
use crate::layout::{
    attempted, content_bytes, encodable, encoding, flags, head, previous_bytes, timestamp_bytes,
    FLAG_ENCRYPTED, FLAG_PREVIOUS, FLAG_SWAPPED,
};
use crate::message::{Content, ContentError, ContentView, Message, MessageView};
use crate::sink::{written_part, Sink, SinkError};
use crate::varu::{varu64_bytes, varu64_encode};

verus! {

/// Everything that can go wrong when encoding a message.
#[derive(Debug)]
pub enum EncodeClmrError {
    /// The sink refused a write.
    Io(SinkError),
    /// The plain payload has no canonical CBOR form.
    Content(ContentError),
    /// The encoded bytes are not well-formed UTF-8, so no string holds them.
    InvalidUtf8,
}

impl From<SinkError> for EncodeClmrError {
    fn from(e: SinkError) -> (r: EncodeClmrError) {
        EncodeClmrError::Io(e)
    }
}

impl FromSpecImpl<SinkError> for EncodeClmrError {
    open spec fn obeys_from_spec() -> bool {
        true
    }

    open spec fn from_spec(e: SinkError) -> EncodeClmrError {
        EncodeClmrError::Io(e)
    }
}

impl From<ContentError> for EncodeClmrError {
    fn from(e: ContentError) -> (r: EncodeClmrError) {
        EncodeClmrError::Content(e)
    }
}

impl FromSpecImpl<ContentError> for EncodeClmrError {
    open spec fn obeys_from_spec() -> bool {
        true
    }

    open spec fn from_spec(e: ContentError) -> EncodeClmrError {
        EncodeClmrError::Content(e)
    }
}

/// The encoding up to and including the author.
spec fn upto_author(m: MessageView) -> Seq<u8> {
    seq![flags(m)] + m.author
}

/// The encoding up to and including the sequence number.
spec fn upto_sequence(m: MessageView) -> Seq<u8> {
    upto_author(m) + varu64_bytes(m.sequence)
}

/// The encoding up to and including the timestamp.
spec fn upto_timestamp(m: MessageView) -> Seq<u8> {
    upto_sequence(m) + timestamp_bytes(m)
}

/// The encoding up to and including the content.
spec fn upto_content(m: MessageView) -> Seq<u8> {
    head(m) + content_bytes(m)
}

/// `a` leads `a + b`, and so does whatever leads `a`.
proof fn lemma_leads(lead: Seq<u8>, a: Seq<u8>, b: Seq<u8>)
    requires
        lead.is_prefix_of(a),
    ensures
        lead.is_prefix_of(a + b),
        a.is_prefix_of(a + b),
{
}

/// Each stage of the encoding leads what the encoder sets out to write.
proof fn lemma_stages(m: MessageView)
    ensures
        seq![flags(m)].is_prefix_of(attempted(m)),
        upto_author(m).is_prefix_of(attempted(m)),
        upto_sequence(m).is_prefix_of(attempted(m)),
        upto_timestamp(m).is_prefix_of(attempted(m)),
        head(m).is_prefix_of(attempted(m)),
        head(m) == upto_timestamp(m) + previous_bytes(m),
        encodable(m) ==> upto_content(m).is_prefix_of(attempted(m)),
        encodable(m) ==> attempted(m) == upto_content(m) + m.signature,
        !encodable(m) ==> attempted(m) == head(m),
{
    let f = seq![flags(m)];
    lemma_leads(f, f, m.author);
    lemma_leads(f, upto_author(m), varu64_bytes(m.sequence));
    lemma_leads(f, upto_sequence(m), timestamp_bytes(m));
    lemma_leads(f, upto_timestamp(m), previous_bytes(m));
    lemma_leads(upto_author(m), upto_sequence(m), timestamp_bytes(m));
    lemma_leads(upto_author(m), upto_timestamp(m), previous_bytes(m));
    lemma_leads(upto_sequence(m), upto_timestamp(m), previous_bytes(m));
    if encodable(m) {
        lemma_leads(f, head(m), content_bytes(m));
        lemma_leads(upto_author(m), head(m), content_bytes(m));
        lemma_leads(upto_sequence(m), head(m), content_bytes(m));
        lemma_leads(upto_timestamp(m), head(m), content_bytes(m));
        lemma_leads(f, upto_content(m), m.signature);
        lemma_leads(upto_author(m), upto_content(m), m.signature);
        lemma_leads(upto_sequence(m), upto_content(m), m.signature);
        lemma_leads(upto_timestamp(m), upto_content(m), m.signature);
        lemma_leads(head(m), upto_content(m), m.signature);
    }
}

/// Hands the sink `bytes`, the stretch of `plan` that follows `done`.
/// `origin` is the sink as it was before anything of `plan` was written.
fn put<W: Sink>(
    w: &mut W,
    bytes: &[u8],
    Ghost(origin): Ghost<W>,
    Ghost(done): Ghost<Seq<u8>>,
    Ghost(plan): Ghost<Seq<u8>>,
) -> (r: Result<(), EncodeClmrError>)
    requires
        (done + bytes@).is_prefix_of(plan),
        old(w).taken() == origin.taken() + done,
        forall|n: nat| #[trigger] old(w).room_for(n) == origin.room_for(done.len() + n),
    ensures
        match r {
            Ok(()) => {
                &&& final(w).taken() == origin.taken() + (done + bytes@)
                &&& forall|n: nat| #[trigger]
                    final(w).room_for(n) == origin.room_for((done + bytes@).len() + n)
            },
            Err(e) => e is Io && written_part(origin.taken(), plan, final(w).taken()),
        },
        origin.room_for(plan.len()) ==> r is Ok,
{
    let ghost before = *w;
    proof {
        let left = (plan.len() - done.len()) as nat;
        assert(w.room_for(left) == origin.room_for(done.len() + left));
        if origin.room_for(plan.len()) {
            w.lemma_room_for_fewer(left, bytes@.len());
        }
    }
    match w.write_all(bytes) {
        Ok(()) => {
            proof {
                assert(before.taken() + bytes@ =~= origin.taken() + (done + bytes@));
                assert forall|n: nat| #[trigger]
                    w.room_for(n) == origin.room_for((done + bytes@).len() + n) by {
                    assert(w.room_for(n) == before.room_for(bytes@.len() + n));
                    assert(before.room_for(bytes@.len() + n) == origin.room_for(
                        done.len() + (bytes@.len() + n),
                    ));
                }
            }
            Ok(())
        },
        Err(e) => {
            proof {
                let k = w.taken().len() - before.taken().len();
                assert(before.taken() + bytes@.take(k) =~= origin.taken() + plan.take(
                    done.len() + k,
                ));
            }
            Err(EncodeClmrError::from(e))
        },
    }
}

/// Writes `msg` to `w` in its compact form: the flags byte, the author,
/// the sequence number as a varu64, the timestamp in eight big-endian
/// bytes, the predecessor where there is one, the content and the
/// signature.
///
/// The first write that the sink refuses ends the call with `Io`, and a
/// plain payload without a byte form ends it with `Content` once the head
/// is written. What the sink took before that stays in it. A sink that
/// vouches for room enough refuses nothing.
pub fn to_clmr<W: Sink>(msg: &Message, w: &mut W) -> (r: Result<(), EncodeClmrError>)
    ensures
        match r {
            Ok(()) => encodable(msg@) && final(w).taken() == old(w).taken() + encoding(msg@),
            Err(EncodeClmrError::Content(e)) => msg@.content == ContentView::Plain(Err(e))
                && final(w).taken() == old(w).taken() + head(msg@),
            Err(EncodeClmrError::Io(_)) => written_part(
                old(w).taken(),
                attempted(msg@),
                final(w).taken(),
            ),
            Err(EncodeClmrError::InvalidUtf8) => false,
        },
        old(w).room_for(attempted(msg@).len()) ==> !(r matches Err(EncodeClmrError::Io(_))),
        !(r matches Err(EncodeClmrError::Io(_))) ==> forall|n: nat| #[trigger]
            final(w).room_for(n) == old(w).room_for(attempted(msg@).len() + n),
{
    let ghost origin = *w;
    let ghost m = msg@;
    let ghost plan = attempted(m);

    let mut bits: u8 = 0;
    if msg.previous.is_some() {
        bits |= FLAG_PREVIOUS;
    }
    let ghost with_previous = bits;
    if msg.swapped {
        bits |= FLAG_SWAPPED;
    }
    let ghost with_swapped = bits;
    if msg.is_encrypted() {
        bits |= FLAG_ENCRYPTED;
    }
    let first: [u8; 1] = [bits];
    let sequence = varu64_encode(msg.sequence);
    let timestamp = u64_be_bytes(msg.timestamp);
    proof {
        assert(0u8 | 0x04u8 == 0x04u8) by (bit_vector);
        assert(with_previous | 0u8 == with_previous) by (bit_vector);
        assert(with_swapped | 0u8 == with_swapped) by (bit_vector);
        assert(bits == flags(m));
        assert(first@ =~= seq![flags(m)]);
        assert(Seq::<u8>::empty() + first@ =~= first@);
        assert(origin.taken() + Seq::<u8>::empty() =~= origin.taken());
        lemma_stages(m);
    }

    put(w, first.as_slice(), Ghost(origin), Ghost(Seq::empty()), Ghost(plan))?;
    put(w, msg.author.as_slice(), Ghost(origin), Ghost(first@), Ghost(plan))?;
    put(w, sequence.as_slice(), Ghost(origin), Ghost(upto_author(m)), Ghost(plan))?;
    put(w, timestamp.as_slice(), Ghost(origin), Ghost(upto_sequence(m)), Ghost(plan))?;
    match &msg.previous {
        Some(hash) => {
            put(w, hash.as_slice(), Ghost(origin), Ghost(upto_timestamp(m)), Ghost(plan))?;
        },
        None => {
            assert(upto_timestamp(m) + Seq::<u8>::empty() =~= upto_timestamp(m));
        },
    }
    match &msg.content {
        Content::Encrypted(ciphertext) => {
            put(w, ciphertext.as_slice(), Ghost(origin), Ghost(head(m)), Ghost(plan))?;
        },
        Content::Plain(Ok(cbor)) => {
            put(w, cbor.as_slice(), Ghost(origin), Ghost(head(m)), Ghost(plan))?;
        },
        Content::Plain(Err(e)) => {
            return Err(EncodeClmrError::from(ContentError { reason: e.reason.clone() }));
        },
    }
    put(w, msg.signature.as_slice(), Ghost(origin), Ghost(upto_content(m)), Ghost(plan))?;
    Ok(())
}

/// Encodes `msg` into a vector of its own. It fails only where the plain
/// payload has no byte form.
pub fn to_clmr_vec(msg: &Message) -> (r: Result<Vec<u8>, EncodeClmrError>)
    ensures
        match r {
            Ok(bytes) => encodable(msg@) && bytes@ == encoding(msg@),
            Err(EncodeClmrError::Content(e)) => msg@.content == ContentView::Plain(Err(e)),
            Err(_) => false,
        },
{
    let mut out: Vec<u8> = Vec::with_capacity(256);
    match to_clmr(msg, &mut out) {
        Ok(()) => {
            assert(out@ =~= encoding(msg@));
            Ok(out)
        },
        Err(e) => Err(e),
    }
}

/// Calls `String::from_utf8`, which makes a string of exactly these bytes
/// where they are well-formed UTF-8 and refuses them where they are not.
#[verifier::external_body]
fn string_from_utf8(bytes: Vec<u8>) -> (r: Option<String>)
    ensures
        r is Some <==> valid_utf8(bytes@),
        r matches Some(s) ==> s@ == decode_utf8(bytes@),
{
    String::from_utf8(bytes).ok()
}

/// Encodes `msg` into a string that holds the encoded bytes as its UTF-8
/// text. The encoding is binary, so this succeeds only for the messages
/// whose bytes happen to be well-formed UTF-8; for all others it reports
/// `InvalidUtf8` and makes no string.
pub fn to_clmr_string(msg: &Message) -> (r: Result<String, EncodeClmrError>)
    ensures
        match r {
            Ok(s) => encodable(msg@) && valid_utf8(encoding(msg@)) && s@ == decode_utf8(
                encoding(msg@),
            ),
            Err(EncodeClmrError::Content(e)) => msg@.content == ContentView::Plain(Err(e)),
            Err(EncodeClmrError::InvalidUtf8) => encodable(msg@) && !valid_utf8(encoding(msg@)),
            Err(EncodeClmrError::Io(_)) => false,
        },
{
    match to_clmr_vec(msg) {
        Ok(bytes) => match string_from_utf8(bytes) {
            Some(s) => Ok(s),
            None => Err(EncodeClmrError::InvalidUtf8),
        },
        Err(e) => Err(e),
    }
}

} // verus!
