//! The message as the encoder reads it.
//!
//! Keys, hashes, signatures and ciphertexts enter as the bytes of their
//! compact encodings, the timestamp as the bit pattern of its double, and a
//! plain payload as what canonical CBOR serialisation made of it.

use vstd::prelude::*;

verus! {

/// Why a plain payload has no canonical CBOR form.
#[derive(Debug)]
pub struct ContentError {
    /// The serialiser's account of the failure.
    pub reason: String,
}

/// The payload of a message.
#[derive(Debug)]
pub enum Content {
    /// A plain payload: its canonical CBOR bytes, or why it has none.
    Plain(Result<Vec<u8>, ContentError>),
    /// An encrypted payload: the compact encoding of its ciphertext.
    Encrypted(Vec<u8>),
}

/// One message of a feed.
#[derive(Debug)]
pub struct Message {
    /// The compact encoding of the author's key.
    pub author: Vec<u8>,
    /// The position of the message in its feed, counted from one.
    pub sequence: u64,
    /// The IEEE-754 bit pattern of the double-precision timestamp.
    pub timestamp: u64,
    /// The compact encoding of the preceding message's hash. Only the first
    /// message of a feed has none.
    pub previous: Option<Vec<u8>>,
    /// Whether the feed swaps the order of two of its fields.
    pub swapped: bool,
    /// The payload.
    pub content: Content,
    /// The compact encoding of the signature.
    pub signature: Vec<u8>,
}

/// What a `Content` stands for.
pub enum ContentView {
    Plain(Result<Seq<u8>, ContentError>),
    Encrypted(Seq<u8>),
}

/// What a `Message` stands for.
pub struct MessageView {
    pub author: Seq<u8>,
    pub sequence: u64,
    pub timestamp: u64,
    pub previous: Option<Seq<u8>>,
    pub swapped: bool,
    pub content: ContentView,
    pub signature: Seq<u8>,
}

impl View for Content {
    type V = ContentView;

    open spec fn view(&self) -> ContentView {
        match *self {
            Content::Plain(Ok(bytes)) => ContentView::Plain(Ok(bytes@)),
            Content::Plain(Err(e)) => ContentView::Plain(Err(e)),
            Content::Encrypted(bytes) => ContentView::Encrypted(bytes@),
        }
    }
}

impl View for Message {
    type V = MessageView;

    open spec fn view(&self) -> MessageView {
        MessageView {
            author: self.author@,
            sequence: self.sequence,
            timestamp: self.timestamp,
            previous: match self.previous {
                Some(hash) => Some(hash@),
                None => None,
            },
            swapped: self.swapped,
            content: self.content@,
            signature: self.signature@,
        }
    }
}

impl Message {
    /// Whether the payload is encrypted.
    pub fn is_encrypted(&self) -> (b: bool)
        ensures
            b == (self@.content is Encrypted),
    {
        match self.content {
            Content::Encrypted(_) => true,
            Content::Plain(_) => false,
        }
    }
}

} // verus!
