//! Byte sinks: where an encoder puts its output.

use vstd::prelude::*;

verus! {

/// Why a sink refused bytes.
#[derive(Debug)]
pub enum SinkError {
    /// The sink has no room left.
    Full,
    /// Any other failure, in the sink's own words.
    Other(String),
}

/// A destination for bytes that may refuse them.
///
/// A sink is described by the bytes it has taken so far and by the room it
/// vouches for. Room is used up by what is written and by nothing else. A
/// write that fails may still have put a leading part of its bytes into
/// the sink; nothing is ever taken out again.
pub trait Sink {
    /// The bytes that the sink has taken, in order.
    spec fn taken(&self) -> Seq<u8>;

    /// Whether the sink vouches for taking `n` more bytes.
    spec fn room_for(&self, n: nat) -> bool;

    /// A sink that vouches for `n` bytes vouches for any fewer.
    proof fn lemma_room_for_fewer(&self, n: nat, m: nat)
        requires
            self.room_for(n),
            m <= n,
        ensures
            self.room_for(m),
    ;

    /// Hands `bytes` to the sink, which takes them all where it vouched for
    /// as many. On success all of them were taken, and the sink vouches
    /// for that many bytes fewer than before; on failure some leading part
    /// of them was taken, possibly empty, possibly all.
    fn write_all(&mut self, bytes: &[u8]) -> (r: Result<(), SinkError>)
        ensures
            old(self).room_for(bytes@.len()) ==> r is Ok,
            r is Ok ==> final(self).taken() == old(self).taken() + bytes@,
            r is Ok ==> forall|n: nat| #[trigger]
                final(self).room_for(n) == old(self).room_for(bytes@.len() + n),
            r is Err ==> written_part(old(self).taken(), bytes@, final(self).taken()),
    ;
}

/// `after` is `before` followed by a leading part of `bytes`.
pub open spec fn written_part(before: Seq<u8>, bytes: Seq<u8>, after: Seq<u8>) -> bool {
    &&& before.len() <= after.len() <= before.len() + bytes.len()
    &&& after == before + bytes.take(after.len() - before.len())
}

/// A growable vector takes whatever it is given, at its end.
impl Sink for Vec<u8> {
    open spec fn taken(&self) -> Seq<u8> {
        self@
    }

    open spec fn room_for(&self, n: nat) -> bool {
        true
    }

    proof fn lemma_room_for_fewer(&self, n: nat, m: nat) {
    }

    fn write_all(&mut self, bytes: &[u8]) -> (r: Result<(), SinkError>) {
        let ghost before = self@;
        self.extend_from_slice(bytes);
        assert(self@ =~= before + bytes@);
        Ok(())
    }
}

/// A buffer that takes bytes up to a limit set when it is made, and no more.
pub struct BoundedBuf {
    bytes: Vec<u8>,
    room: usize,
}

impl BoundedBuf {
    /// The bytes held.
    pub closed spec fn view(&self) -> Seq<u8> {
        self.bytes@
    }

    /// The most bytes the buffer will ever hold.
    pub closed spec fn limit(&self) -> nat {
        self.bytes@.len() + self.room as nat
    }

    /// A buffer never holds more than its limit.
    pub proof fn lemma_within_limit(&self)
        ensures
            self@.len() <= self.limit(),
    {
    }

    /// An empty buffer that will hold up to `limit` bytes.
    pub fn new(limit: usize) -> (buf: Self)
        ensures
            buf@ == Seq::<u8>::empty(),
            buf.limit() == limit,
    {
        BoundedBuf { bytes: Vec::new(), room: limit }
    }

    /// How many more bytes the buffer will take.
    pub fn room(&self) -> (n: usize)
        ensures
            n == self.limit() - self@.len(),
    {
        self.room
    }

    /// The bytes held.
    pub fn as_slice(&self) -> (s: &[u8])
        ensures
            s@ == self@,
    {
        self.bytes.as_slice()
    }
}

/// A bounded buffer takes bytes while they fit. Of a write that does not
/// fit it keeps the leading part that does, and reports that it is full.
impl Sink for BoundedBuf {
    open spec fn taken(&self) -> Seq<u8> {
        self@
    }

    open spec fn room_for(&self, n: nat) -> bool {
        self@.len() + n <= self.limit()
    }

    proof fn lemma_room_for_fewer(&self, n: nat, m: nat) {
    }

    fn write_all(&mut self, bytes: &[u8]) -> (r: Result<(), SinkError>)
        ensures
            r is Ok <==> old(self).room_for(bytes@.len()),
            final(self).limit() == old(self).limit(),
            r is Err ==> r == Err::<(), SinkError>(SinkError::Full)
                && final(self)@.len() == final(self).limit(),
    {
        let ghost before = self.bytes@;
        if bytes.len() <= self.room {
            self.bytes.extend_from_slice(bytes);
            self.room = self.room - bytes.len();
            assert(self.bytes@ =~= before + bytes@);
            Ok(())
        } else {
            let part = vstd::slice::slice_subrange(bytes, 0, self.room);
            self.bytes.extend_from_slice(part);
            assert(self.bytes@ =~= before + bytes@.take(self.room as int));
            self.room = 0;
            Err(SinkError::Full)
        }
    }
}

} // verus!
