//! What the core asks of a user-defined message.

use vstd::prelude::*;

verus! {

/// A message that can be sent and received from the network.
///
/// The core treats a message as opaque. It needs two things of it: to turn it
/// into bytes, and to find it again at the start of a run of bytes. Message
/// bodies are packed back to back without a length, so it is `deserialize`
/// that tells where a message ends.
///
/// `encoding` and `decoding` name what the two operations compute, so that the
/// contracts of the core can speak of it. An implementation outside of
/// verified code leaves both at their defaults.
pub trait NetworkMessage: Sized {
    type Error;

    /// Whether `serialize` and `deserialize` compute what `encoding` and
    /// `decoding` say.
    open spec fn obeys_wire_spec() -> bool {
        false
    }

    /// The bytes that stand for this message, or `None` for a message that
    /// cannot be serialized.
    open spec fn encoding(&self) -> Option<Seq<u8>> {
        None
    }

    /// The message that `bytes` start with and the number of bytes it takes,
    /// or `None` if they start with no message.
    open spec fn decoding(bytes: Seq<u8>) -> Option<(Self, int)> {
        None
    }

    /// Appends the bytes of this message to `writer`.
    fn serialize(&self, writer: &mut Vec<u8>) -> (result: Result<(), Self::Error>)
        ensures
            Self::obeys_wire_spec() ==> (result is Ok <==> self.encoding() is Some),
            Self::obeys_wire_spec() && result is Ok ==> final(writer)@ == old(writer)@
                + self.encoding().unwrap(),
    ;

    /// Reads one message from the start of `reader`, and says how many bytes
    /// it took.
    fn deserialize(reader: &[u8]) -> (result: Result<(Self, usize), Self::Error>)
        ensures
            Self::obeys_wire_spec() ==> match result {
                Ok((message, taken)) => Self::decoding(reader@) == Some((message, taken as int)),
                Err(_) => Self::decoding(reader@) is None,
            },
    ;
}

} // verus!
