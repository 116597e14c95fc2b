//! A message of a kind that this library has no layout for.

use vstd::prelude::*;
use crate::bytes::{append, copy_range};
use crate::error::ProtoError;

verus! {

/// The kind byte of a message and everything that follows it, undecoded.
#[derive(Debug, Clone, PartialEq, Eq)]
pub struct UnknownPacket {
    pub id: u8,
    pub data: Vec<u8>,
}

/// What an undecoded message holds, with its bytes as a sequence.
pub struct UnknownPacketView {
    pub id: u8,
    pub data: Seq<u8>,
}

impl View for UnknownPacket {
    type V = UnknownPacketView;

    open spec fn view(&self) -> UnknownPacketView {
        UnknownPacketView { id: self.id, data: self.data@ }
    }
}

impl UnknownPacket {
    /// The wire form: the kind byte and the bytes that were kept.
    pub fn serialize(&self) -> (out: Vec<u8>)
        ensures
            out@ == seq![self.id] + self.data@,
    {
        let mut serialized: Vec<u8> = Vec::new();
        serialized.push(self.id);
        append(&mut serialized, self.data.as_slice());
        serialized
    }

    /// Keeps a whole message, kind byte included, as it came. Fails with
    /// `ShortPayload` on an empty input, which has no kind byte.
    pub fn deserialize(data: &[u8]) -> (result: Result<UnknownPacket, ProtoError>)
        ensures
            data@.len() == 0 ==> result == Err::<UnknownPacket, ProtoError>(ProtoError::ShortPayload),
            data@.len() > 0 ==> result is Ok && result->Ok_0@ == (UnknownPacketView {
                id: data@[0],
                data: data@.skip(1),
            }),
            result is Ok ==> seq![result->Ok_0@.id] + result->Ok_0@.data == data@,
    {
        if data.len() == 0 {
            return Err(ProtoError::ShortPayload);
        }
        let id = data[0];
        let data_vec = copy_range(data, 1, data.len());
        assert(seq![id] + data_vec@ =~= data@);
        Ok(UnknownPacket { id, data: data_vec })
    }
}

} // verus!
