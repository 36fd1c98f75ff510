//! Fixed-size message payloads carrying a sequence index.
//!
//! A payload's first eight bytes hold the message's sequence index in
//! little-endian order; the rest is a fixed fill byte.  The index is what
//! lets the collector match a received payload to its send timestamp
//! without any shared channel.

use vstd::bytes::*;
use vstd::prelude::*;

use crate::ConfigError;

verus! {

/// A message payload as a transport carries it.
pub type MsgType = Vec<u8>;

/// The byte that pads a payload beyond its leading index bytes.
pub const FILL_BYTE: u8 = 0x61;

/// Error returned when a payload cannot carry a sequence index.
#[derive(Debug, Clone, Copy, PartialEq, Eq, Structural)]
pub enum DecodeError {
    /// The payload holds fewer than eight bytes.
    TooShort,
}

/// The payload built for message number `msg_nr` and total size `length`:
/// the index in little-endian order, then fill bytes.
pub open spec fn spec_message(msg_nr: u64, length: int) -> Seq<u8> {
    spec_u64_to_le_bytes(msg_nr) + Seq::new((length - 8) as nat, |i: int| FILL_BYTE)
}

/// The sequence index carried by the first eight bytes of a payload.
pub open spec fn spec_index_of(msg: Seq<u8>) -> u64
    recommends
        msg.len() >= 8,
{
    spec_u64_from_le_bytes(msg.subrange(0, 8))
}

/// Builds the payload for message number `msg_nr`: eight little-endian
/// index bytes, then fill bytes up to `length` bytes in all.
///
/// A `length` of eight or less is a programming error; `try_create_message`
/// is the checked front for sizes that come from configuration.
pub fn create_message(msg_nr: usize, length: usize) -> (msg: MsgType)
    requires
        length > 8,
    ensures
        msg@ == spec_message(msg_nr as u64, length as int),
        msg@.len() == length,
        spec_index_of(msg@) == msg_nr as u64,
{
    proof {
        lemma_auto_spec_u64_to_from_le_bytes();
    }
    let mut msg = u64_to_le_bytes(msg_nr as u64);
    while msg.len() < length
        invariant
            8 <= msg@.len() <= length,
            msg@.subrange(0, 8) == spec_u64_to_le_bytes(msg_nr as u64),
            forall|i: int| 8 <= i < msg@.len() ==> msg@[i] == FILL_BYTE,
        decreases length - msg@.len(),
    {
        let ghost pre = msg@;
        msg.push(FILL_BYTE);
        proof {
            assert(msg@.subrange(0, 8) =~= pre.subrange(0, 8));
        }
    }
    proof {
        assert(msg@ =~= spec_message(msg_nr as u64, length as int));
        assert(msg@.subrange(0, 8) =~= spec_u64_to_le_bytes(msg_nr as u64));
    }
    msg
}

/// Checked payload construction: a size without room behind the index is
/// rejected outright — for no input does a payload come back truncated.
pub fn try_create_message(msg_nr: usize, length: usize) -> (r: Result<MsgType, ConfigError>)
    ensures
        r is Ok <==> length > 8,
        r is Ok ==> r->Ok_0@ == spec_message(msg_nr as u64, length as int),
        r is Ok ==> r->Ok_0@.len() == length && spec_index_of(r->Ok_0@) == msg_nr as u64,
        r is Err ==> r->Err_0 == ConfigError::MessageSizeTooSmall,
{
    if length > 8 {
        Ok(create_message(msg_nr, length))
    } else {
        Err(ConfigError::MessageSizeTooSmall)
    }
}

/// Extracts the sequence index from the first eight bytes of a payload.
///
/// Fails exactly on payloads of fewer than eight bytes; anything longer
/// decodes to the index its head encodes, whatever trails it.
pub fn index_from_message(msg: MsgType) -> (r: Result<u64, DecodeError>)
    ensures
        r is Ok <==> msg@.len() >= 8,
        r is Ok ==> r->Ok_0 == spec_index_of(msg@),
        r is Err ==> r->Err_0 == DecodeError::TooShort,
{
    if msg.len() < 8 {
        return Err(DecodeError::TooShort);
    }
    let head: &[u8] = &msg.as_slice()[0..8];
    let idx = u64_from_le_bytes(head);
    Ok(idx)
}

/// Law: decoding a built payload yields the index it was built from, for
/// every index and every size that `create_message` accepts.
pub proof fn lemma_codec_round_trip(msg_nr: u64, length: int)
    requires
        length > 8,
    ensures
        spec_message(msg_nr, length).len() == length,
        spec_index_of(spec_message(msg_nr, length)) == msg_nr,
{
    lemma_auto_spec_u64_to_from_le_bytes();
    assert(spec_message(msg_nr, length).subrange(0, 8) =~= spec_u64_to_le_bytes(msg_nr));
}

} // verus!
