//! The fixed binary envelope that frames a message on the wire.
//!
//! Layout, all integers little-endian: a 32-bit total payload length
//! (everything that follows it), a 32-bit length of the two-byte
//! type-tag field, the 16-bit type tag, a 32-bit message length, and
//! the raw message bytes.
use vstd::prelude::*;
use crate::codec::encode_message;
use crate::codec::lemma_message_bytes_len;
use crate::codec::message_bytes;
use crate::codec::push_bytes;
use crate::message::RequestMessage;
use crate::wire::le16_bytes;
use crate::wire::le32_bytes;
use crate::wire::push_le16;
use crate::wire::push_le32;

verus! {

/// The type tag of the request message schema.
pub const REQUEST_TYPE_TAG: u16 = 1;

/// The length in bytes of the type-tag field.
pub const TYPE_TAG_FIELD_LEN: u32 = 2;

/// The largest message the envelope can frame: the payload length,
/// `10 + msg.len()`, must fit in 32 bits.
pub const MAX_MESSAGE_LEN: u32 = 0xffff_fff5;

/// The envelope around message bytes `msg`.  The payload length
/// counts the type-tag-length field, the type tag, the message-length
/// field and the message itself.
pub open spec fn envelope_bytes(msg: Seq<u8>) -> Seq<u8> {
    le32_bytes((10 + msg.len()) as u32) + le32_bytes(TYPE_TAG_FIELD_LEN) + le16_bytes(
        REQUEST_TYPE_TAG,
    ) + le32_bytes(msg.len() as u32) + msg
}

/// The envelope's layout, byte by byte: fourteen header bytes, then
/// the message.  Bytes four to seven hold the type-tag field length
/// `2`, bytes eight and nine the type tag `1`, and the message bytes
/// follow unchanged from offset fourteen.
pub proof fn lemma_envelope_layout(msg: Seq<u8>)
    requires
        msg.len() <= MAX_MESSAGE_LEN,
    ensures
        envelope_bytes(msg).len() == 14 + msg.len(),
        envelope_bytes(msg).subrange(0, 4) == le32_bytes((10 + msg.len()) as u32),
        envelope_bytes(msg)[4] == 0x02 && envelope_bytes(msg)[5] == 0x00,
        envelope_bytes(msg)[6] == 0x00 && envelope_bytes(msg)[7] == 0x00,
        envelope_bytes(msg)[8] == 0x01 && envelope_bytes(msg)[9] == 0x00,
        envelope_bytes(msg).subrange(10, 14) == le32_bytes(msg.len() as u32),
        envelope_bytes(msg).subrange(14, envelope_bytes(msg).len() as int) == msg,
{
    let e = envelope_bytes(msg);
    assert(e.subrange(0, 4) =~= le32_bytes((10 + msg.len()) as u32));
    assert(e.subrange(10, 14) =~= le32_bytes(msg.len() as u32));
    assert(e.subrange(14, e.len() as int) =~= msg);
}

/// Builds the framed wire payload for the record: the fourteen-byte
/// envelope header followed by the encoded message.
pub fn build_payload(msg: RequestMessage) -> (r: Vec<u8>)
    requires
        msg.string@.len() + 29 <= MAX_MESSAGE_LEN,
    ensures
        r@ == envelope_bytes(message_bytes(msg@)),
        r@.len() == 14 + message_bytes(msg@).len(),
{
    let msg_buf = encode_message(&msg);
    proof {
        lemma_message_bytes_len(msg@);
    }
    let data_len: u32 = msg_buf.len() as u32;
    let payload_size: u32 = 10 + data_len;
    let mut buffer: Vec<u8> = Vec::new();
    push_le32(payload_size, &mut buffer);
    push_le32(TYPE_TAG_FIELD_LEN, &mut buffer);
    push_le16(REQUEST_TYPE_TAG, &mut buffer);
    push_le32(data_len, &mut buffer);
    push_bytes(&msg_buf, &mut buffer);
    proof {
        assert(buffer@ =~= envelope_bytes(message_bytes(msg@)));
    }
    buffer
}

} // verus!
