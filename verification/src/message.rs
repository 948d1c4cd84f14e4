//! The outbound request record and its mathematical model.
use vstd::prelude::*;

verus! {

/// The four-field record that is encoded and framed for the wire.
///
/// The second field is a 32-bit floating-point number on the wire;
/// the library holds it as its IEEE 754 bit pattern (`float_bits`),
/// so that the encoding is a function of plain integer values.  The
/// text field is held as its UTF-8 bytes.
#[derive(Clone, Debug, PartialEq)]
pub struct RequestMessage {
    pub integer: i32,
    pub float_bits: u32,
    pub string: Vec<u8>,
    pub boolean: bool,
}

/// The mathematical model of a record: the same four fields, with the
/// text as a sequence of bytes.
#[verifier::ext_equal]
pub struct MessageModel {
    pub integer: i32,
    pub float_bits: u32,
    pub string: Seq<u8>,
    pub boolean: bool,
}

impl View for RequestMessage {
    type V = MessageModel;

    open spec fn view(&self) -> MessageModel {
        MessageModel {
            integer: self.integer,
            float_bits: self.float_bits,
            string: self.string@,
            boolean: self.boolean,
        }
    }
}

} // verus!
