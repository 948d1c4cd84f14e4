//! Protobuf encoding of the request record.
//!
//! The record is encoded as four scalar fields: an `int32` varint
//! (field 1), a 32-bit float as its bits in little-endian order
//! (field 2), a length-delimited byte string (field 3), and a `bool`
//! varint (field 4).  A field whose value is the default for its type
//! is omitted, and a missing field decodes to that default.
use vstd::prelude::*;
use vstd::arithmetic::div_mod::lemma_fundamental_div_mod_converse_mod;
use crate::message::MessageModel;
use crate::message::RequestMessage;
use crate::wire::varint;
use crate::wire::parse_varint;
use crate::wire::le32_bytes;
use crate::wire::le32_value;
use crate::wire::lemma_parse_varint;
use crate::wire::lemma_parse_varint_bounds;
use crate::wire::lemma_le32_round_trip;
use crate::wire::lemma_varint_len;
use crate::wire::encode_varint;
use crate::wire::decode_varint;
use crate::wire::push_le32;

verus! {

/// Key byte of field 1 (`int32`, wire type varint).
pub const INTEGER_KEY: u8 = 0x08;

/// Key byte of field 2 (`float`, wire type 32-bit).
pub const FLOAT_KEY: u8 = 0x15;

/// Key byte of field 3 (`string`, wire type length-delimited).
pub const STRING_KEY: u8 = 0x1a;

/// Key byte of field 4 (`bool`, wire type varint).
pub const BOOLEAN_KEY: u8 = 0x20;

/// The 64-bit value that carries an `int32` in a varint: the value
/// itself when non-negative, the value plus `2^64` when negative.
pub open spec fn int32_as_u64(i: i32) -> u64 {
    if i >= 0 {
        i as u64
    } else {
        (i + 0x1_0000_0000_0000_0000) as u64
    }
}

/// The `int32` read back from a varint value: the low 32 bits,
/// interpreted in two's complement.
pub open spec fn u64_low32_as_i32(v: u64) -> i32 {
    if v % 0x1_0000_0000 < 0x8000_0000 {
        (v % 0x1_0000_0000) as i32
    } else {
        (v % 0x1_0000_0000 - 0x1_0000_0000) as i32
    }
}

/// Wire bytes of field 1; empty when the value is the default `0`.
pub open spec fn integer_field_bytes(i: i32) -> Seq<u8> {
    if i == 0 {
        Seq::empty()
    } else {
        seq![INTEGER_KEY] + varint(int32_as_u64(i))
    }
}

/// Wire bytes of field 2; empty when the bit pattern is the default
/// all-zero one.
pub open spec fn float_field_bytes(bits: u32) -> Seq<u8> {
    if bits == 0 {
        Seq::empty()
    } else {
        seq![FLOAT_KEY] + le32_bytes(bits)
    }
}

/// Wire bytes of field 3; empty when the string is empty.
pub open spec fn string_field_bytes(s: Seq<u8>) -> Seq<u8> {
    if s.len() == 0 {
        Seq::empty()
    } else {
        seq![STRING_KEY] + varint(s.len() as u64) + s
    }
}

/// Wire bytes of field 4; empty when the value is the default `false`.
pub open spec fn boolean_field_bytes(b: bool) -> Seq<u8> {
    if b {
        seq![BOOLEAN_KEY, 1u8]
    } else {
        Seq::empty()
    }
}

/// The full encoded message: the four fields in tag order.
pub open spec fn message_bytes(m: MessageModel) -> Seq<u8> {
    integer_field_bytes(m.integer) + float_field_bytes(m.float_bits) + string_field_bytes(
        m.string,
    ) + boolean_field_bytes(m.boolean)
}

/// The encoded message is at most 29 bytes longer than the string.
pub proof fn lemma_message_bytes_len(m: MessageModel)
    ensures
        message_bytes(m).len() <= 29 + m.string.len(),
{
    lemma_varint_len(int32_as_u64(m.integer));
    lemma_varint_len(m.string.len() as u64);
}

/// The varint value that carries `i` on the wire.
pub fn int32_to_u64(i: i32) -> (r: u64)
    ensures
        r == int32_as_u64(i),
{
    if i >= 0 {
        i as u64
    } else {
        u64::MAX - ((-(i + 1)) as u64)
    }
}

/// Appends every byte of `s` to `out`.
pub fn push_bytes(s: &Vec<u8>, out: &mut Vec<u8>)
    ensures
        final(out)@ == old(out)@ + s@,
{
    proof {
        assert(out@ + s@.subrange(0, 0) =~= out@);
    }
    let mut i: usize = 0;
    while i < s.len()
        invariant
            i <= s@.len(),
            out@ == old(out)@ + s@.subrange(0, i as int),
        decreases s@.len() - i,
    {
        out.push(s[i]);
        i = i + 1;
        proof {
            assert(out@ =~= old(out)@ + s@.subrange(0, i as int));
        }
    }
    proof {
        assert(s@.subrange(0, s@.len() as int) =~= s@);
    }
}

/// Decodes field 1 from the front of `s`: the value and the bytes
/// consumed, with the default value and nothing consumed when the
/// field is absent.
pub open spec fn parse_integer_field(s: Seq<u8>) -> Option<(i32, int)> {
    if s.len() == 0 || s[0] != INTEGER_KEY {
        Some((0i32, 0))
    } else {
        match parse_varint(s.skip(1)) {
            Some((v, k)) => Some((u64_low32_as_i32(v), 1 + k)),
            None => None,
        }
    }
}

/// Decodes field 2 from the front of `s`, as `parse_integer_field`
/// does field 1.
pub open spec fn parse_float_field(s: Seq<u8>) -> Option<(u32, int)> {
    if s.len() == 0 || s[0] != FLOAT_KEY {
        Some((0u32, 0))
    } else if s.len() < 5 {
        None
    } else {
        Some((le32_value(s[1], s[2], s[3], s[4]), 5))
    }
}

/// Decodes field 3 from the front of `s`, as `parse_integer_field`
/// does field 1.
pub open spec fn parse_string_field(s: Seq<u8>) -> Option<(Seq<u8>, int)> {
    if s.len() == 0 || s[0] != STRING_KEY {
        Some((Seq::empty(), 0))
    } else {
        match parse_varint(s.skip(1)) {
            Some((v, k)) => if v as int <= s.len() - 1 - k {
                Some((s.subrange(1 + k, 1 + k + v as int), 1 + k + v as int))
            } else {
                None
            },
            None => None,
        }
    }
}

/// Decodes field 4 from the front of `s`, as `parse_integer_field`
/// does field 1.
pub open spec fn parse_boolean_field(s: Seq<u8>) -> Option<(bool, int)> {
    if s.len() == 0 || s[0] != BOOLEAN_KEY {
        Some((false, 0))
    } else {
        match parse_varint(s.skip(1)) {
            Some((v, k)) => Some((v != 0, 1 + k)),
            None => None,
        }
    }
}

/// Decodes a whole message: the four fields in tag order, each
/// optional, with no bytes left over.
pub open spec fn parse_message(s: Seq<u8>) -> Option<MessageModel> {
    match parse_integer_field(s) {
        None => None,
        Some((integer, c1)) => match parse_float_field(s.skip(c1)) {
            None => None,
            Some((float_bits, c2)) => match parse_string_field(s.skip(c1).skip(c2)) {
                None => None,
                Some((string, c3)) => match parse_boolean_field(s.skip(c1).skip(c2).skip(c3)) {
                    None => None,
                    Some((boolean, c4)) => if s.skip(c1).skip(c2).skip(c3).skip(c4).len() == 0 {
                        Some(MessageModel { integer, float_bits, string, boolean })
                    } else {
                        None
                    },
                },
            },
        },
    }
}

/// Encodes the record as protobuf message bytes, omitting fields that
/// hold their default value.
pub fn encode_message(m: &RequestMessage) -> (r: Vec<u8>)
    ensures
        r@ == message_bytes(m@),
{
    let mut out: Vec<u8> = Vec::new();
    if m.integer != 0 {
        out.push(INTEGER_KEY);
        encode_varint(int32_to_u64(m.integer), &mut out);
    }
    if m.float_bits != 0 {
        out.push(FLOAT_KEY);
        push_le32(m.float_bits, &mut out);
    }
    if m.string.len() > 0 {
        out.push(STRING_KEY);
        encode_varint(m.string.len() as u64, &mut out);
        push_bytes(&m.string, &mut out);
    }
    if m.boolean {
        out.push(BOOLEAN_KEY);
        out.push(1);
    }
    proof {
        assert(out@ =~= message_bytes(m@));
    }
    out
}

/// The `int32` carried by the varint value `v`.
pub fn u64_to_i32(v: u64) -> (r: i32)
    ensures
        r == u64_low32_as_i32(v),
{
    let low: u64 = v % 0x1_0000_0000;
    if low < 0x8000_0000 {
        low as i32
    } else {
        -((0xffff_ffffu64 - low) as i32) - 1
    }
}

/// The 32-bit integer carried by four little-endian bytes.
pub fn le32_from_bytes(b0: u8, b1: u8, b2: u8, b3: u8) -> (r: u32)
    ensures
        r == le32_value(b0, b1, b2, b3),
{
    b0 as u32 + b1 as u32 * 0x100 + b2 as u32 * 0x10000 + b3 as u32 * 0x1000000
}

/// Decodes field 1 starting at `pos`, returning the value and the
/// position just past the field.
fn decode_integer_field(s: &[u8], pos: usize) -> (r: Option<(i32, usize)>)
    requires
        pos <= s@.len(),
    ensures
        (parse_integer_field(s@.skip(pos as int)) is None ==> r is None),
        (parse_integer_field(s@.skip(pos as int)) matches Some((v, k)) ==> r matches Some(
            (rv, np),
        ) && rv == v && np == pos + k && pos <= np <= s@.len()),
{
    if pos == s.len() || s[pos] != INTEGER_KEY {
        Some((0i32, pos))
    } else {
        proof {
            assert(s@.skip(pos as int).skip(1) =~= s@.skip(pos as int + 1));
            lemma_parse_varint_bounds(s@.skip(pos as int + 1));
        }
        match decode_varint(s, pos + 1) {
            Some((v, np)) => Some((u64_to_i32(v), np)),
            None => None,
        }
    }
}

/// Decodes field 2 starting at `pos`.
fn decode_float_field(s: &[u8], pos: usize) -> (r: Option<(u32, usize)>)
    requires
        pos <= s@.len(),
    ensures
        (parse_float_field(s@.skip(pos as int)) is None ==> r is None),
        (parse_float_field(s@.skip(pos as int)) matches Some((v, k)) ==> r matches Some(
            (rv, np),
        ) && rv == v && np == pos + k && pos <= np <= s@.len()),
{
    if pos == s.len() || s[pos] != FLOAT_KEY {
        Some((0u32, pos))
    } else if s.len() - pos < 5 {
        None
    } else {
        let v = le32_from_bytes(s[pos + 1], s[pos + 2], s[pos + 3], s[pos + 4]);
        Some((v, pos + 5))
    }
}

/// Decodes field 3 starting at `pos`.
fn decode_string_field(s: &[u8], pos: usize) -> (r: Option<(Vec<u8>, usize)>)
    requires
        pos <= s@.len(),
    ensures
        (parse_string_field(s@.skip(pos as int)) is None ==> r is None),
        (parse_string_field(s@.skip(pos as int)) matches Some((v, k)) ==> r matches Some(
            (bytes, np),
        ) && bytes@ == v && np == pos + k && pos <= np <= s@.len()),
{
    if pos == s.len() || s[pos] != STRING_KEY {
        Some((Vec::new(), pos))
    } else {
        proof {
            assert(s@.skip(pos as int).skip(1) =~= s@.skip(pos as int + 1));
            lemma_parse_varint_bounds(s@.skip(pos as int + 1));
        }
        match decode_varint(s, pos + 1) {
            None => None,
            Some((v, np)) => if v <= (s.len() - np) as u64 {
                let len = v as usize;
                let mut out: Vec<u8> = Vec::new();
                let mut i: usize = 0;
                proof {
                    assert(out@ =~= s@.subrange(np as int, np as int));
                }
                while i < len
                    invariant
                        i <= len,
                        np + len <= s@.len(),
                        s@.len() <= usize::MAX,
                        out@ == s@.subrange(np as int, np as int + i as int),
                    decreases len - i,
                {
                    out.push(s[np + i]);
                    i = i + 1;
                    proof {
                        assert(out@ =~= s@.subrange(np as int, np as int + i as int));
                    }
                }
                proof {
                    let ss = s@.skip(pos as int);
                    let k = (np - pos - 1) as int;
                    assert forall|j: int| 0 <= j < v as int implies #[trigger] ss[1 + k + j]
                        == s@[np as int + j] by {
                        assert(ss[1 + k + j] == s@[pos as int + 1 + k + j]);
                    }
                    assert(ss.subrange(1 + k, 1 + k + v as int) =~= s@.subrange(
                        np as int,
                        np as int + v as int,
                    ));
                }
                Some((out, np + len))
            } else {
                None
            },
        }
    }
}

/// Decodes field 4 starting at `pos`.
fn decode_boolean_field(s: &[u8], pos: usize) -> (r: Option<(bool, usize)>)
    requires
        pos <= s@.len(),
    ensures
        (parse_boolean_field(s@.skip(pos as int)) is None ==> r is None),
        (parse_boolean_field(s@.skip(pos as int)) matches Some((v, k)) ==> r matches Some(
            (rv, np),
        ) && rv == v && np == pos + k && pos <= np <= s@.len()),
{
    if pos == s.len() || s[pos] != BOOLEAN_KEY {
        Some((false, pos))
    } else {
        proof {
            assert(s@.skip(pos as int).skip(1) =~= s@.skip(pos as int + 1));
            lemma_parse_varint_bounds(s@.skip(pos as int + 1));
        }
        match decode_varint(s, pos + 1) {
            Some((v, np)) => Some((v != 0, np)),
            None => None,
        }
    }
}

/// Decodes a whole message, returning `None` exactly when the bytes
/// are not an encoding that `parse_message` accepts.
#[verifier::rlimit(50)]
pub fn decode_message(s: &[u8]) -> (r: Option<RequestMessage>)
    ensures
        match parse_message(s@) {
            Some(model) => r matches Some(msg) && msg@ == model,
            None => r is None,
        },
{
    proof {
        assert(s@.skip(0) =~= s@);
    }
    match decode_integer_field(s, 0) {
        None => None,
        Some((integer, p1)) => {
            match decode_float_field(s, p1) {
                None => None,
                Some((float_bits, p2)) => {
                    proof {
                        assert(s@.skip(p1 as int).skip(p2 as int - p1 as int) =~= s@.skip(
                            p2 as int,
                        ));
                    }
                    match decode_string_field(s, p2) {
                        None => None,
                        Some((string, p3)) => {
                            proof {
                                assert(s@.skip(p2 as int).skip(p3 as int - p2 as int) =~= s@.skip(
                                    p3 as int,
                                ));
                            }
                            match decode_boolean_field(s, p3) {
                                None => None,
                                Some((boolean, p4)) => {
                                    proof {
                                        assert(s@.skip(p3 as int).skip(p4 as int - p3 as int)
                                            =~= s@.skip(p4 as int));
                                    }
                                    if p4 == s.len() {
                                        let msg = RequestMessage { integer, float_bits, string, boolean };
                                        proof {
                                            assert(parse_message(s@) matches Some(model)
                                                ==> msg@ =~= model);
                                        }
                                        Some(msg)
                                    } else {
                                        None
                                    }
                                },
                            }
                        },
                    }
                },
            }
        },
    }
}

/// Reading an `int32` back from its varint value gives the integer.
pub proof fn lemma_int32_round_trip(i: i32)
    ensures
        u64_low32_as_i32(int32_as_u64(i)) == i,
{
    let v = int32_as_u64(i);
    if i >= 0 {
        assert(v % 0x1_0000_0000 == i) by {
            lemma_fundamental_div_mod_converse_mod(v as int, 0x1_0000_0000, 0, i as int);
        }
    } else {
        assert(v % 0x1_0000_0000 == 0x1_0000_0000 + i) by {
            lemma_fundamental_div_mod_converse_mod(
                v as int,
                0x1_0000_0000,
                0xffff_ffff,
                0x1_0000_0000 + i,
            );
        }
    }
}

/// Field 1 decodes back from its own bytes followed by any later
/// fields, whose first byte is never field 1's key.
proof fn lemma_parse_integer_field(i: i32, rest: Seq<u8>)
    requires
        rest.len() == 0 || rest[0] == FLOAT_KEY || rest[0] == STRING_KEY || rest[0]
            == BOOLEAN_KEY,
    ensures
        parse_integer_field(integer_field_bytes(i) + rest) == Some(
            (i, integer_field_bytes(i).len() as int),
        ),
{
    let s = integer_field_bytes(i) + rest;
    if i == 0 {
        assert(s =~= rest);
    } else {
        let v = int32_as_u64(i);
        assert(s[0] == INTEGER_KEY);
        assert(s.skip(1) =~= varint(v) + rest);
        lemma_parse_varint(v, rest);
        lemma_int32_round_trip(i);
        assert(integer_field_bytes(i).len() == 1 + varint(v).len());
    }
}

/// Field 2 decodes back from its own bytes followed by any later
/// fields.
proof fn lemma_parse_float_field(bits: u32, rest: Seq<u8>)
    requires
        rest.len() == 0 || rest[0] == STRING_KEY || rest[0] == BOOLEAN_KEY,
    ensures
        parse_float_field(float_field_bytes(bits) + rest) == Some(
            (bits, float_field_bytes(bits).len() as int),
        ),
{
    let s = float_field_bytes(bits) + rest;
    if bits == 0 {
        assert(s =~= rest);
    } else {
        assert(s[0] == FLOAT_KEY);
        assert(s.len() >= 5);
        assert(s[1] == le32_bytes(bits)[0]);
        assert(s[2] == le32_bytes(bits)[1]);
        assert(s[3] == le32_bytes(bits)[2]);
        assert(s[4] == le32_bytes(bits)[3]);
        lemma_le32_round_trip(bits);
    }
}

/// Field 3 decodes back from its own bytes followed by any later
/// fields.
proof fn lemma_parse_string_field(t: Seq<u8>, rest: Seq<u8>)
    requires
        t.len() <= u64::MAX,
        rest.len() == 0 || rest[0] == BOOLEAN_KEY,
    ensures
        parse_string_field(string_field_bytes(t) + rest) == Some(
            (t, string_field_bytes(t).len() as int),
        ),
{
    let s = string_field_bytes(t) + rest;
    if t.len() == 0 {
        assert(s =~= rest);
    } else {
        let n = t.len() as u64;
        assert(s[0] == STRING_KEY);
        assert(s.skip(1) =~= varint(n) + (t + rest));
        lemma_parse_varint(n, t + rest);
        let k = varint(n).len() as int;
        assert(s.len() == 1 + k + t.len() + rest.len());
        assert(s.subrange(1 + k, 1 + k + n as int) =~= t);
        assert(string_field_bytes(t).len() == 1 + k + t.len());
    }
}

/// Field 4 decodes back from its own bytes, which end the message.
proof fn lemma_parse_boolean_field(b: bool)
    ensures
        parse_boolean_field(boolean_field_bytes(b)) == Some(
            (b, boolean_field_bytes(b).len() as int),
        ),
{
    if b {
        let s = boolean_field_bytes(b);
        assert(s[0] == BOOLEAN_KEY);
        assert(s.skip(1) =~= seq![1u8]);
        assert(parse_varint(seq![1u8]) == Some((1u64, 1int)));
    }
}

/// Round trip: decoding an encoded message gives back the record, for
/// every record whose string fits a 64-bit length.
#[verifier::rlimit(100)]
pub proof fn lemma_message_round_trip(m: MessageModel)
    requires
        m.string.len() <= u64::MAX,
    ensures
        parse_message(message_bytes(m)) == Some(m),
{
    let f1 = integer_field_bytes(m.integer);
    let f2 = float_field_bytes(m.float_bits);
    let f3 = string_field_bytes(m.string);
    let f4 = boolean_field_bytes(m.boolean);
    let s = message_bytes(m);
    let rest1 = f2 + (f3 + f4);
    assert(s =~= f1 + rest1);
    assert(rest1.len() == 0 || rest1[0] == FLOAT_KEY || rest1[0] == STRING_KEY || rest1[0]
        == BOOLEAN_KEY) by {
        if f2.len() > 0 {
            assert(rest1[0] == FLOAT_KEY);
        } else if f3.len() > 0 {
            assert(rest1 =~= f3 + f4);
            assert(rest1[0] == STRING_KEY);
        } else if f4.len() > 0 {
            assert(rest1 =~= f4);
            assert(rest1[0] == BOOLEAN_KEY);
        }
    }
    lemma_parse_integer_field(m.integer, rest1);
    let c1 = f1.len() as int;
    assert(parse_integer_field(s) == Some((m.integer, c1)));
    assert(s.skip(c1) =~= rest1);

    let rest2 = f3 + f4;
    assert(rest1 =~= f2 + rest2);
    assert(rest2.len() == 0 || rest2[0] == STRING_KEY || rest2[0] == BOOLEAN_KEY) by {
        if f3.len() > 0 {
            assert(rest2[0] == STRING_KEY);
        } else if f4.len() > 0 {
            assert(rest2 =~= f4);
            assert(rest2[0] == BOOLEAN_KEY);
        }
    }
    lemma_parse_float_field(m.float_bits, rest2);
    let c2 = f2.len() as int;
    assert(parse_float_field(rest1) == Some((m.float_bits, c2)));
    assert(rest1.skip(c2) =~= rest2);

    assert(rest2 =~= f3 + f4);
    assert(f4.len() == 0 || f4[0] == BOOLEAN_KEY);
    lemma_parse_string_field(m.string, f4);
    let c3 = f3.len() as int;
    assert(parse_string_field(rest2) == Some((m.string, c3)));
    assert(rest2.skip(c3) =~= f4);

    lemma_parse_boolean_field(m.boolean);
    let c4 = f4.len() as int;
    assert(parse_boolean_field(f4) == Some((m.boolean, c4)));
    assert(f4.skip(c4).len() == 0);

    assert(MessageModel {
        integer: m.integer,
        float_bits: m.float_bits,
        string: m.string,
        boolean: m.boolean,
    } =~= m);
}

} // verus!
