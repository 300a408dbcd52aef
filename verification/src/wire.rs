//! Reading the wire format of serialized messages: the primitive values are
//! read by the `protobuf` crate, and a message is split into its fields.

use vstd::prelude::*;
use vstd::slice::slice_subrange;

verus! {

/// The error type of the `protobuf` crate.
#[verifier::external_type_specification]
#[verifier::external_body]
pub struct ExProtobufError(protobuf::ProtobufError);

/// What `CodedInputStream::read_tag_unpack` reads at the start of the bytes:
/// the field number, the number of the wire type and the number of bytes
/// read, if it accepts them.
pub uninterp spec fn wire_tag(bytes: Seq<u8>) -> Option<(u32, u8, nat)>;

/// How many bytes `rt::read_unknown_or_skip_group` reads at the start of the
/// bytes as the value of a field of the number and the wire type, if it
/// accepts them.
pub uninterp spec fn wire_skip(bytes: Seq<u8>, number: u32, wire: u8) -> Option<nat>;

/// What `CodedInputStream::read_int64` reads at the start of the bytes: the
/// value and the number of bytes read, if it accepts them.
pub uninterp spec fn wire_int64(bytes: Seq<u8>) -> Option<(i64, nat)>;

/// What `CodedInputStream::read_int32` reads at the start of the bytes, if
/// it accepts them.
pub uninterp spec fn wire_int32(bytes: Seq<u8>) -> Option<i32>;

/// The number that the first four bytes hold, least significant byte first,
/// if there are four.
pub open spec fn fixed32_of(bytes: Seq<u8>) -> Option<u32> {
    if bytes.len() >= 4 {
        Some(vstd::bytes::spec_u32_from_le_bytes(bytes.take(4)))
    } else {
        None
    }
}

/// The string that `CodedInputStream::read_string` reads at the start of the
/// bytes, if it accepts them.
pub uninterp spec fn wire_string(bytes: Seq<u8>) -> Option<Seq<char>>;

/// The bytes that `CodedInputStream::read_bytes` reads at the start of the
/// bytes, if it accepts them.
pub uninterp spec fn wire_bytes(bytes: Seq<u8>) -> Option<Seq<u8>>;

/// Reads a field's tag with `CodedInputStream::read_tag_unpack`, on a stream
/// over the bytes. The contract names the result, and claims that the wire
/// type's number is at most 5 and that at least one byte and at most all
/// bytes are read.
#[verifier::external_body]
fn read_tag(bytes: &[u8]) -> (r: Result<(u32, u8, u64), protobuf::ProtobufError>)
    ensures
        match r {
            Ok((number, wire, n)) => wire_tag(bytes@) == Some((number, wire, n as nat)) && wire <= 5
                && 1 <= n <= bytes@.len(),
            Err(_) => wire_tag(bytes@) is None,
        },
{
    let mut stream = protobuf::CodedInputStream::from_bytes(bytes);
    let (number, wire) = stream.read_tag_unpack()?;
    Ok((number, wire as u8, stream.pos()))
}

/// Reads the value of a field that is passed over with
/// `rt::read_unknown_or_skip_group`, on a stream over the bytes, and returns
/// the number of bytes read. The contract names the result, and claims that
/// at most all bytes are read.
#[verifier::external_body]
fn skip_value(bytes: &[u8], number: u32, wire: u8) -> (r: Result<u64, protobuf::ProtobufError>)
    requires
        wire <= 5,
    ensures
        match r {
            Ok(n) => wire_skip(bytes@, number, wire) == Some(n as nat) && n <= bytes@.len(),
            Err(_) => wire_skip(bytes@, number, wire) is None,
        },
{
    let mut stream = protobuf::CodedInputStream::from_bytes(bytes);
    let mut unknown = protobuf::UnknownFields::new();
    let wire = protobuf::wire_format::WireType::new(wire as u32).unwrap();
    protobuf::rt::read_unknown_or_skip_group(number, wire, &mut stream, &mut unknown)?;
    Ok(stream.pos())
}

/// Makes the error for a field of an unexpected wire type with
/// `rt::unexpected_wire_type`. The contract claims nothing of the error.
#[verifier::external_body]
pub(crate) fn unexpected_wire_type(wire: u8) -> protobuf::ProtobufError
    requires
        wire <= 5,
{
    protobuf::rt::unexpected_wire_type(protobuf::wire_format::WireType::new(wire as u32).unwrap())
}

/// Reads a 64-bit integer with `CodedInputStream::read_int64`, on a stream
/// over the bytes. The contract names the result, and claims that at least
/// one byte and at most all bytes are read.
#[verifier::external_body]
pub(crate) fn read_int64(bytes: &[u8]) -> (r: Result<(i64, u64), protobuf::ProtobufError>)
    ensures
        match r {
            Ok((value, n)) => wire_int64(bytes@) == Some((value, n as nat)) && 1 <= n
                <= bytes@.len(),
            Err(_) => wire_int64(bytes@) is None,
        },
{
    let mut stream = protobuf::CodedInputStream::from_bytes(bytes);
    let value = stream.read_int64()?;
    Ok((value, stream.pos()))
}

/// Reads a 32-bit integer with `CodedInputStream::read_int32`, on a stream
/// over the bytes. The contract names the result.
#[verifier::external_body]
pub(crate) fn read_int32(bytes: &[u8]) -> (r: Result<i32, protobuf::ProtobufError>)
    ensures
        match r {
            Ok(value) => wire_int32(bytes@) == Some(value),
            Err(_) => wire_int32(bytes@) is None,
        },
{
    protobuf::CodedInputStream::from_bytes(bytes).read_int32()
}

/// Reads four bytes as a number, least significant byte first, with
/// `CodedInputStream::read_fixed32`, on a stream over the bytes. The
/// contract claims that the call succeeds exactly on four bytes or more, and
/// states the number.
#[verifier::external_body]
pub(crate) fn read_fixed32(bytes: &[u8]) -> (r: Result<u32, protobuf::ProtobufError>)
    ensures
        match r {
            Ok(value) => fixed32_of(bytes@) == Some(value),
            Err(_) => fixed32_of(bytes@) is None,
        },
{
    protobuf::CodedInputStream::from_bytes(bytes).read_fixed32()
}

/// Reads a length-delimited string with `CodedInputStream::read_string`, on
/// a stream over the bytes. The contract names the result.
#[verifier::external_body]
pub(crate) fn read_string(bytes: &[u8]) -> (r: Result<String, protobuf::ProtobufError>)
    ensures
        match r {
            Ok(text) => wire_string(bytes@) == Some(text@),
            Err(_) => wire_string(bytes@) is None,
        },
{
    protobuf::CodedInputStream::from_bytes(bytes).read_string()
}

/// Reads length-delimited bytes with `CodedInputStream::read_bytes`, on a
/// stream over the bytes. The contract names the result.
#[verifier::external_body]
pub(crate) fn read_bytes(bytes: &[u8]) -> (r: Result<Vec<u8>, protobuf::ProtobufError>)
    ensures
        match r {
            Ok(data) => wire_bytes(bytes@) == Some(data@),
            Err(_) => wire_bytes(bytes@) is None,
        },
{
    protobuf::CodedInputStream::from_bytes(bytes).read_bytes()
}

/// The wire type of a value that is a variable-length integer.
pub const VARINT: u8 = 0;

/// The wire type of a value that is preceded by its length.
pub const LENGTH_DELIMITED: u8 = 2;

/// The wire type of a value of four bytes.
pub const FIXED32: u8 = 5;

/// A field of a message: its number, its wire type, and where its value
/// stands in the bytes of the message.
#[derive(Debug, Clone, Copy)]
pub struct Field {
    pub number: u32,
    pub wire: u8,
    pub start: usize,
    pub end: usize,
}

/// A field of a message as a mathematical value: its number, its wire type,
/// and the bytes of its value.
pub struct FieldView {
    pub number: u32,
    pub wire: u8,
    pub payload: Seq<u8>,
}

/// The fields of a message, in order, if the bytes are a sequence of fields.
pub open spec fn fields(bytes: Seq<u8>) -> Option<Seq<FieldView>>
    decreases bytes.len(),
{
    if bytes.len() == 0 {
        Some(Seq::empty())
    } else {
        match wire_tag(bytes) {
            None => None,
            Some((number, wire, n)) => if !(1 <= n <= bytes.len() && wire <= 5) {
                None
            } else {
                let rest = bytes.skip(n as int);
                match wire_skip(rest, number, wire) {
                    None => None,
                    Some(k) => if k > rest.len() {
                        None
                    } else {
                        match fields(rest.skip(k as int)) {
                            None => None,
                            Some(more) => Some(
                                seq![FieldView { number, wire, payload: rest.take(k as int) }]
                                    + more,
                            ),
                        }
                    },
                }
            },
        }
    }
}

/// The fields found so far, followed by those of the rest of the bytes.
pub open spec fn fields_after(found: Seq<FieldView>, rest: Seq<u8>) -> Option<Seq<FieldView>> {
    match fields(rest) {
        None => None,
        Some(more) => Some(found + more),
    }
}

/// The field as a mathematical value, within the bytes of its message.
pub open spec fn field_view(bytes: Seq<u8>, field: Field) -> FieldView {
    FieldView {
        number: field.number,
        wire: field.wire,
        payload: bytes.subrange(field.start as int, field.end as int),
    }
}

/// The fields as mathematical values, within the bytes of their message.
pub open spec fn field_views(bytes: Seq<u8>, found: Seq<Field>) -> Seq<FieldView> {
    Seq::new(found.len(), |i: int| field_view(bytes, found[i]))
}

/// Splits a message into its fields, unless the bytes are no sequence of
/// fields. A field may have any of the wire types; a group counts as one
/// field, up to the end of the group.
pub fn split(bytes: &[u8]) -> (r: Result<Vec<Field>, protobuf::ProtobufError>)
    ensures
        match r {
            Ok(found) => {
                &&& fields(bytes@) == Some(field_views(bytes@, found@))
                &&& forall|i: int|
                    0 <= i < found@.len() ==> (#[trigger] found@[i]).start <= found@[i].end
                        <= bytes@.len() && found@[i].wire <= 5
            },
            Err(_) => fields(bytes@) is None,
        },
{
    let size = bytes.len();
    let mut found: Vec<Field> = Vec::new();
    let mut at: usize = 0;
    proof {
        assert(bytes@.skip(0) =~= bytes@);
        assert(field_views(bytes@, found@) =~= Seq::<FieldView>::empty());
        assert(Seq::<FieldView>::empty() + fields(bytes@).unwrap() =~= fields(bytes@).unwrap());
    }
    while at < size
        invariant
            at <= size,
            size == bytes@.len(),
            fields(bytes@) == fields_after(field_views(bytes@, found@), bytes@.skip(at as int)),
            forall|i: int|
                0 <= i < found@.len() ==> (#[trigger] found@[i]).start <= found@[i].end
                    <= bytes@.len() && found@[i].wire <= 5,
        decreases size - at,
    {
        let ghost before = field_views(bytes@, found@);
        let ghost here = bytes@.skip(at as int);
        let rest = slice_subrange(bytes, at, size);
        proof {
            assert(rest@ =~= here);
        }
        let (number, wire, n) = match read_tag(rest) {
            Ok(tag) => tag,
            Err(e) => {
                return Err(e);
            },
        };
        let start = at + n as usize;
        let value = slice_subrange(bytes, start, size);
        proof {
            assert(value@ =~= here.skip(n as int));
        }
        let k = match skip_value(value, number, wire) {
            Ok(k) => k,
            Err(e) => {
                return Err(e);
            },
        };
        let end = start + k as usize;
        found.push(Field { number, wire, start, end });
        proof {
            let after = field_views(bytes@, found@);
            let one = FieldView { number, wire, payload: value@.take(k as int) };
            assert(value@.take(k as int) =~= bytes@.subrange(start as int, end as int));
            assert(after =~= before.push(one));
            assert(value@.skip(k as int) =~= bytes@.skip(end as int));
            match fields(bytes@.skip(end as int)) {
                Some(more) => {
                    assert(before + (seq![one] + more) =~= after + more);
                },
                None => {},
            }
        }
        at = end;
    }
    proof {
        assert(bytes@.skip(at as int) =~= Seq::<u8>::empty());
        assert(field_views(bytes@, found@) + Seq::<FieldView>::empty() =~= field_views(
            bytes@,
            found@,
        ));
    }
    Ok(found)
}

} // verus!
