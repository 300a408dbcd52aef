//! Decoding of a serialized model into a graph description.
//!
//! A model is a message whose fields are numbered. A field with a number
//! that is not named here is passed over: its extent is found, and what it
//! holds is not examined, so a text in it need not be valid UTF-8. A field
//! that is named here must have the wire type of what it holds. A field that
//! occurs again replaces its earlier value, a graph that occurs again
//! included, and the values of a repeated field are kept in order.

use vstd::prelude::*;
use vstd::slice::slice_subrange;
use crate::model::{
    fixed_shape, to_fixed_shape, Attribute, AttributeValue, AttributeValueView, AttributeView,
    Initializer, InitializerView, ModelDescription, ModelView, NodeDescription,
    NodeDescriptionView, ScalarType, Shape, ShapeView, ValueInfo, ValueInfoView,
};
use crate::opset::{OpsetImport, OpsetImportView};
use crate::wire::{
    field_view, field_views, fields, read_bytes, read_fixed32, read_int32, read_int64,
    read_string, split, unexpected_wire_type, wire_bytes, fixed32_of, wire_int32, wire_int64,
    wire_string, Field,
    FieldView, FIXED32, LENGTH_DELIMITED, VARINT,
};

verus! {

/// Why a serialized model cannot be decoded.
#[derive(Debug, Clone, Copy, PartialEq, Eq, Structural)]
pub enum DecodeFault {
    /// The bytes are not a well-formed message of the expected form.
    Malformed,
}

/// A value that is decoded from a message, field by field.
pub trait Decoded: Sized + DeepView {
    /// What a field makes of a value: the value with what the field holds,
    /// or the fault of what the field holds.
    spec fn field(value: <Self as DeepView>::V, f: FieldView) -> Result<
        <Self as DeepView>::V,
        DecodeFault,
    >;

    /// Applies a field of the message to the value.
    fn apply(self, bytes: &[u8], f: Field) -> (r: Result<Self, protobuf::ProtobufError>)
        requires
            f.start <= f.end <= bytes@.len(),
            f.wire <= 5,
        ensures
            match r {
                Ok(value) => Self::field(self.deep_view(), field_view(bytes@, f)) == Ok::<
                    <Self as DeepView>::V,
                    DecodeFault,
                >(value.deep_view()),
                Err(_) => Self::field(self.deep_view(), field_view(bytes@, f)) is Err,
            },
    ;
}

/// What the first `n` fields make of a value when each is applied in turn.
pub open spec fn fold<M: Decoded>(fs: Seq<FieldView>, n: int, start: <M as DeepView>::V) -> Result<
    <M as DeepView>::V,
    DecodeFault,
>
    decreases n,
{
    if n <= 0 {
        Ok(start)
    } else {
        match fold::<M>(fs, n - 1, start) {
            Err(e) => Err(e),
            Ok(value) => M::field(value, fs[n - 1]),
        }
    }
}

/// What the fields of a message make of a value, if the bytes are a message.
pub open spec fn decode<M: Decoded>(bytes: Seq<u8>, start: <M as DeepView>::V) -> Result<
    <M as DeepView>::V,
    DecodeFault,
> {
    match fields(bytes) {
        None => Err(DecodeFault::Malformed),
        Some(fs) => fold::<M>(fs, fs.len() as int, start),
    }
}

/// Once a field is at fault, the fault stays.
proof fn fold_stays_failed<M: Decoded>(
    fs: Seq<FieldView>,
    n: int,
    later: int,
    start: <M as DeepView>::V,
)
    requires
        0 <= n <= later,
        fold::<M>(fs, n, start) is Err,
    ensures
        fold::<M>(fs, later, start) == fold::<M>(fs, n, start),
    decreases later - n,
{
    if n < later {
        fold_stays_failed::<M>(fs, n, later - 1, start);
    }
}

/// Decodes a message into a value, starting from the given one.
pub fn decode_message<M: Decoded>(bytes: &[u8], start: M) -> (r: Result<M, protobuf::ProtobufError>)
    ensures
        match r {
            Ok(value) => decode::<M>(bytes@, start.deep_view()) == Ok::<
                <M as DeepView>::V,
                DecodeFault,
            >(value.deep_view()),
            Err(_) => decode::<M>(bytes@, start.deep_view()) is Err,
        },
{
    let found = match split(bytes) {
        Ok(found) => found,
        Err(e) => {
            return Err(e);
        },
    };
    let ghost fs = field_views(bytes@, found@);
    let ghost first = start.deep_view();
    let mut value = start;
    let mut i: usize = 0;
    while i < found.len()
        invariant
            i <= found.len(),
            fs == field_views(bytes@, found@),
            fields(bytes@) == Some(fs),
            first == start.deep_view(),
            forall|j: int|
                0 <= j < found@.len() ==> (#[trigger] found@[j]).start <= found@[j].end
                    <= bytes@.len() && found@[j].wire <= 5,
            fold::<M>(fs, i as int, first) == Ok::<<M as DeepView>::V, DecodeFault>(
                value.deep_view(),
            ),
        decreases found.len() - i,
    {
        let f = found[i];
        proof {
            assert(fs[i as int] == field_view(bytes@, f));
        }
        match value.apply(bytes, f) {
            Ok(next) => {
                value = next;
            },
            Err(e) => {
                proof {
                    assert(fold::<M>(fs, i + 1, first) is Err);
                    fold_stays_failed::<M>(fs, i + 1, fs.len() as int, first);
                }
                return Err(e);
            },
        }
        i = i + 1;
    }
    Ok(value)
}

/// The string that a field holds.
pub open spec fn text_of(f: FieldView) -> Result<Seq<char>, DecodeFault> {
    if f.wire != LENGTH_DELIMITED {
        Err(DecodeFault::Malformed)
    } else {
        match wire_string(f.payload) {
            Some(text) => Ok(text),
            None => Err(DecodeFault::Malformed),
        }
    }
}

/// The bytes that a field holds.
pub open spec fn bytes_of(f: FieldView) -> Result<Seq<u8>, DecodeFault> {
    if f.wire != LENGTH_DELIMITED {
        Err(DecodeFault::Malformed)
    } else {
        match wire_bytes(f.payload) {
            Some(data) => Ok(data),
            None => Err(DecodeFault::Malformed),
        }
    }
}

/// The 64-bit integer that a field holds.
pub open spec fn int_of(f: FieldView) -> Result<i64, DecodeFault> {
    if f.wire != VARINT {
        Err(DecodeFault::Malformed)
    } else {
        match wire_int64(f.payload) {
            Some((value, _)) => Ok(value),
            None => Err(DecodeFault::Malformed),
        }
    }
}

/// The 32-bit integer that a field holds.
pub open spec fn small_int_of(f: FieldView) -> Result<i32, DecodeFault> {
    if f.wire != VARINT {
        Err(DecodeFault::Malformed)
    } else {
        match wire_int32(f.payload) {
            Some(value) => Ok(value),
            None => Err(DecodeFault::Malformed),
        }
    }
}

/// The 64-bit integers that stand one after another in the bytes.
pub open spec fn packed_ints(data: Seq<u8>) -> Result<Seq<i64>, DecodeFault>
    decreases data.len(),
{
    if data.len() == 0 {
        Ok(Seq::empty())
    } else {
        match wire_int64(data) {
            None => Err(DecodeFault::Malformed),
            Some((value, n)) => if !(1 <= n <= data.len()) {
                Err(DecodeFault::Malformed)
            } else {
                match packed_ints(data.skip(n as int)) {
                    Err(e) => Err(e),
                    Ok(more) => Ok(seq![value] + more),
                }
            },
        }
    }
}

/// The 32-bit numbers that stand one after another in the bytes.
pub open spec fn packed_fixed(data: Seq<u8>) -> Result<Seq<u32>, DecodeFault>
    decreases data.len(),
{
    if data.len() == 0 {
        Ok(Seq::empty())
    } else {
        match fixed32_of(data) {
            None => Err(DecodeFault::Malformed),
            Some(value) => match packed_fixed(data.skip(4)) {
                Err(e) => Err(e),
                Ok(more) => Ok(seq![value] + more),
            },
        }
    }
}

/// The integers with those that a field of a repeated integer adds: one, or
/// several packed into a length-delimited value.
pub open spec fn with_ints(found: Seq<i64>, f: FieldView) -> Result<Seq<i64>, DecodeFault> {
    if f.wire == VARINT {
        match int_of(f) {
            Ok(value) => Ok(found.push(value)),
            Err(e) => Err(e),
        }
    } else {
        match bytes_of(f) {
            Err(e) => Err(e),
            Ok(data) => match packed_ints(data) {
                Err(e) => Err(e),
                Ok(more) => Ok(found + more),
            },
        }
    }
}

/// The numbers with those that a field of a repeated 32-bit number adds:
/// one, or several packed into a length-delimited value.
pub open spec fn with_fixed(found: Seq<u32>, f: FieldView) -> Result<Seq<u32>, DecodeFault> {
    if f.wire == FIXED32 {
        match fixed32_of(f.payload) {
            Some(value) => Ok(found.push(value)),
            None => Err(DecodeFault::Malformed),
        }
    } else {
        match bytes_of(f) {
            Err(e) => Err(e),
            Ok(data) => match packed_fixed(data) {
                Err(e) => Err(e),
                Ok(more) => Ok(found + more),
            },
        }
    }
}

/// Reads the string that a field holds.
fn read_text(bytes: &[u8], f: Field) -> (r: Result<String, protobuf::ProtobufError>)
    requires
        f.start <= f.end <= bytes@.len(),
        f.wire <= 5,
    ensures
        match r {
            Ok(text) => text_of(field_view(bytes@, f)) == Ok::<Seq<char>, DecodeFault>(text@),
            Err(_) => text_of(field_view(bytes@, f)) is Err,
        },
{
    if f.wire != LENGTH_DELIMITED {
        return Err(unexpected_wire_type(f.wire));
    }
    match read_string(slice_subrange(bytes, f.start, f.end)) {
        Ok(text) => Ok(text),
        Err(e) => Err(e),
    }
}

/// Reads the bytes that a field holds.
fn read_nested(bytes: &[u8], f: Field) -> (r: Result<Vec<u8>, protobuf::ProtobufError>)
    requires
        f.start <= f.end <= bytes@.len(),
        f.wire <= 5,
    ensures
        match r {
            Ok(data) => bytes_of(field_view(bytes@, f)) == Ok::<Seq<u8>, DecodeFault>(data@),
            Err(_) => bytes_of(field_view(bytes@, f)) is Err,
        },
{
    if f.wire != LENGTH_DELIMITED {
        return Err(unexpected_wire_type(f.wire));
    }
    match read_bytes(slice_subrange(bytes, f.start, f.end)) {
        Ok(data) => Ok(data),
        Err(e) => Err(e),
    }
}

/// Reads the 64-bit integer that a field holds.
fn read_int(bytes: &[u8], f: Field) -> (r: Result<i64, protobuf::ProtobufError>)
    requires
        f.start <= f.end <= bytes@.len(),
        f.wire <= 5,
    ensures
        match r {
            Ok(value) => int_of(field_view(bytes@, f)) == Ok::<i64, DecodeFault>(value),
            Err(_) => int_of(field_view(bytes@, f)) is Err,
        },
{
    if f.wire != VARINT {
        return Err(unexpected_wire_type(f.wire));
    }
    match read_int64(slice_subrange(bytes, f.start, f.end)) {
        Ok((value, _)) => Ok(value),
        Err(e) => Err(e),
    }
}

/// Reads the 32-bit integer that a field holds.
fn read_small_int(bytes: &[u8], f: Field) -> (r: Result<i32, protobuf::ProtobufError>)
    requires
        f.start <= f.end <= bytes@.len(),
        f.wire <= 5,
    ensures
        match r {
            Ok(value) => small_int_of(field_view(bytes@, f)) == Ok::<i32, DecodeFault>(value),
            Err(_) => small_int_of(field_view(bytes@, f)) is Err,
        },
{
    if f.wire != VARINT {
        return Err(unexpected_wire_type(f.wire));
    }
    match read_int32(slice_subrange(bytes, f.start, f.end)) {
        Ok(value) => Ok(value),
        Err(e) => Err(e),
    }
}

/// Appends the 64-bit integers that stand one after another in the bytes.
fn read_packed_ints(found: &mut Vec<i64>, data: &[u8]) -> (r: Result<(), protobuf::ProtobufError>)
    ensures
        match r {
            Ok(_) => packed_ints(data@) is Ok && final(found)@ == old(found)@ + packed_ints(
                data@,
            )->Ok_0,
            Err(_) => packed_ints(data@) is Err,
        },
{
    let size = data.len();
    let ghost start = found@;
    let ghost read = Seq::<i64>::empty();
    let mut at: usize = 0;
    proof {
        assert(data@.skip(0) =~= data@);
        assert(start + read =~= start);
    }
    while at < size
        invariant
            at <= size,
            size == data@.len(),
            found@ == start + read,
            packed_ints(data@) == (match packed_ints(data@.skip(at as int)) {
                Err(e) => Err(e),
                Ok(more) => Ok(read + more),
            }),
        decreases size - at,
    {
        let rest = slice_subrange(data, at, size);
        proof {
            assert(rest@ =~= data@.skip(at as int));
        }
        match read_int64(rest) {
            Err(e) => {
                return Err(e);
            },
            Ok((value, n)) => {
                found.push(value);
                proof {
                    assert(rest@.skip(n as int) =~= data@.skip(at + n));
                    match packed_ints(data@.skip(at + n)) {
                        Ok(more) => {
                            assert(read + (seq![value] + more) =~= read.push(value) + more);
                        },
                        Err(_) => {},
                    }
                    assert(start + read.push(value) =~= (start + read).push(value));
                    read = read.push(value);
                }
                at = at + n as usize;
            },
        }
    }
    proof {
        assert(data@.skip(at as int) =~= Seq::<u8>::empty());
        assert(read + Seq::<i64>::empty() =~= read);
    }
    Ok(())
}

/// Appends the 32-bit numbers that stand one after another in the bytes.
fn read_packed_fixed(found: &mut Vec<u32>, data: &[u8]) -> (r: Result<(), protobuf::ProtobufError>)
    ensures
        match r {
            Ok(_) => packed_fixed(data@) is Ok && final(found)@ == old(found)@ + packed_fixed(
                data@,
            )->Ok_0,
            Err(_) => packed_fixed(data@) is Err,
        },
{
    let size = data.len();
    let ghost start = found@;
    let ghost read = Seq::<u32>::empty();
    let mut at: usize = 0;
    proof {
        assert(data@.skip(0) =~= data@);
        assert(start + read =~= start);
    }
    while at < size
        invariant
            at <= size,
            size == data@.len(),
            found@ == start + read,
            packed_fixed(data@) == (match packed_fixed(data@.skip(at as int)) {
                Err(e) => Err(e),
                Ok(more) => Ok(read + more),
            }),
        decreases size - at,
    {
        let rest = slice_subrange(data, at, size);
        proof {
            assert(rest@ =~= data@.skip(at as int));
        }
        match read_fixed32(rest) {
            Err(e) => {
                return Err(e);
            },
            Ok(value) => {
                found.push(value);
                proof {
                    assert(rest@.skip(4) =~= data@.skip(at + 4));
                    match packed_fixed(data@.skip(at + 4)) {
                        Ok(more) => {
                            assert(read + (seq![value] + more) =~= read.push(value) + more);
                        },
                        Err(_) => {},
                    }
                    assert(start + read.push(value) =~= (start + read).push(value));
                    read = read.push(value);
                }
                at = at + 4;
            },
        }
    }
    proof {
        assert(data@.skip(at as int) =~= Seq::<u8>::empty());
        assert(read + Seq::<u32>::empty() =~= read);
    }
    Ok(())
}

/// Appends the integers that a field of a repeated integer adds.
fn read_ints(found: &mut Vec<i64>, bytes: &[u8], f: Field) -> (r: Result<(), protobuf::ProtobufError>)
    requires
        f.start <= f.end <= bytes@.len(),
        f.wire <= 5,
    ensures
        match r {
            Ok(_) => with_ints(old(found)@, field_view(bytes@, f)) == Ok::<Seq<i64>, DecodeFault>(
                final(found)@,
            ),
            Err(_) => with_ints(old(found)@, field_view(bytes@, f)) is Err,
        },
{
    if f.wire == VARINT {
        let value = read_int(bytes, f)?;
        found.push(value);
        Ok(())
    } else {
        let data = read_nested(bytes, f)?;
        read_packed_ints(found, data.as_slice())
    }
}

/// Appends the numbers that a field of a repeated 32-bit number adds.
fn read_fixed(found: &mut Vec<u32>, bytes: &[u8], f: Field) -> (r: Result<(), protobuf::ProtobufError>)
    requires
        f.start <= f.end <= bytes@.len(),
        f.wire <= 5,
    ensures
        match r {
            Ok(_) => with_fixed(old(found)@, field_view(bytes@, f)) == Ok::<Seq<u32>, DecodeFault>(
                final(found)@,
            ),
            Err(_) => with_fixed(old(found)@, field_view(bytes@, f)) is Err,
        },
{
    if f.wire == FIXED32 {
        match read_fixed32(slice_subrange(bytes, f.start, f.end)) {
            Ok(value) => {
                found.push(value);
                Ok(())
            },
            Err(e) => Err(e),
        }
    } else {
        let data = read_nested(bytes, f)?;
        read_packed_fixed(found, data.as_slice())
    }
}

impl Decoded for OpsetImport {
    /// Field 1 holds the domain and field 2 the version.
    open spec fn field(value: OpsetImportView, f: FieldView) -> Result<OpsetImportView, DecodeFault> {
        if f.number == 1 {
            match text_of(f) {
                Ok(domain) => Ok(OpsetImportView { domain, version: value.version }),
                Err(e) => Err(e),
            }
        } else if f.number == 2 {
            match int_of(f) {
                Ok(version) => Ok(OpsetImportView { domain: value.domain, version }),
                Err(e) => Err(e),
            }
        } else {
            Ok(value)
        }
    }

    fn apply(self, bytes: &[u8], f: Field) -> (r: Result<Self, protobuf::ProtobufError>) {
        let mut value = self;
        if f.number == 1 {
            value.domain = read_text(bytes, f)?;
        } else if f.number == 2 {
            value.version = read_int(bytes, f)?;
        }
        Ok(value)
    }
}

/// A dimension of a declared shape; a negative value stands for a
/// dimension that is not fixed.
pub struct Dimension {
    pub value: i64,
}

impl DeepView for Dimension {
    type V = i64;

    open spec fn deep_view(&self) -> i64 {
        self.value
    }
}

impl Decoded for Dimension {
    /// Field 1 holds a fixed value; field 2 holds the name of a dimension
    /// that is not fixed.
    open spec fn field(value: i64, f: FieldView) -> Result<i64, DecodeFault> {
        if f.number == 1 {
            int_of(f)
        } else if f.number == 2 {
            match text_of(f) {
                Ok(_) => Ok(-1i64),
                Err(e) => Err(e),
            }
        } else {
            Ok(value)
        }
    }

    fn apply(self, bytes: &[u8], f: Field) -> (r: Result<Self, protobuf::ProtobufError>) {
        let mut value = self;
        if f.number == 1 {
            value.value = read_int(bytes, f)?;
        } else if f.number == 2 {
            let _ = read_text(bytes, f)?;
            value.value = -1;
        }
        Ok(value)
    }
}

/// The dimensions of a declared shape.
pub struct Dimensions {
    pub dims: Vec<i64>,
}

impl DeepView for Dimensions {
    type V = Seq<i64>;

    open spec fn deep_view(&self) -> Seq<i64> {
        self.dims@
    }
}

impl Decoded for Dimensions {
    /// Field 1 holds a dimension.
    open spec fn field(value: Seq<i64>, f: FieldView) -> Result<Seq<i64>, DecodeFault> {
        if f.number == 1 {
            match bytes_of(f) {
                Err(e) => Err(e),
                Ok(data) => match decode::<Dimension>(data, -1i64) {
                    Err(e) => Err(e),
                    Ok(dim) => Ok(value.push(dim)),
                },
            }
        } else {
            Ok(value)
        }
    }

    fn apply(self, bytes: &[u8], f: Field) -> (r: Result<Self, protobuf::ProtobufError>) {
        let mut value = self;
        if f.number == 1 {
            let data = read_nested(bytes, f)?;
            let dim = decode_message(data.as_slice(), Dimension { value: -1 })?;
            value.dims.push(dim.value);
        }
        Ok(value)
    }
}

/// The declared type of a tensor: the code of its element type, and its
/// dimensions if a shape is declared.
pub struct TensorType {
    pub elem: i32,
    pub shaped: bool,
    pub dims: Vec<i64>,
}

/// A declared type as a mathematical value.
pub struct TensorTypeView {
    pub elem: i32,
    pub shaped: bool,
    pub dims: Seq<i64>,
}

impl DeepView for TensorType {
    type V = TensorTypeView;

    open spec fn deep_view(&self) -> TensorTypeView {
        TensorTypeView { elem: self.elem, shaped: self.shaped, dims: self.dims@ }
    }
}

/// The type of a tensor of which nothing is declared.
pub open spec fn untyped() -> TensorTypeView {
    TensorTypeView { elem: 0, shaped: false, dims: Seq::empty() }
}

/// The type of a tensor of which nothing is declared.
fn new_untyped() -> (ty: TensorType)
    ensures
        ty.deep_view() == untyped(),
{
    TensorType { elem: 0, shaped: false, dims: Vec::new() }
}

impl Decoded for TensorType {
    /// Field 1 holds the code of the element type and field 2 the shape.
    open spec fn field(value: TensorTypeView, f: FieldView) -> Result<TensorTypeView, DecodeFault> {
        if f.number == 1 {
            match small_int_of(f) {
                Ok(elem) => Ok(TensorTypeView { elem, shaped: value.shaped, dims: value.dims }),
                Err(e) => Err(e),
            }
        } else if f.number == 2 {
            match bytes_of(f) {
                Err(e) => Err(e),
                Ok(data) => match decode::<Dimensions>(data, Seq::empty()) {
                    Err(e) => Err(e),
                    Ok(dims) => Ok(TensorTypeView { elem: value.elem, shaped: true, dims }),
                },
            }
        } else {
            Ok(value)
        }
    }

    fn apply(self, bytes: &[u8], f: Field) -> (r: Result<Self, protobuf::ProtobufError>) {
        let mut value = self;
        if f.number == 1 {
            value.elem = read_small_int(bytes, f)?;
        } else if f.number == 2 {
            let data = read_nested(bytes, f)?;
            let found = decode_message(data.as_slice(), Dimensions { dims: Vec::new() })?;
            value.shaped = true;
            value.dims = found.dims;
        }
        Ok(value)
    }
}

/// The declared type of a value, which may be that of a tensor.
pub struct ValueType {
    pub tensor: TensorType,
}

impl DeepView for ValueType {
    type V = TensorTypeView;

    open spec fn deep_view(&self) -> TensorTypeView {
        self.tensor.deep_view()
    }
}

impl Decoded for ValueType {
    /// Field 1 holds the type of a tensor.
    open spec fn field(value: TensorTypeView, f: FieldView) -> Result<TensorTypeView, DecodeFault> {
        if f.number == 1 {
            match bytes_of(f) {
                Err(e) => Err(e),
                Ok(data) => decode::<TensorType>(data, untyped()),
            }
        } else {
            Ok(value)
        }
    }

    fn apply(self, bytes: &[u8], f: Field) -> (r: Result<Self, protobuf::ProtobufError>) {
        if f.number == 1 {
            let data = read_nested(bytes, f)?;
            let tensor = decode_message(data.as_slice(), new_untyped())?;
            Ok(ValueType { tensor })
        } else {
            Ok(self)
        }
    }
}

/// A declared tensor as it is serialized: its name and its declared type.
pub struct Value {
    pub name: String,
    pub ty: TensorType,
}

/// A serialized declaration as a mathematical value.
pub struct ValueView {
    pub name: Seq<char>,
    pub ty: TensorTypeView,
}

impl DeepView for Value {
    type V = ValueView;

    open spec fn deep_view(&self) -> ValueView {
        ValueView { name: self.name@, ty: self.ty.deep_view() }
    }
}

/// A declaration without a name and a type.
pub open spec fn no_value() -> ValueView {
    ValueView { name: Seq::empty(), ty: untyped() }
}

impl Decoded for Value {
    /// Field 1 holds the name and field 2 the type.
    open spec fn field(value: ValueView, f: FieldView) -> Result<ValueView, DecodeFault> {
        if f.number == 1 {
            match text_of(f) {
                Ok(name) => Ok(ValueView { name, ty: value.ty }),
                Err(e) => Err(e),
            }
        } else if f.number == 2 {
            match bytes_of(f) {
                Err(e) => Err(e),
                Ok(data) => match decode::<ValueType>(data, untyped()) {
                    Err(e) => Err(e),
                    Ok(ty) => Ok(ValueView { name: value.name, ty }),
                },
            }
        } else {
            Ok(value)
        }
    }

    fn apply(self, bytes: &[u8], f: Field) -> (r: Result<Self, protobuf::ProtobufError>) {
        let mut value = self;
        if f.number == 1 {
            value.name = read_text(bytes, f)?;
        } else if f.number == 2 {
            let data = read_nested(bytes, f)?;
            let found = decode_message(data.as_slice(), ValueType { tensor: new_untyped() })?;
            value.ty = found.tensor;
        }
        Ok(value)
    }
}

/// The shape that a declared type fixes: it has one if a shape is declared,
/// every dimension is fixed and the element type is supported.
pub open spec fn shape_of(ty: TensorTypeView) -> Option<ShapeView> {
    if ty.shaped {
        fixed_shape(ty.elem, ty.dims)
    } else {
        None
    }
}

/// The shape that a declared type fixes, if it fixes one.
fn to_shape(ty: &TensorType) -> (r: Option<Shape>)
    ensures
        r.deep_view() == shape_of(ty.deep_view()),
{
    if ty.shaped {
        to_fixed_shape(ty.elem, &ty.dims)
    } else {
        None
    }
}

/// The declared tensor that a serialized declaration stands for.
pub open spec fn value_info_of(value: ValueView) -> ValueInfoView {
    ValueInfoView { name: value.name, shape: shape_of(value.ty) }
}

/// Decodes a declared tensor.
fn decode_value_info(bytes: &[u8]) -> (r: Result<ValueInfo, protobuf::ProtobufError>)
    ensures
        match r {
            Ok(info) => decode::<Value>(bytes@, no_value()) is Ok && info.deep_view()
                == value_info_of(decode::<Value>(bytes@, no_value())->Ok_0),
            Err(_) => decode::<Value>(bytes@, no_value()) is Err,
        },
{
    let value = decode_message(bytes, Value { name: String::new(), ty: new_untyped() })?;
    let shape = to_shape(&value.ty);
    Ok(ValueInfo { name: value.name, shape })
}

/// A constant tensor as it is serialized: its dimensions, the code of its
/// element type, its name, and its elements, either as raw bytes or as
/// numbers in one of three lists.
pub struct Constant {
    pub dims: Vec<i64>,
    pub data_type: i32,
    pub name: String,
    pub raw: Vec<u8>,
    pub floats: Vec<u32>,
    pub small: Vec<i64>,
    pub wide: Vec<i64>,
}

/// A serialized constant as a mathematical value.
pub struct ConstantView {
    pub dims: Seq<i64>,
    pub data_type: i32,
    pub name: Seq<char>,
    pub raw: Seq<u8>,
    pub floats: Seq<u32>,
    pub small: Seq<i64>,
    pub wide: Seq<i64>,
}

impl DeepView for Constant {
    type V = ConstantView;

    open spec fn deep_view(&self) -> ConstantView {
        ConstantView {
            dims: self.dims@,
            data_type: self.data_type,
            name: self.name@,
            raw: self.raw@,
            floats: self.floats@,
            small: self.small@,
            wide: self.wide@,
        }
    }
}

/// A constant without a name, dimensions, a type and elements.
pub open spec fn no_constant() -> ConstantView {
    ConstantView {
        dims: Seq::empty(),
        data_type: 0,
        name: Seq::empty(),
        raw: Seq::empty(),
        floats: Seq::empty(),
        small: Seq::empty(),
        wide: Seq::empty(),
    }
}

/// A constant without a name, dimensions, a type and elements.
fn new_constant() -> (value: Constant)
    ensures
        value.deep_view() == no_constant(),
{
    Constant {
        dims: Vec::new(),
        data_type: 0,
        name: String::new(),
        raw: Vec::new(),
        floats: Vec::new(),
        small: Vec::new(),
        wide: Vec::new(),
    }
}

impl Decoded for Constant {
    /// Field 1 holds dimensions, field 2 the code of the element type,
    /// field 8 the name and field 9 the raw bytes; field 4 holds 32-bit
    /// floating-point elements, field 5 elements of at most 32 bits and
    /// field 7 elements of 64 bits.
    open spec fn field(value: ConstantView, f: FieldView) -> Result<ConstantView, DecodeFault> {
        if f.number == 1 {
            match with_ints(value.dims, f) {
                Ok(dims) => Ok(ConstantView { dims, ..value }),
                Err(e) => Err(e),
            }
        } else if f.number == 2 {
            match small_int_of(f) {
                Ok(data_type) => Ok(ConstantView { data_type, ..value }),
                Err(e) => Err(e),
            }
        } else if f.number == 4 {
            match with_fixed(value.floats, f) {
                Ok(floats) => Ok(ConstantView { floats, ..value }),
                Err(e) => Err(e),
            }
        } else if f.number == 5 {
            match with_ints(value.small, f) {
                Ok(small) => Ok(ConstantView { small, ..value }),
                Err(e) => Err(e),
            }
        } else if f.number == 7 {
            match with_ints(value.wide, f) {
                Ok(wide) => Ok(ConstantView { wide, ..value }),
                Err(e) => Err(e),
            }
        } else if f.number == 8 {
            match text_of(f) {
                Ok(name) => Ok(ConstantView { name, ..value }),
                Err(e) => Err(e),
            }
        } else if f.number == 9 {
            match bytes_of(f) {
                Ok(raw) => Ok(ConstantView { raw, ..value }),
                Err(e) => Err(e),
            }
        } else {
            Ok(value)
        }
    }

    fn apply(self, bytes: &[u8], f: Field) -> (r: Result<Self, protobuf::ProtobufError>) {
        let Constant { dims, data_type, name, raw, floats, small, wide } = self;
        if f.number == 1 {
            let mut dims = dims;
            read_ints(&mut dims, bytes, f)?;
            Ok(Constant { dims, data_type, name, raw, floats, small, wide })
        } else if f.number == 2 {
            let data_type = read_small_int(bytes, f)?;
            Ok(Constant { dims, data_type, name, raw, floats, small, wide })
        } else if f.number == 4 {
            let mut floats = floats;
            read_fixed(&mut floats, bytes, f)?;
            Ok(Constant { dims, data_type, name, raw, floats, small, wide })
        } else if f.number == 5 {
            let mut small = small;
            read_ints(&mut small, bytes, f)?;
            Ok(Constant { dims, data_type, name, raw, floats, small, wide })
        } else if f.number == 7 {
            let mut wide = wide;
            read_ints(&mut wide, bytes, f)?;
            Ok(Constant { dims, data_type, name, raw, floats, small, wide })
        } else if f.number == 8 {
            let name = read_text(bytes, f)?;
            Ok(Constant { dims, data_type, name, raw, floats, small, wide })
        } else if f.number == 9 {
            let raw = read_nested(bytes, f)?;
            Ok(Constant { dims, data_type, name, raw, floats, small, wide })
        } else {
            Ok(Constant { dims, data_type, name, raw, floats, small, wide })
        }
    }
}

/// The bytes of 32-bit numbers, each with its least significant byte first.
pub open spec fn bytes_of_words(values: Seq<u32>) -> Seq<u8>
    decreases values.len(),
{
    if values.len() == 0 {
        Seq::empty()
    } else {
        bytes_of_words(values.drop_last()) + vstd::bytes::spec_u32_to_le_bytes(values.last())
    }
}

/// The bytes of 64-bit integers, each with its least significant byte first.
pub open spec fn bytes_of_longs(values: Seq<i64>) -> Seq<u8>
    decreases values.len(),
{
    if values.len() == 0 {
        Seq::empty()
    } else {
        bytes_of_longs(values.drop_last()) + vstd::bytes::spec_u64_to_le_bytes(
            values.last() as u64,
        )
    }
}

/// The bytes of integers cut to 32 bits, each with its least significant
/// byte first.
pub open spec fn bytes_of_ints(values: Seq<i64>) -> Seq<u8>
    decreases values.len(),
{
    if values.len() == 0 {
        Seq::empty()
    } else {
        bytes_of_ints(values.drop_last()) + vstd::bytes::spec_u32_to_le_bytes(
            values.last() as u32,
        )
    }
}

/// The integers cut to a byte each.
pub open spec fn low_bytes(values: Seq<i64>) -> Seq<u8> {
    Seq::new(values.len(), |i: int| values[i] as u8)
}

/// The bytes of a constant's elements: the raw bytes if there are any, and
/// else those of the numbers in the list that goes with the element type.
/// Without raw bytes, a constant of an element type that is not supported
/// has no bytes.
pub open spec fn elements(value: ConstantView) -> Seq<u8> {
    if value.raw.len() > 0 {
        value.raw
    } else {
        match ScalarType::spec_from_i32(value.data_type) {
            Some(ScalarType::F32) => bytes_of_words(value.floats),
            Some(ScalarType::I32) => bytes_of_ints(value.small),
            Some(ScalarType::I64) => bytes_of_longs(value.wide),
            Some(ScalarType::U8) => low_bytes(value.small),
            None => Seq::empty(),
        }
    }
}

/// The bytes of a number followed by others are the number's bytes
/// followed by the others' bytes.
proof fn bytes_of_words_prepend(value: u32, more: Seq<u32>)
    ensures
        bytes_of_words(seq![value] + more) == vstd::bytes::spec_u32_to_le_bytes(value)
            + bytes_of_words(more),
    decreases more.len(),
{
    let all = seq![value] + more;
    if more.len() == 0 {
        assert(all.drop_last() =~= Seq::<u32>::empty());
        assert(bytes_of_words(all.drop_last()) =~= Seq::<u8>::empty());
        assert(bytes_of_words(all) =~= vstd::bytes::spec_u32_to_le_bytes(value) + bytes_of_words(
            more,
        ));
    } else {
        bytes_of_words_prepend(value, more.drop_last());
        assert(all.drop_last() =~= seq![value] + more.drop_last());
        assert(all.last() == more.last());
        assert(bytes_of_words(all) =~= vstd::bytes::spec_u32_to_le_bytes(value) + bytes_of_words(
            more,
        ));
    }
}

/// Packed floating-point elements are stored as they are packed: where the
/// number of bytes is a multiple of four, the bytes decode to numbers, and
/// the bytes of those numbers are the bytes again.
pub proof fn packed_words_are_their_bytes(data: Seq<u8>)
    requires
        data.len() % 4 == 0,
    ensures
        packed_fixed(data) is Ok,
        bytes_of_words(packed_fixed(data)->Ok_0) == data,
    decreases data.len(),
{
    if data.len() > 0 {
        let rest = data.skip(4);
        packed_words_are_their_bytes(rest);
        let value = fixed32_of(data)->Some_0;
        let more = packed_fixed(rest)->Ok_0;
        bytes_of_words_prepend(value, more);
        vstd::bytes::lemma_auto_spec_u32_to_from_le_bytes();
        assert(data.take(4).len() == 4);
        assert(vstd::bytes::spec_u32_to_le_bytes(value) == data.take(4));
        assert(data =~= data.take(4) + rest);
    } else {
        assert(bytes_of_words(Seq::<u32>::empty()) =~= data);
    }
}

/// The bytes of 32-bit numbers, each with its least significant byte first.
fn words_to_bytes(values: &Vec<u32>) -> (bytes: Vec<u8>)
    ensures
        bytes@ == bytes_of_words(values@),
{
    let mut bytes: Vec<u8> = Vec::new();
    let mut i: usize = 0;
    proof {
        assert(values@.take(0) =~= Seq::<u32>::empty());
    }
    while i < values.len()
        invariant
            i <= values.len(),
            bytes@ == bytes_of_words(values@.take(i as int)),
        decreases values.len() - i,
    {
        let mut word = vstd::bytes::u32_to_le_bytes(values[i]);
        proof {
            assert(values@.take(i + 1).drop_last() =~= values@.take(i as int));
        }
        bytes.append(&mut word);
        i = i + 1;
    }
    proof {
        assert(values@.take(i as int) =~= values@);
    }
    bytes
}

/// The bytes of 64-bit integers, each with its least significant byte first.
fn longs_to_bytes(values: &Vec<i64>) -> (bytes: Vec<u8>)
    ensures
        bytes@ == bytes_of_longs(values@),
{
    let mut bytes: Vec<u8> = Vec::new();
    let mut i: usize = 0;
    proof {
        assert(values@.take(0) =~= Seq::<i64>::empty());
    }
    while i < values.len()
        invariant
            i <= values.len(),
            bytes@ == bytes_of_longs(values@.take(i as int)),
        decreases values.len() - i,
    {
        let mut long = vstd::bytes::u64_to_le_bytes(#[verifier::truncate] (values[i] as u64));
        proof {
            assert(values@.take(i + 1).drop_last() =~= values@.take(i as int));
        }
        bytes.append(&mut long);
        i = i + 1;
    }
    proof {
        assert(values@.take(i as int) =~= values@);
    }
    bytes
}

/// The bytes of integers cut to 32 bits, each with its least significant
/// byte first.
fn ints_to_bytes(values: &Vec<i64>) -> (bytes: Vec<u8>)
    ensures
        bytes@ == bytes_of_ints(values@),
{
    let mut bytes: Vec<u8> = Vec::new();
    let mut i: usize = 0;
    proof {
        assert(values@.take(0) =~= Seq::<i64>::empty());
    }
    while i < values.len()
        invariant
            i <= values.len(),
            bytes@ == bytes_of_ints(values@.take(i as int)),
        decreases values.len() - i,
    {
        let mut word = vstd::bytes::u32_to_le_bytes(#[verifier::truncate] (values[i] as u32));
        proof {
            assert(values@.take(i + 1).drop_last() =~= values@.take(i as int));
        }
        bytes.append(&mut word);
        i = i + 1;
    }
    proof {
        assert(values@.take(i as int) =~= values@);
    }
    bytes
}

/// The integers cut to a byte each.
fn ints_to_low_bytes(values: &Vec<i64>) -> (bytes: Vec<u8>)
    ensures
        bytes@ == low_bytes(values@),
{
    let mut bytes: Vec<u8> = Vec::new();
    let mut i: usize = 0;
    while i < values.len()
        invariant
            i <= values.len(),
            bytes@.len() == i,
            forall|j: int| 0 <= j < i ==> #[trigger] bytes@[j] == values@[j] as u8,
        decreases values.len() - i,
    {
        bytes.push(#[verifier::truncate] (values[i] as u8));
        i = i + 1;
    }
    proof {
        assert(bytes@ =~= low_bytes(values@));
    }
    bytes
}

/// The initializer that a serialized constant stands for. The code of the
/// element type and the dimensions are kept as they are.
pub open spec fn initializer_of(value: ConstantView) -> InitializerView {
    InitializerView {
        name: value.name,
        data_type: value.data_type,
        dims: value.dims,
        data: elements(value),
    }
}

/// The initializer that the bytes hold.
pub open spec fn decoded_initializer(bytes: Seq<u8>) -> Result<InitializerView, DecodeFault> {
    match decode::<Constant>(bytes, no_constant()) {
        Err(e) => Err(e),
        Ok(value) => Ok(initializer_of(value)),
    }
}

/// Decodes an initializer.
fn decode_initializer(bytes: &[u8]) -> (r: Result<Initializer, protobuf::ProtobufError>)
    ensures
        match r {
            Ok(found) => decoded_initializer(bytes@) == Ok::<InitializerView, DecodeFault>(
                found.deep_view(),
            ),
            Err(_) => decoded_initializer(bytes@) is Err,
        },
{
    let value = decode_message(bytes, new_constant())?;
    let data = if value.raw.len() > 0 {
        value.raw
    } else {
        match ScalarType::from_i32(value.data_type) {
            Ok(ScalarType::F32) => words_to_bytes(&value.floats),
            Ok(ScalarType::I32) => ints_to_bytes(&value.small),
            Ok(ScalarType::I64) => longs_to_bytes(&value.wide),
            Ok(ScalarType::U8) => ints_to_low_bytes(&value.small),
            Err(_) => Vec::new(),
        }
    };
    Ok(Initializer { name: value.name, data_type: value.data_type, dims: value.dims, data })
}

/// The code of an attribute that holds a list of floating-point numbers.
pub const FLOAT_LIST: i32 = 6;

/// The code of an attribute that holds a list of integers.
pub const INT_LIST: i32 = 7;

/// The integers of an attribute that holds integers; none for another.
pub open spec fn ints_in(value: AttributeValueView) -> Seq<i64> {
    match value {
        AttributeValueView::Ints(list) => list,
        _ => Seq::empty(),
    }
}

/// The numbers of an attribute that holds floating-point numbers; none for
/// another.
pub open spec fn floats_in(value: AttributeValueView) -> Seq<u32> {
    match value {
        AttributeValueView::Floats(list) => list,
        _ => Seq::empty(),
    }
}

/// An attribute without a name, of the integer 0.
pub open spec fn no_attribute() -> AttributeView {
    AttributeView { name: Seq::empty(), value: AttributeValueView::Int(0) }
}

impl Decoded for Attribute {
    /// Field 1 holds the name, field 2 a floating-point number, field 3 an
    /// integer, field 4 bytes, field 7 floating-point numbers and field 8
    /// integers. Field 20 holds a code for what the attribute holds: with
    /// the code for a list of floating-point numbers or for a list of
    /// integers, the attribute holds such a list even where no element
    /// follows.
    open spec fn field(value: AttributeView, f: FieldView) -> Result<AttributeView, DecodeFault> {
        if f.number == 1 {
            match text_of(f) {
                Ok(name) => Ok(AttributeView { name, value: value.value }),
                Err(e) => Err(e),
            }
        } else if f.number == 2 {
            if f.wire != FIXED32 {
                Err(DecodeFault::Malformed)
            } else {
                match fixed32_of(f.payload) {
                    Some(bits) => Ok(
                        AttributeView { name: value.name, value: AttributeValueView::Float(bits) },
                    ),
                    None => Err(DecodeFault::Malformed),
                }
            }
        } else if f.number == 3 {
            match int_of(f) {
                Ok(i) => Ok(AttributeView { name: value.name, value: AttributeValueView::Int(i) }),
                Err(e) => Err(e),
            }
        } else if f.number == 4 {
            match bytes_of(f) {
                Ok(text) => Ok(
                    AttributeView { name: value.name, value: AttributeValueView::Text(text) },
                ),
                Err(e) => Err(e),
            }
        } else if f.number == 7 {
            match with_fixed(floats_in(value.value), f) {
                Ok(list) => Ok(
                    AttributeView { name: value.name, value: AttributeValueView::Floats(list) },
                ),
                Err(e) => Err(e),
            }
        } else if f.number == 8 {
            match with_ints(ints_in(value.value), f) {
                Ok(list) => Ok(
                    AttributeView { name: value.name, value: AttributeValueView::Ints(list) },
                ),
                Err(e) => Err(e),
            }
        } else if f.number == 20 {
            match small_int_of(f) {
                Err(e) => Err(e),
                Ok(code) => if code == FLOAT_LIST {
                    Ok(
                        AttributeView {
                            name: value.name,
                            value: AttributeValueView::Floats(floats_in(value.value)),
                        },
                    )
                } else if code == INT_LIST {
                    Ok(
                        AttributeView {
                            name: value.name,
                            value: AttributeValueView::Ints(ints_in(value.value)),
                        },
                    )
                } else {
                    Ok(value)
                },
            }
        } else {
            Ok(value)
        }
    }

    fn apply(self, bytes: &[u8], f: Field) -> (r: Result<Self, protobuf::ProtobufError>) {
        let Attribute { name, value } = self;
        if f.number == 1 {
            let name = read_text(bytes, f)?;
            Ok(Attribute { name, value })
        } else if f.number == 2 {
            if f.wire != FIXED32 {
                return Err(unexpected_wire_type(f.wire));
            }
            match read_fixed32(slice_subrange(bytes, f.start, f.end)) {
                Ok(bits) => Ok(Attribute { name, value: AttributeValue::Float(bits) }),
                Err(e) => Err(e),
            }
        } else if f.number == 3 {
            let i = read_int(bytes, f)?;
            Ok(Attribute { name, value: AttributeValue::Int(i) })
        } else if f.number == 4 {
            let text = read_nested(bytes, f)?;
            Ok(Attribute { name, value: AttributeValue::Text(text) })
        } else if f.number == 7 {
            let mut list = take_floats(value);
            read_fixed(&mut list, bytes, f)?;
            Ok(Attribute { name, value: AttributeValue::Floats(list) })
        } else if f.number == 8 {
            let mut list = take_ints(value);
            read_ints(&mut list, bytes, f)?;
            Ok(Attribute { name, value: AttributeValue::Ints(list) })
        } else if f.number == 20 {
            let code = read_small_int(bytes, f)?;
            if code == FLOAT_LIST {
                Ok(Attribute { name, value: AttributeValue::Floats(take_floats(value)) })
            } else if code == INT_LIST {
                Ok(Attribute { name, value: AttributeValue::Ints(take_ints(value)) })
            } else {
                Ok(Attribute { name, value })
            }
        } else {
            Ok(Attribute { name, value })
        }
    }
}

/// The integers of an attribute that holds integers; none for another.
fn take_ints(value: AttributeValue) -> (list: Vec<i64>)
    ensures
        list@ == ints_in(value.deep_view()),
{
    match value {
        AttributeValue::Ints(list) => list,
        _ => Vec::new(),
    }
}

/// The numbers of an attribute that holds floating-point numbers; none for
/// another.
fn take_floats(value: AttributeValue) -> (list: Vec<u32>)
    ensures
        list@ == floats_in(value.deep_view()),
{
    match value {
        AttributeValue::Floats(list) => list,
        _ => Vec::new(),
    }
}

/// A node without a name, an operator and tensors.
pub open spec fn no_node() -> NodeDescriptionView {
    NodeDescriptionView {
        name: Seq::empty(),
        op_type: Seq::empty(),
        inputs: Seq::empty(),
        outputs: Seq::empty(),
        attributes: Seq::empty(),
    }
}

/// A node without a name, an operator and tensors.
fn new_node() -> (node: NodeDescription)
    ensures
        node.deep_view() == no_node(),
{
    let node = NodeDescription {
        name: String::new(),
        op_type: String::new(),
        inputs: Vec::new(),
        outputs: Vec::new(),
        attributes: Vec::new(),
    };
    proof {
        assert(node.deep_view().inputs =~= Seq::empty());
        assert(node.deep_view().outputs =~= Seq::empty());
        assert(node.deep_view().attributes =~= Seq::empty());
    }
    node
}

impl Decoded for NodeDescription {
    /// Field 1 holds the name of a tensor that the node reads, field 2 that
    /// of one that it writes, field 3 the node's name, field 4 its operator
    /// and field 5 an attribute.
    open spec fn field(value: NodeDescriptionView, f: FieldView) -> Result<
        NodeDescriptionView,
        DecodeFault,
    > {
        if f.number == 1 {
            match text_of(f) {
                Ok(name) => Ok(
                    NodeDescriptionView {
                        name: value.name,
                        op_type: value.op_type,
                        inputs: value.inputs.push(name),
                        outputs: value.outputs,
                        attributes: value.attributes,
                    },
                ),
                Err(e) => Err(e),
            }
        } else if f.number == 2 {
            match text_of(f) {
                Ok(name) => Ok(
                    NodeDescriptionView {
                        name: value.name,
                        op_type: value.op_type,
                        inputs: value.inputs,
                        outputs: value.outputs.push(name),
                        attributes: value.attributes,
                    },
                ),
                Err(e) => Err(e),
            }
        } else if f.number == 3 {
            match text_of(f) {
                Ok(name) => Ok(
                    NodeDescriptionView {
                        name,
                        op_type: value.op_type,
                        inputs: value.inputs,
                        outputs: value.outputs,
                        attributes: value.attributes,
                    },
                ),
                Err(e) => Err(e),
            }
        } else if f.number == 4 {
            match text_of(f) {
                Ok(op_type) => Ok(
                    NodeDescriptionView {
                        name: value.name,
                        op_type,
                        inputs: value.inputs,
                        outputs: value.outputs,
                        attributes: value.attributes,
                    },
                ),
                Err(e) => Err(e),
            }
        } else if f.number == 5 {
            match bytes_of(f) {
                Err(e) => Err(e),
                Ok(data) => match decode::<Attribute>(data, no_attribute()) {
                    Err(e) => Err(e),
                    Ok(attribute) => Ok(
                        NodeDescriptionView {
                            name: value.name,
                            op_type: value.op_type,
                            inputs: value.inputs,
                            outputs: value.outputs,
                            attributes: value.attributes.push(attribute),
                        },
                    ),
                },
            }
        } else {
            Ok(value)
        }
    }

    fn apply(self, bytes: &[u8], f: Field) -> (r: Result<Self, protobuf::ProtobufError>) {
        let mut value = self;
        let ghost before = value.deep_view();
        if f.number == 1 {
            let name = read_text(bytes, f)?;
            value.inputs.push(name);
            proof {
                assert(value.inputs.deep_view() =~= before.inputs.push(name@));
            }
        } else if f.number == 2 {
            let name = read_text(bytes, f)?;
            value.outputs.push(name);
            proof {
                assert(value.outputs.deep_view() =~= before.outputs.push(name@));
            }
        } else if f.number == 3 {
            value.name = read_text(bytes, f)?;
        } else if f.number == 4 {
            value.op_type = read_text(bytes, f)?;
        } else if f.number == 5 {
            let data = read_nested(bytes, f)?;
            let attribute = decode_message(
                data.as_slice(),
                Attribute { name: String::new(), value: AttributeValue::Int(0) },
            )?;
            value.attributes.push(attribute);
            proof {
                assert(value.attributes.deep_view() =~= before.attributes.push(
                    attribute.deep_view(),
                ));
            }
        }
        Ok(value)
    }
}

/// A model in which the graph is being decoded.
pub struct GraphParts {
    pub model: ModelDescription,
}

impl DeepView for GraphParts {
    type V = ModelView;

    open spec fn deep_view(&self) -> ModelView {
        self.model.deep_view()
    }
}

impl Decoded for GraphParts {
    /// Field 1 holds a node, field 5 an initializer, field 11 a declared
    /// input, field 12 a declared output and field 13 a declared
    /// intermediate value.
    open spec fn field(value: ModelView, f: FieldView) -> Result<ModelView, DecodeFault> {
        if f.number == 1 || f.number == 5 || f.number == 11 || f.number == 12 || f.number == 13 {
            match bytes_of(f) {
                Err(e) => Err(e),
                Ok(data) => if f.number == 1 {
                    match decode::<NodeDescription>(data, no_node()) {
                        Err(e) => Err(e),
                        Ok(node) => Ok(
                            ModelView {
                                opset_imports: value.opset_imports,
                                nodes: value.nodes.push(node),
                                inputs: value.inputs,
                                outputs: value.outputs,
                                initializers: value.initializers,
                                value_info: value.value_info,
                            },
                        ),
                    }
                } else if f.number == 5 {
                    match decoded_initializer(data) {
                        Err(e) => Err(e),
                        Ok(constant) => Ok(
                            ModelView {
                                opset_imports: value.opset_imports,
                                nodes: value.nodes,
                                inputs: value.inputs,
                                outputs: value.outputs,
                                initializers: value.initializers.push(constant),
                                value_info: value.value_info,
                            },
                        ),
                    }
                } else {
                    match decode::<Value>(data, no_value()) {
                        Err(e) => Err(e),
                        Ok(found) => if f.number == 11 {
                            Ok(
                                ModelView {
                                    opset_imports: value.opset_imports,
                                    nodes: value.nodes,
                                    inputs: value.inputs.push(value_info_of(found)),
                                    outputs: value.outputs,
                                    initializers: value.initializers,
                                    value_info: value.value_info,
                                },
                            )
                        } else if f.number == 12 {
                            Ok(
                                ModelView {
                                    opset_imports: value.opset_imports,
                                    nodes: value.nodes,
                                    inputs: value.inputs,
                                    outputs: value.outputs.push(value_info_of(found)),
                                    initializers: value.initializers,
                                    value_info: value.value_info,
                                },
                            )
                        } else {
                            Ok(
                                ModelView {
                                    opset_imports: value.opset_imports,
                                    nodes: value.nodes,
                                    inputs: value.inputs,
                                    outputs: value.outputs,
                                    initializers: value.initializers,
                                    value_info: value.value_info.push(value_info_of(found)),
                                },
                            )
                        },
                    }
                },
            }
        } else {
            Ok(value)
        }
    }

    fn apply(self, bytes: &[u8], f: Field) -> (r: Result<Self, protobuf::ProtobufError>) {
        let mut value = self;
        let ghost before = value.deep_view();
        if f.number == 1 {
            let data = read_nested(bytes, f)?;
            let node = decode_message(data.as_slice(), new_node())?;
            value.model.nodes.push(node);
            proof {
                assert(value.model.nodes.deep_view() =~= before.nodes.push(node.deep_view()));
            }
        } else if f.number == 5 {
            let data = read_nested(bytes, f)?;
            let constant = decode_initializer(data.as_slice())?;
            value.model.initializers.push(constant);
            proof {
                assert(value.model.initializers.deep_view() =~= before.initializers.push(
                    constant.deep_view(),
                ));
            }
        } else if f.number == 11 {
            let data = read_nested(bytes, f)?;
            let info = decode_value_info(data.as_slice())?;
            value.model.inputs.push(info);
            proof {
                assert(value.model.inputs.deep_view() =~= before.inputs.push(info.deep_view()));
            }
        } else if f.number == 12 {
            let data = read_nested(bytes, f)?;
            let info = decode_value_info(data.as_slice())?;
            value.model.outputs.push(info);
            proof {
                assert(value.model.outputs.deep_view() =~= before.outputs.push(info.deep_view()));
            }
        } else if f.number == 13 {
            let data = read_nested(bytes, f)?;
            let info = decode_value_info(data.as_slice())?;
            value.model.value_info.push(info);
            proof {
                assert(value.model.value_info.deep_view() =~= before.value_info.push(
                    info.deep_view(),
                ));
            }
        }
        Ok(value)
    }
}

/// A model that imports the given operator sets and has an empty graph.
pub open spec fn graphless(imports: Seq<OpsetImportView>) -> ModelView {
    ModelView {
        opset_imports: imports,
        nodes: Seq::empty(),
        inputs: Seq::empty(),
        outputs: Seq::empty(),
        initializers: Seq::empty(),
        value_info: Seq::empty(),
    }
}

/// An import of the default domain at version 0.
pub open spec fn no_import() -> OpsetImportView {
    OpsetImportView { domain: Seq::empty(), version: 0 }
}

impl Decoded for ModelDescription {
    /// Field 7 holds the graph and field 8 an operator-set import.
    open spec fn field(value: ModelView, f: FieldView) -> Result<ModelView, DecodeFault> {
        if f.number == 7 {
            match bytes_of(f) {
                Err(e) => Err(e),
                Ok(data) => decode::<GraphParts>(data, graphless(value.opset_imports)),
            }
        } else if f.number == 8 {
            match bytes_of(f) {
                Err(e) => Err(e),
                Ok(data) => match decode::<OpsetImport>(data, no_import()) {
                    Err(e) => Err(e),
                    Ok(import) => Ok(
                        ModelView {
                            opset_imports: value.opset_imports.push(import),
                            nodes: value.nodes,
                            inputs: value.inputs,
                            outputs: value.outputs,
                            initializers: value.initializers,
                            value_info: value.value_info,
                        },
                    ),
                },
            }
        } else {
            Ok(value)
        }
    }

    fn apply(self, bytes: &[u8], f: Field) -> (r: Result<Self, protobuf::ProtobufError>) {
        let mut value = self;
        let ghost before = value.deep_view();
        if f.number == 7 {
            let data = read_nested(bytes, f)?;
            let start = GraphParts {
                model: ModelDescription {
                    opset_imports: value.opset_imports,
                    nodes: Vec::new(),
                    inputs: Vec::new(),
                    outputs: Vec::new(),
                    initializers: Vec::new(),
                    value_info: Vec::new(),
                },
            };
            proof {
                assert(start.deep_view().nodes =~= Seq::empty());
                assert(start.deep_view().inputs =~= Seq::empty());
                assert(start.deep_view().outputs =~= Seq::empty());
                assert(start.deep_view().initializers =~= Seq::empty());
                assert(start.deep_view().value_info =~= Seq::empty());
                assert(start.deep_view() == graphless(before.opset_imports));
            }
            let found = decode_message(data.as_slice(), start)?;
            Ok(found.model)
        } else if f.number == 8 {
            let data = read_nested(bytes, f)?;
            let import = decode_message(
                data.as_slice(),
                OpsetImport { domain: String::new(), version: 0 },
            )?;
            value.opset_imports.push(import);
            proof {
                assert(value.opset_imports.deep_view() =~= before.opset_imports.push(
                    import.deep_view(),
                ));
            }
            Ok(value)
        } else {
            Ok(value)
        }
    }
}

/// The model that the bytes hold, or why they hold none.
pub open spec fn model_of(bytes: Seq<u8>) -> Result<ModelView, DecodeFault> {
    decode::<ModelDescription>(bytes, graphless(Seq::empty()))
}

impl ModelDescription {
    /// Decodes a serialized model.
    ///
    /// Bytes that are no sequence of fields are refused, and so is a field
    /// read here that has another wire type than what it holds, or whose
    /// value cannot be read. Fields that are not read here are passed over
    /// without a look at what they hold. The code of an initializer's
    /// element type and its dimensions are taken as they are, supported or
    /// not.
    pub fn from_bytes(bytes: &[u8]) -> (r: Result<ModelDescription, protobuf::ProtobufError>)
        ensures
            match r {
                Ok(model) => model_of(bytes@) == Ok::<ModelView, DecodeFault>(model.deep_view()),
                Err(_) => model_of(bytes@) is Err,
            },
    {
        let start = ModelDescription {
            opset_imports: Vec::new(),
            nodes: Vec::new(),
            inputs: Vec::new(),
            outputs: Vec::new(),
            initializers: Vec::new(),
            value_info: Vec::new(),
        };
        proof {
            assert(start.deep_view().opset_imports =~= Seq::empty());
            assert(start.deep_view().nodes =~= Seq::empty());
            assert(start.deep_view().inputs =~= Seq::empty());
            assert(start.deep_view().outputs =~= Seq::empty());
            assert(start.deep_view().initializers =~= Seq::empty());
            assert(start.deep_view().value_info =~= Seq::empty());
        }
        decode_message(bytes, start)
    }
}

} // verus!
