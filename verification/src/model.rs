//! The graph description: what a serialized model says, as plain values.

use vstd::prelude::*;
use crate::error::DataTypeError;
use crate::opset::{OpsetImport, OpsetImportView};

verus! {

/// The element types that tensors can have.
#[derive(Debug, Clone, Copy, PartialEq, Eq, Structural)]
pub enum ScalarType {
    F32,
    I64,
    I32,
    U8,
}

impl ScalarType {
    /// The number of bytes that one element occupies.
    pub open spec fn spec_stride(self) -> nat {
        match self {
            ScalarType::F32 => 4,
            ScalarType::I64 => 8,
            ScalarType::I32 => 4,
            ScalarType::U8 => 1,
        }
    }

    /// The element type that a model's element-type code stands for, if it
    /// is a supported one.
    pub open spec fn spec_from_i32(code: i32) -> Option<ScalarType> {
        if code == 1 {
            Some(ScalarType::F32)
        } else if code == 2 {
            Some(ScalarType::U8)
        } else if code == 6 {
            Some(ScalarType::I32)
        } else if code == 7 {
            Some(ScalarType::I64)
        } else {
            None
        }
    }

    /// The number of bytes that one element occupies.
    pub fn stride(&self) -> (n: u64)
        ensures
            n == self.spec_stride(),
    {
        match self {
            ScalarType::F32 => 4,
            ScalarType::I64 => 8,
            ScalarType::I32 => 4,
            ScalarType::U8 => 1,
        }
    }

    /// Reads an element-type code: 1 is a 32-bit float, 2 an unsigned byte,
    /// 6 a 32-bit integer and 7 a 64-bit integer. Every other code is
    /// refused, and the error carries it.
    pub fn from_i32(code: i32) -> (r: Result<ScalarType, DataTypeError>)
        ensures
            match r {
                Ok(t) => Self::spec_from_i32(code) == Some(t),
                Err(DataTypeError::NotSupported(c)) => Self::spec_from_i32(code) is None && c
                    == code,
            },
    {
        if code == 1 {
            Ok(ScalarType::F32)
        } else if code == 2 {
            Ok(ScalarType::U8)
        } else if code == 6 {
            Ok(ScalarType::I32)
        } else if code == 7 {
            Ok(ScalarType::I64)
        } else {
            Err(DataTypeError::NotSupported(code))
        }
    }

    /// The code under which a model names this element type.
    pub fn to_i32(&self) -> (code: i32)
        ensures
            Self::spec_from_i32(code) == Some(*self),
    {
        match self {
            ScalarType::F32 => 1,
            ScalarType::U8 => 2,
            ScalarType::I32 => 6,
            ScalarType::I64 => 7,
        }
    }
}

/// The product of the dimensions; 1 for no dimensions.
pub open spec fn volume(dims: Seq<u64>) -> nat
    decreases dims.len(),
{
    if dims.len() == 0 {
        1
    } else {
        volume(dims.drop_last()) * (dims.last() as nat)
    }
}

/// A tensor's dimensions and element type.
#[derive(Debug, Clone)]
pub struct Shape {
    pub dims: Vec<u64>,
    pub data_type: ScalarType,
}

/// A shape as a mathematical value.
pub struct ShapeView {
    pub dims: Seq<u64>,
    pub data_type: ScalarType,
}

impl ShapeView {
    /// The number of elements.
    pub open spec fn element_count(self) -> nat {
        volume(self.dims)
    }

    /// The number of bytes that the elements occupy.
    pub open spec fn byte_len(self) -> nat {
        volume(self.dims) * self.data_type.spec_stride()
    }
}

impl DeepView for Shape {
    type V = ShapeView;

    open spec fn deep_view(&self) -> ShapeView {
        ShapeView { dims: self.dims@, data_type: self.data_type }
    }
}

/// A volume with a zero dimension is zero.
pub proof fn volume_zero(dims: Seq<u64>, k: int)
    requires
        0 <= k < dims.len(),
        dims[k] == 0,
    ensures
        volume(dims) == 0,
    decreases dims.len(),
{
    if k == dims.len() - 1 {
        assert(volume(dims) == volume(dims.drop_last()) * 0);
    } else {
        volume_zero(dims.drop_last(), k);
        assert(volume(dims) == 0 * (dims.last() as nat));
    }
}

/// Without a zero dimension, a volume is at least that of each of its prefixes.
pub proof fn volume_grows(dims: Seq<u64>, n: int)
    requires
        0 <= n <= dims.len(),
        forall|k: int| 0 <= k < dims.len() ==> dims[k] != 0,
    ensures
        1 <= volume(dims.take(n)) <= volume(dims),
    decreases dims.len() - n,
{
    if n == dims.len() {
        assert(dims.take(n) =~= dims);
        volume_positive(dims);
    } else {
        volume_grows(dims, n + 1);
        let next = dims.take(n + 1);
        assert(next.drop_last() =~= dims.take(n));
        volume_positive(dims.take(n));
        assert(volume(next) == volume(dims.take(n)) * (dims[n] as nat));
        assert(volume(dims.take(n)) <= volume(dims.take(n)) * (dims[n] as nat))
            by (nonlinear_arith)
            requires
                dims[n] as nat >= 1,
        ;
    }
}

/// Without a zero dimension, a volume is at least 1.
pub proof fn volume_positive(dims: Seq<u64>)
    requires
        forall|k: int| 0 <= k < dims.len() ==> dims[k] != 0,
    ensures
        volume(dims) >= 1,
    decreases dims.len(),
{
    if dims.len() > 0 {
        volume_positive(dims.drop_last());
        assert(volume(dims.drop_last()) * (dims.last() as nat) >= 1) by (nonlinear_arith)
            requires
                volume(dims.drop_last()) >= 1,
                dims.last() as nat >= 1,
        ;
    }
}

impl Shape {
    /// A shape of the given dimensions and element type.
    pub fn new(data_type: ScalarType, dims: Vec<u64>) -> (shape: Shape)
        ensures
            shape.dims == dims,
            shape.data_type == data_type,
    {
        Shape { dims, data_type }
    }

    /// Whether some dimension is zero.
    fn has_zero_dim(&self) -> (found: bool)
        ensures
            found <==> exists|k: int| 0 <= k < self.dims@.len() && self.dims@[k] == 0,
    {
        let mut i: usize = 0;
        while i < self.dims.len()
            invariant
                i <= self.dims.len(),
                forall|k: int| 0 <= k < i ==> self.dims@[k] != 0,
            decreases self.dims.len() - i,
        {
            if self.dims[i] == 0 {
                return true;
            }
            i = i + 1;
        }
        false
    }

    /// The number of elements, unless it exceeds what 64 bits hold.
    pub fn element_count(&self) -> (count: Option<u64>)
        ensures
            match count {
                Some(n) => n == volume(self.dims@),
                None => volume(self.dims@) > u64::MAX,
            },
    {
        if self.has_zero_dim() {
            proof {
                let k = choose|k: int| 0 <= k < self.dims@.len() && self.dims@[k] == 0;
                volume_zero(self.dims@, k);
            }
            return Some(0);
        }
        let mut product: u64 = 1;
        let mut i: usize = 0;
        proof {
            assert(self.dims@.take(0) =~= Seq::<u64>::empty());
        }
        while i < self.dims.len()
            invariant
                i <= self.dims.len(),
                forall|k: int| 0 <= k < self.dims@.len() ==> self.dims@[k] != 0,
                product == volume(self.dims@.take(i as int)),
            decreases self.dims.len() - i,
        {
            proof {
                let next = self.dims@.take(i + 1);
                assert(next.drop_last() =~= self.dims@.take(i as int));
                assert(next.last() == self.dims@[i as int]);
                volume_grows(self.dims@, i + 1);
            }
            match product.checked_mul(self.dims[i]) {
                Some(p) => {
                    product = p;
                },
                None => {
                    return None;
                },
            }
            i = i + 1;
        }
        proof {
            assert(self.dims@.take(i as int) =~= self.dims@);
        }
        Some(product)
    }

    /// The number of bytes that a buffer for this shape takes: the element
    /// size times the number of elements, unless that exceeds what 64 bits
    /// hold.
    pub fn buffer_bytes(&self) -> (bytes: Option<u64>)
        ensures
            match bytes {
                Some(n) => n == self.deep_view().byte_len(),
                None => self.deep_view().byte_len() > u64::MAX,
            },
    {
        match self.element_count() {
            Some(n) => {
                let r = n.checked_mul(self.data_type.stride());
                r
            },
            None => {
                proof {
                    let v = volume(self.dims@);
                    let s = self.data_type.spec_stride();
                    assert(v * s >= v) by (nonlinear_arith)
                        requires
                            s >= 1,
                    ;
                }
                None
            },
        }
    }

    /// A copy of this shape.
    pub fn duplicate(&self) -> (copy: Shape)
        ensures
            copy.deep_view() == self.deep_view(),
    {
        let mut dims: Vec<u64> = Vec::new();
        let mut i: usize = 0;
        while i < self.dims.len()
            invariant
                i <= self.dims.len(),
                dims@ == self.dims@.take(i as int),
            decreases self.dims.len() - i,
        {
            dims.push(self.dims[i]);
            proof {
                assert(dims@ =~= self.dims@.take(i + 1));
            }
            i = i + 1;
        }
        proof {
            assert(self.dims@.take(i as int) =~= self.dims@);
        }
        Shape { dims, data_type: self.data_type }
    }
}

/// A copy of a list of plain values.
pub fn copy_values<T: Copy>(values: &Vec<T>) -> (copy: Vec<T>)
    ensures
        copy@ == values@,
{
    let mut copy: Vec<T> = Vec::new();
    let mut i: usize = 0;
    while i < values.len()
        invariant
            i <= values.len(),
            copy@ == values@.take(i as int),
        decreases values.len() - i,
    {
        copy.push(values[i]);
        proof {
            assert(copy@ =~= values@.take(i + 1));
        }
        i = i + 1;
    }
    proof {
        assert(values@.take(i as int) =~= values@);
    }
    copy
}

/// The value of a node's attribute. Floating-point values are kept as the
/// bits of their 32-bit encoding.
#[derive(Debug, Clone)]
pub enum AttributeValue {
    Int(i64),
    Float(u32),
    Text(Vec<u8>),
    Ints(Vec<i64>),
    Floats(Vec<u32>),
}

/// An attribute value as a mathematical value.
pub enum AttributeValueView {
    Int(i64),
    Float(u32),
    Text(Seq<u8>),
    Ints(Seq<i64>),
    Floats(Seq<u32>),
}

impl DeepView for AttributeValue {
    type V = AttributeValueView;

    open spec fn deep_view(&self) -> AttributeValueView {
        match self {
            AttributeValue::Int(i) => AttributeValueView::Int(*i),
            AttributeValue::Float(f) => AttributeValueView::Float(*f),
            AttributeValue::Text(t) => AttributeValueView::Text(t@),
            AttributeValue::Ints(v) => AttributeValueView::Ints(v@),
            AttributeValue::Floats(v) => AttributeValueView::Floats(v@),
        }
    }
}

impl AttributeValue {
    /// A copy of this value.
    pub fn duplicate(&self) -> (copy: AttributeValue)
        ensures
            copy.deep_view() == self.deep_view(),
    {
        match self {
            AttributeValue::Int(i) => AttributeValue::Int(*i),
            AttributeValue::Float(f) => AttributeValue::Float(*f),
            AttributeValue::Text(t) => AttributeValue::Text(copy_values(t)),
            AttributeValue::Ints(v) => AttributeValue::Ints(copy_values(v)),
            AttributeValue::Floats(v) => AttributeValue::Floats(copy_values(v)),
        }
    }
}

/// A named attribute of a node.
#[derive(Debug, Clone)]
pub struct Attribute {
    pub name: String,
    pub value: AttributeValue,
}

/// An attribute as a mathematical value.
pub struct AttributeView {
    pub name: Seq<char>,
    pub value: AttributeValueView,
}

impl DeepView for Attribute {
    type V = AttributeView;

    open spec fn deep_view(&self) -> AttributeView {
        AttributeView { name: self.name@, value: self.value.deep_view() }
    }
}

/// A copy of a list of attributes.
pub fn copy_attributes(attributes: &Vec<Attribute>) -> (copy: Vec<Attribute>)
    ensures
        copy.deep_view() == attributes.deep_view(),
{
    let mut copy: Vec<Attribute> = Vec::new();
    let mut i: usize = 0;
    while i < attributes.len()
        invariant
            i <= attributes.len(),
            copy@.len() == i,
            forall|k: int| 0 <= k < i ==> copy@[k].deep_view() == attributes@[k].deep_view(),
        decreases attributes.len() - i,
    {
        let a = &attributes[i];
        copy.push(Attribute { name: a.name.clone(), value: a.value.duplicate() });
        i = i + 1;
    }
    proof {
        assert(copy.deep_view() =~= attributes.deep_view());
    }
    copy
}

/// A tensor that the graph declares: an input, an output or an intermediate
/// value. The shape may be left open.
#[derive(Debug, Clone)]
pub struct ValueInfo {
    pub name: String,
    pub shape: Option<Shape>,
}

/// A declared tensor as a mathematical value.
pub struct ValueInfoView {
    pub name: Seq<char>,
    pub shape: Option<ShapeView>,
}

impl DeepView for ValueInfo {
    type V = ValueInfoView;

    open spec fn deep_view(&self) -> ValueInfoView {
        ValueInfoView { name: self.name@, shape: self.shape.deep_view() }
    }
}

/// Every dimension is fixed: none is negative.
pub open spec fn all_fixed(dims: Seq<i64>) -> bool {
    forall|i: int| 0 <= i < dims.len() ==> dims[i] >= 0
}

/// Fixed dimensions as sizes.
pub open spec fn sizes(dims: Seq<i64>) -> Seq<u64> {
    Seq::new(dims.len(), |i: int| dims[i] as u64)
}

/// The shape that the code of an element type and dimensions fix: there is
/// one if the code stands for a supported element type and every dimension
/// is fixed.
pub open spec fn fixed_shape(code: i32, dims: Seq<i64>) -> Option<ShapeView> {
    match ScalarType::spec_from_i32(code) {
        Some(data_type) => if all_fixed(dims) {
            Some(ShapeView { dims: sizes(dims), data_type })
        } else {
            None
        },
        None => None,
    }
}

/// The dimensions as sizes, if every one is fixed.
pub fn fixed_sizes(dims: &Vec<i64>) -> (r: Option<Vec<u64>>)
    ensures
        match r {
            Some(found) => all_fixed(dims@) && found@ == sizes(dims@),
            None => !all_fixed(dims@),
        },
{
    let mut found: Vec<u64> = Vec::new();
    let mut i: usize = 0;
    while i < dims.len()
        invariant
            i <= dims.len(),
            found@.len() == i,
            forall|j: int| 0 <= j < i ==> (#[trigger] dims@[j]) >= 0,
            forall|j: int| 0 <= j < i ==> #[trigger] found@[j] == dims@[j] as u64,
        decreases dims.len() - i,
    {
        if dims[i] < 0 {
            return None;
        }
        found.push(dims[i] as u64);
        i = i + 1;
    }
    proof {
        assert(found@ =~= sizes(dims@));
    }
    Some(found)
}

/// The shape that the code of an element type and dimensions fix, if they
/// fix one.
pub fn to_fixed_shape(code: i32, dims: &Vec<i64>) -> (r: Option<Shape>)
    ensures
        r.deep_view() == fixed_shape(code, dims@),
{
    match ScalarType::from_i32(code) {
        Ok(data_type) => match fixed_sizes(dims) {
            Some(dims) => Some(Shape { dims, data_type }),
            None => None,
        },
        Err(_) => None,
    }
}

/// A constant tensor that the model carries: its name, the code of its
/// element type, its dimensions and its bytes.
#[derive(Debug, Clone)]
pub struct Initializer {
    pub name: String,
    pub data_type: i32,
    pub dims: Vec<i64>,
    pub data: Vec<u8>,
}

/// A constant tensor as a mathematical value.
pub struct InitializerView {
    pub name: Seq<char>,
    pub data_type: i32,
    pub dims: Seq<i64>,
    pub data: Seq<u8>,
}

impl InitializerView {
    /// The shape of the constant, if its element type is supported and its
    /// dimensions are fixed.
    pub open spec fn shape(self) -> Option<ShapeView> {
        fixed_shape(self.data_type, self.dims)
    }
}

impl DeepView for Initializer {
    type V = InitializerView;

    open spec fn deep_view(&self) -> InitializerView {
        InitializerView {
            name: self.name@,
            data_type: self.data_type,
            dims: self.dims@,
            data: self.data@,
        }
    }
}

/// One operation of the graph, with the names of the tensors that it reads
/// and writes, in order.
#[derive(Debug, Clone)]
pub struct NodeDescription {
    pub name: String,
    pub op_type: String,
    pub inputs: Vec<String>,
    pub outputs: Vec<String>,
    pub attributes: Vec<Attribute>,
}

/// An operation as a mathematical value.
pub struct NodeDescriptionView {
    pub name: Seq<char>,
    pub op_type: Seq<char>,
    pub inputs: Seq<Seq<char>>,
    pub outputs: Seq<Seq<char>>,
    pub attributes: Seq<AttributeView>,
}

impl DeepView for NodeDescription {
    type V = NodeDescriptionView;

    open spec fn deep_view(&self) -> NodeDescriptionView {
        NodeDescriptionView {
            name: self.name@,
            op_type: self.op_type@,
            inputs: self.inputs.deep_view(),
            outputs: self.outputs.deep_view(),
            attributes: self.attributes.deep_view(),
        }
    }
}

/// A model: the operator sets that it imports and its graph.
#[derive(Debug, Clone)]
pub struct ModelDescription {
    pub opset_imports: Vec<OpsetImport>,
    pub nodes: Vec<NodeDescription>,
    pub inputs: Vec<ValueInfo>,
    pub outputs: Vec<ValueInfo>,
    pub initializers: Vec<Initializer>,
    pub value_info: Vec<ValueInfo>,
}

/// A model as a mathematical value.
pub struct ModelView {
    pub opset_imports: Seq<OpsetImportView>,
    pub nodes: Seq<NodeDescriptionView>,
    pub inputs: Seq<ValueInfoView>,
    pub outputs: Seq<ValueInfoView>,
    pub initializers: Seq<InitializerView>,
    pub value_info: Seq<ValueInfoView>,
}

impl DeepView for ModelDescription {
    type V = ModelView;

    open spec fn deep_view(&self) -> ModelView {
        ModelView {
            opset_imports: self.opset_imports.deep_view(),
            nodes: self.nodes.deep_view(),
            inputs: self.inputs.deep_view(),
            outputs: self.outputs.deep_view(),
            initializers: self.initializers.deep_view(),
            value_info: self.value_info.deep_view(),
        }
    }
}

} // verus!
