//! The operators that can be lowered, each over a range of operator-set
//! versions and for tensors of given element types and numbers of
//! dimensions.

use vstd::prelude::*;
use vstd::string::*;
use crate::graph::{Tensor, TensorView};
use crate::model::ScalarType;
use crate::names::Name;

verus! {

/// One lowerable operator: its name, the operator-set versions, both ends
/// included, over which this implementation of it is valid, the element
/// types that it accepts for the tensors it reads, and the largest number of
/// dimensions that it accepts for them.
#[derive(Debug, Clone)]
pub struct OperatorEntry {
    pub op_type: String,
    pub since: i64,
    pub until: i64,
    pub types: Vec<ScalarType>,
    pub max_rank: usize,
}

/// An entry as a mathematical value.
pub struct OperatorEntryView {
    pub op_type: Name,
    pub since: i64,
    pub until: i64,
    pub types: Seq<ScalarType>,
    pub max_rank: usize,
}

impl DeepView for OperatorEntry {
    type V = OperatorEntryView;

    open spec fn deep_view(&self) -> OperatorEntryView {
        OperatorEntryView {
            op_type: self.op_type@,
            since: self.since,
            until: self.until,
            types: self.types@,
            max_rank: self.max_rank,
        }
    }
}

impl OperatorEntryView {
    /// The entry accepts a tensor: its element type is one of the entry's,
    /// and it has no more dimensions than the entry allows. A tensor whose
    /// shape is open is not examined.
    pub open spec fn accepts(self, tensor: TensorView) -> bool {
        match tensor.shape {
            Some(shape) => self.types.contains(shape.data_type) && shape.dims.len()
                <= self.max_rank,
            None => true,
        }
    }

    /// The entry implements the operator at the version for a node that
    /// reads the given tensors: the name is the operator's, the version lies
    /// in the entry's range, and the entry accepts every tensor.
    pub open spec fn covers(
        self,
        op_type: Name,
        version: i64,
        tensors: Seq<TensorView>,
        inputs: Seq<usize>,
    ) -> bool {
        &&& self.op_type == op_type
        &&& self.since <= version <= self.until
        &&& forall|k: int| 0 <= k < inputs.len() ==> self.accepts(tensors[#[trigger] inputs[k] as int])
    }
}

/// The first of the first `n` entries that implements the operator at the
/// version for a node that reads the given tensors.
pub open spec fn selection(
    entries: Seq<OperatorEntryView>,
    op_type: Name,
    version: i64,
    tensors: Seq<TensorView>,
    inputs: Seq<usize>,
    n: int,
) -> Option<int>
    decreases n,
{
    if n <= 0 {
        None
    } else {
        match selection(entries, op_type, version, tensors, inputs, n - 1) {
            Some(e) => Some(e),
            None => if entries[n - 1].covers(op_type, version, tensors, inputs) {
                Some(n - 1)
            } else {
                None
            },
        }
    }
}

/// What is selected among the first `n` entries is selected among more.
pub proof fn selection_stays(
    entries: Seq<OperatorEntryView>,
    op_type: Name,
    version: i64,
    tensors: Seq<TensorView>,
    inputs: Seq<usize>,
    n: int,
    later: int,
)
    requires
        0 <= n <= later,
        selection(entries, op_type, version, tensors, inputs, n) is Some,
    ensures
        selection(entries, op_type, version, tensors, inputs, later) == selection(
            entries,
            op_type,
            version,
            tensors,
            inputs,
            n,
        ),
    decreases later - n,
{
    if n < later {
        selection_stays(entries, op_type, version, tensors, inputs, n, later - 1);
    }
}

/// Whether the element type is one of the given ones.
fn has_type(types: &Vec<ScalarType>, data_type: ScalarType) -> (found: bool)
    ensures
        found == types@.contains(data_type),
{
    let mut i: usize = 0;
    while i < types.len()
        invariant
            i <= types.len(),
            forall|j: int| 0 <= j < i ==> types@[j] != data_type,
        decreases types.len() - i,
    {
        if types[i] == data_type {
            return true;
        }
        i = i + 1;
    }
    false
}

/// Whether the entry accepts every one of the tensors.
fn accepts_all(entry: &OperatorEntry, tensors: &Vec<Tensor>, inputs: &Vec<usize>) -> (all: bool)
    requires
        forall|k: int| 0 <= k < inputs@.len() ==> inputs@[k] < tensors@.len(),
    ensures
        all <==> forall|k: int|
            0 <= k < inputs@.len() ==> entry.deep_view().accepts(
                tensors.deep_view()[#[trigger] inputs@[k] as int],
            ),
{
    let mut k: usize = 0;
    while k < inputs.len()
        invariant
            k <= inputs.len(),
            forall|j: int| 0 <= j < inputs@.len() ==> inputs@[j] < tensors@.len(),
            forall|j: int|
                0 <= j < k ==> entry.deep_view().accepts(
                    tensors.deep_view()[#[trigger] inputs@[j] as int],
                ),
        decreases inputs.len() - k,
    {
        let tensor = &tensors[inputs[k]];
        proof {
            assert(tensors.deep_view()[inputs@[k as int] as int] == tensor.deep_view());
        }
        let accepted = match &tensor.shape {
            Some(shape) => has_type(&entry.types, shape.data_type) && shape.dims.len()
                <= entry.max_rank,
            None => true,
        };
        if !accepted {
            return false;
        }
        k = k + 1;
    }
    true
}

/// The registry of lowerable operators. It is built once and then only read.
#[derive(Debug, Clone)]
pub struct OperatorRegistry {
    pub entries: Vec<OperatorEntry>,
}

/// The newest operator-set version.
pub const LATEST: i64 = 0x7fff_ffff_ffff_ffff;

/// The largest number of dimensions that a tensor can have.
pub const ANY_RANK: usize = usize::MAX;

/// The 32-bit floating-point type alone.
pub open spec fn floats() -> Seq<ScalarType> {
    seq![ScalarType::F32]
}

/// The element types of numbers that are computed with.
pub open spec fn numbers() -> Seq<ScalarType> {
    seq![ScalarType::F32, ScalarType::I32, ScalarType::I64]
}

/// Every element type.
pub open spec fn every_type() -> Seq<ScalarType> {
    seq![ScalarType::F32, ScalarType::I32, ScalarType::I64, ScalarType::U8]
}

/// An entry of the standard registry: valid from a version on, for tensors
/// of any number of dimensions.
pub open spec fn standard_entry(op_type: Name, since: i64, types: Seq<ScalarType>) -> OperatorEntryView {
    OperatorEntryView { op_type, since, until: LATEST, types, max_rank: ANY_RANK }
}

/// The entries of the standard registry. Operators that move tensors about
/// accept every element type, operators of plain arithmetic accept numbers,
/// and every other operator accepts 32-bit floating-point tensors.
pub open spec fn standard_entries() -> Seq<OperatorEntryView> {
    seq![
        standard_entry("Abs"@, 1, numbers()),
        standard_entry("Add"@, 1, numbers()),
        standard_entry("AveragePool"@, 1, floats()),
        standard_entry("BatchNormalization"@, 1, floats()),
        standard_entry("Clip"@, 1, numbers()),
        standard_entry("Concat"@, 1, every_type()),
        standard_entry("Conv"@, 1, floats()),
        standard_entry("Cos"@, 7, floats()),
        standard_entry("Div"@, 1, numbers()),
        standard_entry("Exp"@, 1, floats()),
        standard_entry("Flatten"@, 1, every_type()),
        standard_entry("Gemm"@, 1, floats()),
        standard_entry("GlobalAveragePool"@, 1, floats()),
        standard_entry("Identity"@, 1, every_type()),
        standard_entry("LeakyRelu"@, 1, floats()),
        standard_entry("Log"@, 1, floats()),
        standard_entry("MatMul"@, 1, floats()),
        standard_entry("MaxPool"@, 1, floats()),
        standard_entry("Mul"@, 1, numbers()),
        standard_entry("Neg"@, 1, numbers()),
        standard_entry("Relu"@, 1, numbers()),
        standard_entry("Reshape"@, 1, every_type()),
        standard_entry("Sigmoid"@, 1, floats()),
        standard_entry("Sin"@, 7, floats()),
        standard_entry("Softmax"@, 1, floats()),
        standard_entry("Sqrt"@, 1, floats()),
        standard_entry("Sub"@, 1, numbers()),
        standard_entry("Tanh"@, 1, floats()),
        standard_entry("Transpose"@, 1, every_type()),
    ]
}

impl DeepView for OperatorRegistry {
    type V = Seq<OperatorEntryView>;

    open spec fn deep_view(&self) -> Seq<OperatorEntryView> {
        self.entries.deep_view()
    }
}

impl OperatorRegistry {
    /// A registry without any operator.
    pub fn new() -> (registry: OperatorRegistry)
        ensures
            registry.entries@.len() == 0,
            registry.deep_view() == Seq::<OperatorEntryView>::empty(),
    {
        let registry = OperatorRegistry { entries: Vec::new() };
        proof {
            assert(registry.deep_view() =~= Seq::<OperatorEntryView>::empty());
        }
        registry
    }

    /// Adds an implementation of an operator for the versions from `since`
    /// to `until`, both included, for tensors of the given element types and
    /// of at most `max_rank` dimensions. Earlier entries take precedence.
    pub fn register(
        &mut self,
        op_type: &str,
        since: i64,
        until: i64,
        types: Vec<ScalarType>,
        max_rank: usize,
    )
        ensures
            final(self).deep_view() == old(self).deep_view().push(
                OperatorEntryView { op_type: op_type@, since, until, types: types@, max_rank },
            ),
    {
        let ghost before = self.deep_view();
        let ghost accepted = types@;
        self.entries.push(
            OperatorEntry { op_type: String::from_str(op_type), since, until, types, max_rank },
        );
        proof {
            assert(self.deep_view() =~= before.push(
                OperatorEntryView { op_type: op_type@, since, until, types: accepted, max_rank },
            ));
        }
    }

    /// The registry of the operators that the library knows how to lower.
    pub fn standard() -> (registry: OperatorRegistry)
        ensures
            registry.deep_view() == standard_entries(),
    {
        let mut r = OperatorRegistry::new();
        r.register("Abs", 1, LATEST, list_numbers(), ANY_RANK);
        r.register("Add", 1, LATEST, list_numbers(), ANY_RANK);
        r.register("AveragePool", 1, LATEST, list_floats(), ANY_RANK);
        r.register("BatchNormalization", 1, LATEST, list_floats(), ANY_RANK);
        r.register("Clip", 1, LATEST, list_numbers(), ANY_RANK);
        r.register("Concat", 1, LATEST, list_every_type(), ANY_RANK);
        r.register("Conv", 1, LATEST, list_floats(), ANY_RANK);
        r.register("Cos", 7, LATEST, list_floats(), ANY_RANK);
        r.register("Div", 1, LATEST, list_numbers(), ANY_RANK);
        r.register("Exp", 1, LATEST, list_floats(), ANY_RANK);
        r.register("Flatten", 1, LATEST, list_every_type(), ANY_RANK);
        r.register("Gemm", 1, LATEST, list_floats(), ANY_RANK);
        r.register("GlobalAveragePool", 1, LATEST, list_floats(), ANY_RANK);
        r.register("Identity", 1, LATEST, list_every_type(), ANY_RANK);
        r.register("LeakyRelu", 1, LATEST, list_floats(), ANY_RANK);
        r.register("Log", 1, LATEST, list_floats(), ANY_RANK);
        r.register("MatMul", 1, LATEST, list_floats(), ANY_RANK);
        r.register("MaxPool", 1, LATEST, list_floats(), ANY_RANK);
        r.register("Mul", 1, LATEST, list_numbers(), ANY_RANK);
        r.register("Neg", 1, LATEST, list_numbers(), ANY_RANK);
        r.register("Relu", 1, LATEST, list_numbers(), ANY_RANK);
        r.register("Reshape", 1, LATEST, list_every_type(), ANY_RANK);
        r.register("Sigmoid", 1, LATEST, list_floats(), ANY_RANK);
        r.register("Sin", 7, LATEST, list_floats(), ANY_RANK);
        r.register("Softmax", 1, LATEST, list_floats(), ANY_RANK);
        r.register("Sqrt", 1, LATEST, list_floats(), ANY_RANK);
        r.register("Sub", 1, LATEST, list_numbers(), ANY_RANK);
        r.register("Tanh", 1, LATEST, list_floats(), ANY_RANK);
        r.register("Transpose", 1, LATEST, list_every_type(), ANY_RANK);
        proof {
            assert(r.deep_view() =~= standard_entries());
        }
        r
    }

    /// Selects the implementation of an operator at an operator-set version
    /// for a node that reads the given tensors: the first entry of that name
    /// whose range holds the version and that accepts every one of the
    /// tensors.
    pub fn select(
        &self,
        op_type: &String,
        version: i64,
        tensors: &Vec<Tensor>,
        inputs: &Vec<usize>,
    ) -> (found: Option<usize>)
        requires
            forall|k: int| 0 <= k < inputs@.len() ==> inputs@[k] < tensors@.len(),
        ensures
            match found {
                Some(e) => selection(
                    self.deep_view(),
                    op_type@,
                    version,
                    tensors.deep_view(),
                    inputs@,
                    self.deep_view().len() as int,
                ) == Some(e as int),
                None => selection(
                    self.deep_view(),
                    op_type@,
                    version,
                    tensors.deep_view(),
                    inputs@,
                    self.deep_view().len() as int,
                ) is None,
            },
    {
        let ghost entries = self.deep_view();
        let ghost read = tensors.deep_view();
        let mut i: usize = 0;
        while i < self.entries.len()
            invariant
                i <= self.entries.len(),
                entries == self.deep_view(),
                read == tensors.deep_view(),
                forall|k: int| 0 <= k < inputs@.len() ==> inputs@[k] < tensors@.len(),
                selection(entries, op_type@, version, read, inputs@, i as int) is None,
            decreases self.entries.len() - i,
        {
            let entry = &self.entries[i];
            proof {
                assert(entries[i as int] == entry.deep_view());
            }
            if entry.op_type == *op_type && entry.since <= version && version <= entry.until
                && accepts_all(entry, tensors, inputs) {
                proof {
                    assert(selection(entries, op_type@, version, read, inputs@, i + 1) == Some(
                        i as int,
                    ));
                    selection_stays(
                        entries,
                        op_type@,
                        version,
                        read,
                        inputs@,
                        i + 1,
                        entries.len() as int,
                    );
                }
                return Some(i);
            }
            i = i + 1;
        }
        None
    }
}

/// The 32-bit floating-point type alone.
pub fn list_floats() -> (types: Vec<ScalarType>)
    ensures
        types@ == floats(),
{
    let mut types: Vec<ScalarType> = Vec::new();
    types.push(ScalarType::F32);
    proof {
        assert(types@ =~= floats());
    }
    types
}

/// The element types of numbers that are computed with.
pub fn list_numbers() -> (types: Vec<ScalarType>)
    ensures
        types@ == numbers(),
{
    let mut types: Vec<ScalarType> = Vec::new();
    types.push(ScalarType::F32);
    types.push(ScalarType::I32);
    types.push(ScalarType::I64);
    proof {
        assert(types@ =~= numbers());
    }
    types
}

/// Every element type.
pub fn list_every_type() -> (types: Vec<ScalarType>)
    ensures
        types@ == every_type(),
{
    let mut types: Vec<ScalarType> = Vec::new();
    types.push(ScalarType::F32);
    types.push(ScalarType::I32);
    types.push(ScalarType::I64);
    types.push(ScalarType::U8);
    proof {
        assert(types@ =~= every_type());
    }
    types
}

} // verus!
