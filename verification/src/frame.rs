//! The columnar values the engine moves around, reduced to what the reduction
//! logic actually reads: unsigned 64-bit cells, named output fields with a
//! declared width, and batches whose columns must agree in length.

use vstd::prelude::*;
use crate::EngineError;

verus! {

/// The declared type of an output field. All cells are carried as `u64`; a
/// narrower declared type only restricts the range a finalized value may
/// take, and casting to it fails outside that range.
#[derive(Clone, Copy, PartialEq, Eq, Structural, Debug)]
pub enum DType {
    UInt8,
    UInt16,
    UInt32,
    UInt64,
}

impl DType {
    /// The largest cell value the type can represent.
    pub open spec fn max_value_spec(self) -> u64 {
        match self {
            DType::UInt8 => 0xff,
            DType::UInt16 => 0xffff,
            DType::UInt32 => 0xffff_ffff,
            DType::UInt64 => 0xffff_ffff_ffff_ffff,
        }
    }

    /// The largest cell value the type can represent.
    pub fn max_value(&self) -> (r: u64)
        ensures
            r == self.max_value_spec(),
    {
        match self {
            DType::UInt8 => 0xff,
            DType::UInt16 => 0xffff,
            DType::UInt32 => 0xffff_ffff,
            DType::UInt64 => 0xffff_ffff_ffff_ffff,
        }
    }
}

/// Whether a finalized (possibly null) value fits the declared type. A null
/// casts to every type.
pub open spec fn scalar_fits(v: Option<u64>, dtype: DType) -> bool {
    v matches Some(x) ==> x <= dtype.max_value_spec()
}

/// Cast a finalized value to a declared type. The representation does not
/// change; the cast only checks the range and fails outside it.
pub fn cast_scalar(v: Option<u64>, dtype: DType) -> (r: Result<Option<u64>, EngineError>)
    ensures
        r is Ok <==> scalar_fits(v, dtype),
        r matches Ok(w) ==> w == v,
        r is Err ==> r == Err::<Option<u64>, EngineError>(EngineError::InvalidCast),
{
    match v {
        Option::None => Ok(None),
        Option::Some(x) => {
            if x <= dtype.max_value() {
                Ok(Some(x))
            } else {
                Err(EngineError::InvalidCast)
            }
        },
    }
}

/// One field of the output schema: a name and the declared type the finalized
/// column is cast to.
pub struct Field {
    pub name: String,
    pub dtype: DType,
}

/// The ordered output schema: one field per reduction.
pub struct Schema {
    pub fields: Vec<Field>,
}

/// A column of non-null cells, one entry per row of its batch.
pub struct Column {
    pub values: Vec<u64>,
}

impl View for Column {
    type V = Seq<u64>;

    open spec fn view(&self) -> Seq<u64> {
        self.values@
    }
}

/// An immutable batch of rows: a set of equally long columns. Selectors refer
/// to columns by position.
pub struct DataBatch {
    pub columns: Vec<Column>,
}

impl DataBatch {
    /// All columns agree in length.
    pub open spec fn wf(self) -> bool {
        forall|i: int| 0 <= i < self.columns@.len() ==> (#[trigger] self.columns@[i])@.len()
            == self.height_spec()
    }

    /// The number of rows: the length of the first column, or zero for a
    /// batch of no columns.
    pub open spec fn height_spec(self) -> nat {
        if self.columns@.len() == 0 {
            0
        } else {
            self.columns@[0]@.len()
        }
    }

    /// Assemble a batch from columns; fails if the columns do not agree in
    /// length.
    pub fn try_new(columns: Vec<Column>) -> (r: Result<DataBatch, EngineError>)
        ensures
            r is Ok <==> (forall|i: int|
                0 <= i < columns@.len() ==> (#[trigger] columns@[i])@.len()
                    == (DataBatch { columns }).height_spec()),
            r matches Ok(b) ==> b == (DataBatch { columns }) && b.wf(),
            r is Err ==> r == Err::<DataBatch, EngineError>(EngineError::MismatchedLengths),
    {
        let mut i: usize = 0;
        let height: usize = if columns.len() == 0 { 0 } else { columns[0].values.len() };
        while i < columns.len()
            invariant
                0 <= i <= columns@.len(),
                height == (DataBatch { columns }).height_spec(),
                forall|k: int| 0 <= k < i ==> (#[trigger] columns@[k])@.len() == height,
            decreases columns@.len() - i,
        {
            if columns[i].values.len() != height {
                return Err(EngineError::MismatchedLengths);
            }
            i += 1;
        }
        Ok(DataBatch { columns })
    }

    /// The number of rows in the batch.
    pub fn height(&self) -> (r: usize)
        requires
            self.wf(),
        ensures
            r == self.height_spec(),
    {
        if self.columns.len() == 0 {
            0
        } else {
            self.columns[0].values.len()
        }
    }
}

/// A single-row constant column: one finalized reduction value under the name
/// and declared type of its schema field.
pub struct ScalarColumn {
    pub name: String,
    pub dtype: DType,
    pub value: Option<u64>,
}

/// The result batch a reduction node emits: one single-row constant column
/// per schema field.
pub struct ResultBatch {
    pub columns: Vec<ScalarColumn>,
}

} // verus!
