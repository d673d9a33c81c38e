//! The boundary model of expression evaluation: a selector turns an input
//! batch into the column a reduction consumes. Evaluation is pure with
//! respect to the batch and fails exactly when the batch lacks the referred
//! column.

use vstd::prelude::*;
use crate::EngineError;
use crate::frame::{Column, DataBatch};

verus! {

/// A column selector: picks one column of the input batch by position.
#[derive(Clone, Copy, PartialEq, Eq, Structural, Debug)]
pub struct Selector {
    pub column_index: usize,
}

/// Whether evaluating the selector against the batch succeeds.
pub open spec fn eval_ok(sel: Selector, batch: DataBatch) -> bool {
    sel.column_index < batch.columns@.len()
}

/// The cells evaluation yields when it succeeds.
pub open spec fn eval_of(sel: Selector, batch: DataBatch) -> Seq<u64> {
    batch.columns@[sel.column_index as int]@
}

impl Selector {
    /// The selector for the column at the given position.
    pub fn new(column_index: usize) -> (r: Selector)
        ensures
            r.column_index == column_index,
    {
        Selector { column_index }
    }

    /// Evaluate the selector against a batch, yielding the selected column.
    /// Fails, as an evaluation error, exactly when the batch has no column at
    /// the selected position.
    pub fn evaluate(&self, batch: &DataBatch) -> (r: Result<Column, EngineError>)
        ensures
            r is Ok <==> eval_ok(*self, *batch),
            r matches Ok(c) ==> c@ == eval_of(*self, *batch),
            r is Err ==> r == Err::<Column, EngineError>(EngineError::Evaluation),
    {
        if self.column_index < batch.columns.len() {
            let values = batch.columns[self.column_index].values.clone();
            assert(values@ =~= eval_of(*self, *batch));
            Ok(Column { values })
        } else {
            Err(EngineError::Evaluation)
        }
    }
}

} // verus!
