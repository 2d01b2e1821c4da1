//! Operations: a kind, operands, result types, attributes and a location.
use vstd::prelude::*;
use crate::attribute::AttributeDict;
use crate::dialect::OpId;
use crate::location::Location;
use crate::types::TypePtr;

verus! {

/// A value that an operation uses: a result of another operation, or an
/// argument that comes from outside; either way, of a known type.
#[derive(Debug, PartialEq, Eq, Clone, Copy, Structural)]
pub enum Value {
    OpResult { op: usize, index: usize, ty: TypePtr },
    Argument { index: usize, ty: TypePtr },
}

impl Value {
    /// The type of this value.
    pub open spec fn ty(self) -> TypePtr {
        match self {
            Value::OpResult { ty, .. } => ty,
            Value::Argument { ty, .. } => ty,
        }
    }

    /// The type of this value.
    pub fn get_type(&self) -> (r: TypePtr)
        ensures
            r == self.ty(),
    {
        match self {
            Value::OpResult { ty, .. } => *ty,
            Value::Argument { ty, .. } => *ty,
        }
    }
}

/// An operation of some kind, with its operands, the types of its results,
/// its attributes and where it comes from.
#[derive(Debug)]
pub struct Operation {
    pub opid: OpId,
    pub results: Vec<TypePtr>,
    pub operands: Vec<Value>,
    pub attributes: AttributeDict,
    pub loc: Location,
}

impl Operation {
    /// A new operation with no attributes and no known location.
    pub fn new(opid: OpId, results: Vec<TypePtr>, operands: Vec<Value>) -> (r: Operation)
        ensures
            r.opid == opid,
            r.results@ == results@,
            r.operands@ == operands@,
            r.attributes@ == Map::<Seq<char>, crate::attribute::AttrObj>::empty(),
            r.attributes.wf(),
            r.loc == Location::Unknown,
    {
        Operation { opid, results, operands, attributes: AttributeDict::new(), loc: Location::Unknown }
    }

    /// The number of results.
    pub fn get_num_results(&self) -> (r: usize)
        ensures
            r == self.results@.len(),
    {
        self.results.len()
    }

    /// The number of operands.
    pub fn get_num_operands(&self) -> (r: usize)
        ensures
            r == self.operands@.len(),
    {
        self.operands.len()
    }

    /// Where this operation comes from.
    pub fn loc(&self) -> (r: Location)
        ensures
            r == self.loc,
    {
        self.loc.clone()
    }
}

} // verus!
