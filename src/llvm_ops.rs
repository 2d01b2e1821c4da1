//! Operations of the LLVM dialect.
use vstd::prelude::*;
use crate::context::{Context, OpInterface};
use crate::dialect::{Dialect, OpId, QualifiedId};
use crate::operation::{Operation, Value};
use crate::result::Error;
use crate::text::{decimal, push_decimal, push_str, string_of};
use crate::types::TypePtr;

verus! {

/// How a value is printed: `%op<n>_<i>` for result `i` of operation `n`,
/// `%arg<i>` for argument `i`.
pub open spec fn value_text(v: Value) -> Seq<char> {
    match v {
        Value::OpResult { op, index, .. } => "%op"@ + decimal(op as nat) + "_"@ + decimal(index as nat),
        Value::Argument { index, .. } => "%arg"@ + decimal(index as nat),
    }
}

/// Appends the printed form of `v`.
pub fn render_value(v: &Value, out: &mut Vec<char>)
    ensures
        final(out)@ == old(out)@ + value_text(*v),
{
    match v {
        Value::OpResult { op, index, .. } => {
            push_str(out, "%op");
            push_decimal(out, *op as u64);
            push_str(out, "_");
            push_decimal(out, *index as u64);
        },
        Value::Argument { index, .. } => {
            push_str(out, "%arg");
            push_decimal(out, *index as u64);
        },
    }
    assert(final(out)@ =~= old(out)@ + value_text(*v));
}

/// The return operation: it ends a block and hands back one value.
#[derive(Debug)]
pub struct ReturnOp {
    pub(crate) op: Operation,
}

impl ReturnOp {
    /// The operation that this return is.
    pub open(crate) spec fn operation_spec(&self) -> Operation {
        self.op
    }

    /// The identifier `llvm.return`.
    pub fn get_opid_static() -> (r: OpId)
        ensures
            r.dialect@ == "llvm"@,
            r.name@ == "return"@,
    {
        QualifiedId::new("llvm", "return")
    }

    /// A return of `value`, not yet placed in a block.
    pub fn new_unlinked(value: Value) -> (r: ReturnOp)
        ensures
            r.operation_spec().opid.dialect@ == "llvm"@,
            r.operation_spec().opid.name@ == "return"@,
            r.operation_spec().results@ == Seq::<TypePtr>::empty(),
            r.operation_spec().operands@ == seq![value],
            r.operation_spec().attributes.wf(),
    {
        let mut operands: Vec<Value> = Vec::new();
        operands.push(value);
        assert(operands@ =~= seq![value]);
        ReturnOp { op: Operation::new(Self::get_opid_static(), Vec::new(), operands) }
    }

    /// The operation that this return is.
    pub fn get_operation(&self) -> (r: &Operation)
        ensures
            *r == self.operation_spec(),
    {
        &self.op
    }

    /// The printed form: `llvm.return` and the returned value.
    pub fn disp(&self) -> (r: String)
        requires
            self.operation_spec().operands@.len() >= 1,
        ensures
            r@ == crate::dialect::qualified_text(self.operation_spec().opid.dialect@, self.operation_spec().opid.name@)
                + " "@ + value_text(self.operation_spec().operands@[0]),
    {
        let mut out: Vec<char> = Vec::new();
        self.op.opid.render_into(&mut out);
        push_str(&mut out, " ");
        render_value(&self.op.operands[0], &mut out);
        string_of(&out)
    }

    /// A return is always well formed.
    pub fn verify(&self, ctx: &Context) -> (r: Result<(), Error>)
        ensures
            r is Ok,
    {
        Ok(())
    }
}

/// Registers the LLVM operations in `dialect`, and their capabilities in
/// `ctx`: the return operation ends a block.
pub fn register(ctx: &mut Context, dialect: &mut Dialect)
    requires
        old(ctx).wf(),
        old(dialect).name_view() == "llvm"@,
    ensures
        final(ctx).wf(),
        final(dialect).name_view() == "llvm"@,
        final(dialect).ops_view().len() == old(dialect).ops_view().len() + 1,
        final(dialect).ops_view().drop_last() == old(dialect).ops_view(),
        final(dialect).ops_view().last().dialect@ == "llvm"@,
        final(dialect).ops_view().last().name@ == "return"@,
        final(dialect).types_view() == old(dialect).types_view(),
        final(dialect).attrs_view() == old(dialect).attrs_view(),
        final(ctx).op_interfaces_view().len() == old(ctx).op_interfaces_view().len() + 1,
        final(ctx).op_interfaces_view().drop_last() == old(ctx).op_interfaces_view(),
        final(ctx).op_interfaces_view().last().0.dialect@ == "llvm"@,
        final(ctx).op_interfaces_view().last().0.name@ == "return"@,
        final(ctx).op_interfaces_view().last().1 == OpInterface::IsTerminator,
        final(ctx).types_view() == old(ctx).types_view(),
        final(ctx).dialects_view() == old(ctx).dialects_view(),
        final(ctx).attr_parsers_view() == old(ctx).attr_parsers_view(),
        final(ctx).type_parsers_view() == old(ctx).type_parsers_view(),
        final(ctx).attr_interfaces_view() == old(ctx).attr_interfaces_view(),
{
    dialect.add_op(ReturnOp::get_opid_static());
    ctx.register_op_interface(ReturnOp::get_opid_static(), OpInterface::IsTerminator);
    assert(dialect.ops_view().drop_last() =~= old(dialect).ops_view());
    assert(ctx.op_interfaces_view().drop_last() =~= old(ctx).op_interfaces_view());
}

} // verus!
