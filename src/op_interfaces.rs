//! Capabilities of operations, and the checks that go with them. A
//! capability's check covers that capability alone: an operation kind that
//! offers several runs each check itself.
use vstd::prelude::*;
use crate::attribute::AttrObj;
use crate::context::{Context, OpInterface};
use crate::dialect::OpId;
use crate::identifier::Identifier;
use crate::llvm_attributes::IntegerOverflowFlagsAttr;
use crate::location::Location;
use crate::operation::{Operation, Value};
use crate::result::{Error, ErrorCause, ErrorKind};
use crate::types::{Signedness, TypeObj, TypePtr};

verus! {

/// A binary arithmetic operation lacks two operands or one result.
#[derive(Debug, PartialEq, Eq, Clone, Copy)]
pub struct BinArithOpErr;

/// An integer binary arithmetic operation's type is not a signless integer.
#[derive(Debug, PartialEq, Eq, Clone, Copy)]
pub struct IntBinArithOpErr;

/// An operation that needs overflow flags has none.
#[derive(Debug, PartialEq, Eq, Clone, Copy)]
pub struct IntBinArithOpWithOverflowFlagErr;

/// An operation's result is not of a pointer type.
#[derive(Debug, PartialEq, Eq, Clone, Copy)]
pub struct PointerTypeResultVerifyErr;

/// Whether operation kind `(d, n)` has registered capability `i` in `ctx`.
pub open(crate) spec fn op_offers_spec(ctx: Context, d: Seq<char>, n: Seq<char>, i: OpInterface) -> bool {
    exists|j: int|
        0 <= j < ctx.op_interfaces_view().len() && (#[trigger] ctx.op_interfaces_view()[j]).0.dialect@ == d
            && ctx.op_interfaces_view()[j].0.name@ == n && ctx.op_interfaces_view()[j].1 == i
}

/// Whether the kind of `op` has registered capability `i`: the query that
/// lets generic code treat operations of any dialect by what they offer.
pub fn op_offers(ctx: &Context, op: &Operation, i: OpInterface) -> (r: bool)
    ensures
        r == op_offers_spec(*ctx, op.opid.dialect@, op.opid.name@, i),
{
    let mut j: usize = 0;
    while j < ctx.op_interfaces.len()
        invariant
            j <= ctx.op_interfaces@.len(),
            forall|k: int| 0 <= k < j ==> !((#[trigger] ctx.op_interfaces@[k]).0.dialect@ == op.opid.dialect@
                && ctx.op_interfaces@[k].0.name@ == op.opid.name@ && ctx.op_interfaces@[k].1 == i),
        decreases ctx.op_interfaces@.len() - j,
    {
        if ctx.op_interfaces[j].0.same(&op.opid) && ctx.op_interfaces[j].1 == i {
            assert(ctx.op_interfaces_view()[j as int] == ctx.op_interfaces@[j as int]);
            return true;
        }
        j = j + 1;
    }
    false
}

/// Whether `e` is a verification failure with cause `c`, located at `loc`.
pub open spec fn verify_error_is(e: Error, c: ErrorCause, loc: Location) -> bool {
    e.kind == ErrorKind::VerificationFailed && e.err == c && e.loc == loc
}

/// The capability of binary arithmetic: two operands, one result of the
/// operands' type.
pub struct BinArithOp;

impl BinArithOp {
    /// A new operation of kind `opid` on `lhs` and `rhs`, whose one result
    /// has the type of `lhs`.
    pub fn new(opid: OpId, lhs: Value, rhs: Value) -> (r: Operation)
        ensures
            r.opid == opid,
            r.results@ == seq![lhs.ty()],
            r.operands@ == seq![lhs, rhs],
            r.attributes@ == Map::<Seq<char>, AttrObj>::empty(),
            r.attributes.wf(),
            r.loc == Location::Unknown,
    {
        let mut results: Vec<TypePtr> = Vec::new();
        results.push(lhs.get_type());
        let mut operands: Vec<Value> = Vec::new();
        operands.push(lhs);
        operands.push(rhs);
        assert(results@ =~= seq![lhs.ty()]);
        assert(operands@ =~= seq![lhs, rhs]);
        Operation::new(opid, results, operands)
    }

    /// Succeeds when `op` has exactly one result and two operands.
    pub fn verify(op: &Operation) -> (r: Result<(), Error>)
        ensures
            r is Ok <==> (op.results@.len() == 1 && op.operands@.len() == 2),
            r matches Err(e) ==> verify_error_is(e, ErrorCause::BinArithOp(BinArithOpErr), op.loc),
    {
        if op.get_num_results() != 1 || op.get_num_operands() != 2 {
            return Err(Error {
                kind: ErrorKind::VerificationFailed,
                err: ErrorCause::BinArithOp(BinArithOpErr),
                loc: op.loc(),
            });
        }
        Ok(())
    }
}

/// Whether `p` denotes a signless integer type.
pub open spec fn is_signless_int(ctx: Context, p: TypePtr) -> bool {
    &&& ctx.valid_type(p)
    &&& ctx.type_at(p) is Integer
    &&& ctx.type_at(p)->Integer_0.signedness == Signedness::Signless
}

/// The capability of integer binary arithmetic: operands and result of one
/// signless integer type.
pub struct IntBinArithOp;

impl IntBinArithOp {
    /// Succeeds when the operation's type (that of its first result) is a
    /// signless integer type.
    pub fn verify(op: &Operation, ctx: &Context) -> (r: Result<(), Error>)
        ensures
            r is Ok <==> (op.results@.len() > 0 && is_signless_int(*ctx, op.results@[0])),
            r matches Err(e) ==> verify_error_is(e, ErrorCause::IntBinArithOp(IntBinArithOpErr), op.loc),
    {
        if op.results.len() > 0 {
            let ty = op.results[0];
            if ty.index < ctx.types.len() {
                match ctx.get_type(ty) {
                    TypeObj::Integer(t) => {
                        if t.signedness == Signedness::Signless {
                            return Ok(());
                        }
                    },
                    _ => {},
                }
            }
        }
        Err(Error {
            kind: ErrorKind::VerificationFailed,
            err: ErrorCause::IntBinArithOp(IntBinArithOpErr),
            loc: op.loc(),
        })
    }
}

/// The attribute key under which an operation holds its overflow flags.
/// Attribute keys are identifiers, which cannot hold a dot, so the key is
/// `llvm_integer_overflow_flags` rather than `llvm.integer_overflow_flags`.
pub open spec fn overflow_flags_key() -> Seq<char> {
    "llvm_integer_overflow_flags"@
}

/// The identifier of the attribute key for overflow flags.
pub fn overflow_flags_key_id() -> (r: Identifier)
    ensures
        r@ == overflow_flags_key(),
{
    proof {
        reveal_strlit("llvm_integer_overflow_flags");
    }
    let k = crate::text::chars_of("llvm_integer_overflow_flags");
    Identifier::from_chars(k)
}

/// Whether an operation holds overflow flags under their key.
pub open spec fn has_overflow_flags(op: Operation) -> bool {
    op.attributes@.contains_key(overflow_flags_key()) && op.attributes@[overflow_flags_key()] is OverflowFlags
}

/// The capability of integer binary arithmetic with overflow flags.
pub struct IntBinArithOpWithOverflowFlag;

impl IntBinArithOpWithOverflowFlag {
    /// The overflow flags of `op`, which must hold them.
    pub fn integer_overflow_flag(op: &Operation) -> (r: IntegerOverflowFlagsAttr)
        requires
            op.attributes.wf(),
            has_overflow_flags(*op),
        ensures
            op.attributes@[overflow_flags_key()] == AttrObj::OverflowFlags(r),
    {
        let k = overflow_flags_key_id();
        match op.attributes.get(&k) {
            Some(AttrObj::OverflowFlags(f)) => *f,
            _ => {
                proof {
                    assert(false);
                }
                IntegerOverflowFlagsAttr::NoFlag
            },
        }
    }

    /// Sets the overflow flags of `op` to `flag`.
    pub fn set_integer_overflow_flag(op: &mut Operation, flag: IntegerOverflowFlagsAttr)
        requires
            old(op).attributes.wf(),
        ensures
            final(op).attributes.wf(),
            final(op).attributes@ == old(op).attributes@.insert(overflow_flags_key(), AttrObj::OverflowFlags(flag)),
            final(op).opid == old(op).opid,
            final(op).results == old(op).results,
            final(op).operands == old(op).operands,
            final(op).loc == old(op).loc,
    {
        let k = overflow_flags_key_id();
        op.attributes.insert(k, AttrObj::OverflowFlags(flag));
    }

    /// Succeeds when `op` holds overflow flags under their key.
    pub fn verify(op: &Operation) -> (r: Result<(), Error>)
        requires
            op.attributes.wf(),
        ensures
            r is Ok <==> has_overflow_flags(*op),
            r matches Err(e) ==> verify_error_is(
                e,
                ErrorCause::IntBinArithOpWithOverflowFlag(IntBinArithOpWithOverflowFlagErr),
                op.loc,
            ),
    {
        let k = overflow_flags_key_id();
        match op.attributes.get(&k) {
            Some(AttrObj::OverflowFlags(_)) => Ok(()),
            _ => Err(Error {
                kind: ErrorKind::VerificationFailed,
                err: ErrorCause::IntBinArithOpWithOverflowFlag(IntBinArithOpWithOverflowFlagErr),
                loc: op.loc(),
            }),
        }
    }
}

/// Whether `p` denotes a pointer type.
pub open spec fn is_pointer(ctx: Context, p: TypePtr) -> bool {
    ctx.valid_type(p) && ctx.type_at(p) is Pointer
}

/// The capability of an operation whose one result is a pointer.
pub struct PointerTypeResult;

impl PointerTypeResult {
    /// The type that the result of `op` points to; `op` must have one result,
    /// of a pointer type.
    pub fn result_pointee_type(op: &Operation, ctx: &Context) -> (r: TypePtr)
        requires
            op.results@.len() == 1,
            is_pointer(*ctx, op.results@[0]),
        ensures
            r == ctx.type_at(op.results@[0])->Pointer_0.pointee,
    {
        match ctx.get_type(op.results[0]) {
            TypeObj::Pointer(p) => p.get_pointee_type(),
            _ => {
                proof {
                    assert(false);
                }
                op.results[0]
            },
        }
    }

    /// Succeeds when `op` has one result and it is of a pointer type.
    pub fn verify(op: &Operation, ctx: &Context) -> (r: Result<(), Error>)
        ensures
            r is Ok <==> (op.results@.len() == 1 && is_pointer(*ctx, op.results@[0])),
            r matches Err(e) ==> verify_error_is(
                e,
                ErrorCause::PointerTypeResultVerify(PointerTypeResultVerifyErr),
                op.loc,
            ),
    {
        if op.results.len() == 1 && op.results[0].index < ctx.types.len() {
            match ctx.get_type(op.results[0]) {
                TypeObj::Pointer(_) => {
                    return Ok(());
                },
                _ => {},
            }
        }
        Err(Error {
            kind: ErrorKind::VerificationFailed,
            err: ErrorCause::PointerTypeResultVerify(PointerTypeResultVerifyErr),
            loc: op.loc(),
        })
    }
}

} // verus!
