//! Attribute kinds of the LLVM dialect.
use vstd::prelude::*;
use crate::builtin_attributes::register_attr_kind;
use crate::context::{AttrParser, Context, OpInterface, TypeParser, table_get};
use crate::dialect::{Dialect, DialectName, QualifiedId};

verus! {

/// Integer overflow flags for arithmetic operations: `nsw` and `nuw` state
/// that the operation does not overflow as a signed or unsigned operation.
/// Printed `llvm.integer_overlflow_flags none|nsw|nuw`.
#[derive(Debug, PartialEq, Eq, Clone, Copy, Structural)]
pub enum IntegerOverflowFlagsAttr {
    NoFlag,
    Nsw,
    Nuw,
}

/// The predicate of an integer comparison, printed
/// `llvm.icmp_predicate eq|ne|slt|sle|sgt|sge|ult|ule|ugt|uge`.
#[derive(Debug, PartialEq, Eq, Clone, Copy, Structural)]
pub enum ICmpPredicateAttr {
    EQ,
    NE,
    SLT,
    SLE,
    SGT,
    SGE,
    ULT,
    ULE,
    UGT,
    UGE,
}

/// One index of an address computation: a constant, or the position of an
/// operand of the operation. Printed `Constant(<n>)` or `OperandIdx(<n>)`.
#[derive(Debug, PartialEq, Eq, Clone, Copy, Structural)]
pub enum GepIndexAttr {
    Constant(u32),
    OperandIdx(usize),
}

/// The indices of an address computation, printed `llvm.gep_indices [i, ...]`.
#[derive(Debug, PartialEq, Eq, Clone)]
pub struct GepIndicesAttr(pub Vec<GepIndexAttr>);

/// Whether `(d, n)` is one of the LLVM attribute kinds that registration
/// gives a parse routine.
pub open spec fn is_llvm_attr_kind(d: Seq<char>, n: Seq<char>) -> bool {
    d == "llvm"@ && (n == "integer_overlflow_flags"@ || n == "icmp_predicate"@ || n == "gep_indices"@)
}

/// Whether no LLVM kind has a parse routine registered in `ctx` yet.
pub open(crate) spec fn llvm_unclaimed(ctx: Context) -> bool {
    &&& table_get(ctx.attr_parsers_view(), "llvm"@, "integer_overlflow_flags"@) is None
    &&& table_get(ctx.attr_parsers_view(), "llvm"@, "icmp_predicate"@) is None
    &&& table_get(ctx.attr_parsers_view(), "llvm"@, "gep_indices"@) is None
    &&& table_get(ctx.type_parsers_view(), "llvm"@, "ptr"@) is None
}

/// Whether the LLVM kinds are registered in `ctx` with this library's parse
/// routines.
pub open(crate) spec fn llvm_ready(ctx: Context) -> bool {
    &&& table_get(ctx.attr_parsers_view(), "llvm"@, "integer_overlflow_flags"@) == Some(AttrParser::IntegerOverflowFlags)
    &&& table_get(ctx.attr_parsers_view(), "llvm"@, "icmp_predicate"@) == Some(AttrParser::ICmpPredicate)
    &&& table_get(ctx.attr_parsers_view(), "llvm"@, "gep_indices"@) == Some(AttrParser::GepIndices)
    &&& table_get(ctx.type_parsers_view(), "llvm"@, "ptr"@) == Some(TypeParser::Pointer)
}

/// Registers the LLVM dialect in `ctx`: its attribute kinds (the overflow
/// flags, comparison predicates and address-computation indices, with their
/// parse routines), the pointer type kind, and the return operation as a
/// block terminator. What is registered already stays as it was, and
/// nothing else is touched.
pub fn register(ctx: &mut Context)
    requires
        old(ctx).wf(),
    ensures
        final(ctx).wf(),
        final(ctx).has_dialect("llvm"@),
        final(ctx).types_view() == old(ctx).types_view(),
        old(ctx).has_dialect("llvm"@) ==> final(ctx).dialects_view() == old(ctx).dialects_view(),
        !old(ctx).has_dialect("llvm"@) ==> final(ctx).dialects_view().len() == old(ctx).dialects_view().len() + 1
            && final(ctx).dialects_view().drop_last() == old(ctx).dialects_view()
            && final(ctx).dialects_view().last().name_view() == "llvm"@
            && final(ctx).dialects_view().last().ops_view().len() == 1
            && final(ctx).dialects_view().last().ops_view()[0].dialect@ == "llvm"@
            && final(ctx).dialects_view().last().ops_view()[0].name@ == "return"@,
        forall|d: Seq<char>, n: Seq<char>| !is_llvm_attr_kind(d, n)
            ==> #[trigger] table_get(final(ctx).attr_parsers_view(), d, n) == table_get(old(ctx).attr_parsers_view(), d, n),
        forall|d: Seq<char>, n: Seq<char>| !(d == "llvm"@ && n == "ptr"@)
            ==> #[trigger] table_get(final(ctx).type_parsers_view(), d, n) == table_get(old(ctx).type_parsers_view(), d, n),
        llvm_unclaimed(*old(ctx)) ==> llvm_ready(*final(ctx)),
        final(ctx).attr_interfaces_view() == old(ctx).attr_interfaces_view(),
        final(ctx).op_interfaces_view().len() == old(ctx).op_interfaces_view().len() + 1,
        final(ctx).op_interfaces_view().drop_last() == old(ctx).op_interfaces_view(),
        final(ctx).op_interfaces_view().last().0.dialect@ == "llvm"@,
        final(ctx).op_interfaces_view().last().0.name@ == "return"@,
        final(ctx).op_interfaces_view().last().1 == OpInterface::IsTerminator,
{
    proof {
        reveal_strlit("integer_overlflow_flags");
        reveal_strlit("icmp_predicate");
        reveal_strlit("gep_indices");
        assert("integer_overlflow_flags"@.len() == 23);
        assert("icmp_predicate"@.len() == 14);
        assert("gep_indices"@.len() == 11);
    }
    let ghost c0 = *ctx;
    let mut d = Dialect::new(DialectName::new("llvm"));
    register_attr_kind(ctx, &mut d, "llvm", "integer_overlflow_flags", AttrParser::IntegerOverflowFlags);
    let ghost c1 = *ctx;
    register_attr_kind(ctx, &mut d, "llvm", "icmp_predicate", AttrParser::ICmpPredicate);
    let ghost c2 = *ctx;
    register_attr_kind(ctx, &mut d, "llvm", "gep_indices", AttrParser::GepIndices);
    let ghost c3 = *ctx;
    proof {
        assert forall|dd: Seq<char>, nn: Seq<char>| !is_llvm_attr_kind(dd, nn)
            implies #[trigger] table_get(c3.attr_parsers_view(), dd, nn) == table_get(c0.attr_parsers_view(), dd, nn) by {
            assert(table_get(c3.attr_parsers_view(), dd, nn) == table_get(c2.attr_parsers_view(), dd, nn));
            assert(table_get(c2.attr_parsers_view(), dd, nn) == table_get(c1.attr_parsers_view(), dd, nn));
            assert(table_get(c1.attr_parsers_view(), dd, nn) == table_get(c0.attr_parsers_view(), dd, nn));
        }
    }
    d.add_type(QualifiedId::new("llvm", "ptr"));
    ctx.register_type_parser(QualifiedId::new("llvm", "ptr"), TypeParser::Pointer);
    let ghost ops0 = d.ops_view();
    crate::llvm_ops::register(ctx, &mut d);
    let ghost c4 = *ctx;
    let ghost dd = d;
    d.register(ctx);
    proof {
        assert(ops0.len() == 0);
        assert(dd.ops_view().len() == 1);
        if !c0.has_dialect("llvm"@) {
            assert(ctx.dialects_view().drop_last() =~= c0.dialects_view());
            assert(ctx.dialects_view().last() == dd);
        }
    }
}

} // verus!
