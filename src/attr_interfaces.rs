//! Verification of attributes, and the capabilities that attribute kinds
//! may offer.
use vstd::prelude::*;
use crate::attribute::AttrObj;
use crate::builtin_attributes::{IntegerAttr, IntegerAttrBitwidthErr, VecAttr};
use crate::context::{AttrInterface, Context};
use crate::dialect::{AttrId, QualifiedId};
use crate::location::Location;
use crate::printer::attr_kind;
use crate::result::{Error, ErrorCause, ErrorKind};
use crate::types::{TypeObj, TypePtr};

verus! {

/// Whether an integer attribute's declared type is an integer type of the
/// value's bit width.
pub open(crate) spec fn int_attr_ok(types: Seq<TypeObj>, i: IntegerAttr) -> bool {
    &&& i.ty.index < types.len()
    &&& types[i.ty.index as int] is Integer
    &&& types[i.ty.index as int]->Integer_0.width as nat == i.val.width_spec()
}

/// Whether an attribute verifies: every integer attribute in it, however
/// deeply held in sequences, has matching bit widths.
pub open(crate) spec fn attr_ok(types: Seq<TypeObj>, a: AttrObj) -> bool
    decreases a, 1nat,
{
    match a {
        AttrObj::Int(i) => int_attr_ok(types, i),
        AttrObj::List(v) => list_ok(types, v.0@),
        _ => true,
    }
}

/// Whether every attribute of a sequence verifies.
pub open(crate) spec fn list_ok(types: Seq<TypeObj>, s: Seq<AttrObj>) -> bool
    decreases s, 2nat,
{
    if s.len() == 0 {
        true
    } else {
        list_ok(types, s.drop_last()) && attr_ok(types, s.last())
    }
}

/// The error that verification reports for mismatched bit widths.
pub open spec fn is_bitwidth_error(e: Error) -> bool {
    &&& e.kind == ErrorKind::VerificationFailed
    &&& e.err == ErrorCause::IntegerAttrBitwidth(IntegerAttrBitwidthErr)
    &&& e.loc == Location::Unknown
}

fn bitwidth_error() -> (r: Error)
    ensures
        is_bitwidth_error(r),
{
    Error {
        kind: ErrorKind::VerificationFailed,
        err: ErrorCause::IntegerAttrBitwidth(IntegerAttrBitwidthErr),
        loc: Location::Unknown,
    }
}

impl IntegerAttr {
    /// Succeeds when the declared type is an integer type whose bit width is
    /// the value's; otherwise a bit-width mismatch error.
    pub fn verify(&self, ctx: &Context) -> (r: Result<(), Error>)
        ensures
            r is Ok <==> int_attr_ok(ctx.types_view(), *self),
            r matches Err(e) ==> is_bitwidth_error(e),
    {
        if self.ty.index < ctx.types.len() {
            match ctx.types[self.ty.index] {
                TypeObj::Integer(t) => {
                    if t.width == self.val.bw() {
                        return Ok(());
                    }
                },
                _ => {},
            }
        }
        Err(bitwidth_error())
    }
}

impl VecAttr {
    /// Succeeds when every element verifies; otherwise the first element's
    /// error.
    pub fn verify(&self, ctx: &Context) -> (r: Result<(), Error>)
        ensures
            r is Ok <==> list_ok(ctx.types_view(), self.0@),
            r matches Err(e) ==> is_bitwidth_error(e),
        decreases *self,
    {
        let mut i: usize = 0;
        while i < self.0.len()
            invariant
                i <= self.0@.len(),
                list_ok(ctx.types_view(), self.0@.subrange(0, i as int)),
            decreases self.0@.len() - i,
        {
            let ghost next = self.0@.subrange(0, i + 1);
            assert(next.drop_last() =~= self.0@.subrange(0, i as int));
            proof {
                vstd::std_specs::vec::axiom_vec_index_decreases(self.0, i as int);
                assert(decreases_to!(*self => self.0@[i as int]));
            }
            match self.0[i].verify(ctx) {
                Err(e) => {
                    proof {
                        if list_ok(ctx.types_view(), self.0@) {
                            lemma_list_ok_prefix(ctx.types_view(), self.0@, i as nat + 1);
                            assert(next.last() == self.0@[i as int]);
                        }
                    }
                    return Err(e);
                },
                Ok(()) => {},
            }
            i = i + 1;
        }
        assert(self.0@.subrange(0, self.0@.len() as int) =~= self.0@);
        Ok(())
    }
}

/// If a sequence verifies, so does each prefix.
pub proof fn lemma_list_ok_prefix(types: Seq<TypeObj>, s: Seq<AttrObj>, k: nat)
    requires
        k <= s.len(),
        list_ok(types, s),
    ensures
        list_ok(types, s.subrange(0, k as int)),
    decreases s.len() - k,
{
    if k < s.len() {
        lemma_list_ok_prefix(types, s, k + 1);
        assert(s.subrange(0, k + 1int).drop_last() =~= s.subrange(0, k as int));
    } else {
        assert(s.subrange(0, k as int) =~= s);
    }
}

impl AttrObj {
    /// Verifies this attribute: integer attributes must have matching bit
    /// widths, sequences verify their elements, other kinds always verify.
    pub fn verify(&self, ctx: &Context) -> (r: Result<(), Error>)
        ensures
            r is Ok <==> attr_ok(ctx.types_view(), *self),
            r matches Err(e) ==> is_bitwidth_error(e),
        decreases *self, 1nat,
    {
        match self {
            AttrObj::Int(i) => i.verify(ctx),
            AttrObj::List(v) => {
                proof {
                    assert(decreases_to!(*self => (*self)->List_0));
                }
                v.verify(ctx)
            },
            _ => Ok(()),
        }
    }

    /// The qualified identifier of this attribute's kind.
    pub fn get_attr_id(&self) -> (r: AttrId)
        ensures
            r.dialect@ == attr_kind(*self).0,
            r.name@ == attr_kind(*self).1,
    {
        match self {
            AttrObj::Ident(_) => QualifiedId::new("builtin", "identifier"),
            AttrObj::Str(_) => QualifiedId::new("builtin", "string"),
            AttrObj::Int(_) => QualifiedId::new("builtin", "integer"),
            AttrObj::Float(_) => QualifiedId::new("builtin", "float"),
            AttrObj::Dict(_) => QualifiedId::new("builtin", "dict"),
            AttrObj::List(_) => QualifiedId::new("builtin", "vec"),
            AttrObj::Unit(_) => QualifiedId::new("builtin", "unit"),
            AttrObj::Type(_) => QualifiedId::new("builtin", "type"),
            AttrObj::OverflowFlags(_) => QualifiedId::new("llvm", "integer_overlflow_flags"),
            AttrObj::ICmp(_) => QualifiedId::new("llvm", "icmp_predicate"),
            AttrObj::GepIndices(_) => QualifiedId::new("llvm", "gep_indices"),
        }
    }
}

/// Whether the kind `(d, n)` has registered capability `i`.
pub open(crate) spec fn offers(ctx: Context, d: Seq<char>, n: Seq<char>, i: AttrInterface) -> bool {
    exists|j: int|
        0 <= j < ctx.attr_interfaces_view().len() && (#[trigger] ctx.attr_interfaces_view()[j]).0.dialect@ == d
            && ctx.attr_interfaces_view()[j].0.name@ == n && ctx.attr_interfaces_view()[j].1 == i
}

/// The type that an attribute exposes through the typed capability, for
/// the kinds that implement it.
pub open(crate) spec fn typed_impl(a: AttrObj) -> Option<TypePtr> {
    match a {
        AttrObj::Int(i) => Some(i.ty),
        AttrObj::Type(t) => Some(t.0),
        _ => None,
    }
}

/// The typed capability of an attribute: the type it exposes, if its kind
/// registered the capability and implements it; none otherwise, which is
/// no error.
pub open(crate) spec fn typed_cast(ctx: Context, a: AttrObj) -> Option<TypePtr> {
    if offers(ctx, attr_kind(a).0, attr_kind(a).1, AttrInterface::Typed) {
        typed_impl(a)
    } else {
        None
    }
}

/// Whether the kind of `a` has registered capability `i`.
pub fn attr_offers(ctx: &Context, a: &AttrObj, i: AttrInterface) -> (r: bool)
    ensures
        r == offers(*ctx, attr_kind(*a).0, attr_kind(*a).1, i),
{
    let id = a.get_attr_id();
    let mut j: usize = 0;
    while j < ctx.attr_interfaces.len()
        invariant
            j <= ctx.attr_interfaces@.len(),
            id.dialect@ == attr_kind(*a).0,
            id.name@ == attr_kind(*a).1,
            forall|k: int| 0 <= k < j ==> !((#[trigger] ctx.attr_interfaces@[k]).0.dialect@ == attr_kind(*a).0
                && ctx.attr_interfaces@[k].0.name@ == attr_kind(*a).1 && ctx.attr_interfaces@[k].1 == i),
        decreases ctx.attr_interfaces@.len() - j,
    {
        if ctx.attr_interfaces[j].0.same(&id) && ctx.attr_interfaces[j].1 == i {
            assert(ctx.attr_interfaces_view()[j as int] == ctx.attr_interfaces@[j as int]);
            return true;
        }
        j = j + 1;
    }
    false
}

/// Casts an attribute to the typed capability: the type it exposes, or
/// `None` when its kind does not offer the capability.
pub fn attr_cast_typed(ctx: &Context, a: &AttrObj) -> (r: Option<TypePtr>)
    ensures
        r == typed_cast(*ctx, *a),
{
    if !attr_offers(ctx, a, AttrInterface::Typed) {
        return None;
    }
    match a {
        AttrObj::Int(i) => Some(i.ty),
        AttrObj::Type(t) => Some(t.0),
        _ => None,
    }
}

} // verus!
