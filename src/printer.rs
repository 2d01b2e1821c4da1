//! The textual form of types and attributes: `dialect.name` followed by the
//! kind's own payload.
use vstd::prelude::*;
use crate::apint::bits_text;
use crate::attribute::AttrObj;

use crate::context::Context;
use crate::identifier::Identifier;
use crate::llvm_attributes::{GepIndexAttr, ICmpPredicateAttr, IntegerOverflowFlagsAttr};
use crate::text::{decimal, push_chars, push_decimal, push_str, chars_of, string_of};
use crate::types::{IntegerType, Signedness, TypeObj, TypePtr};

verus! {

/// The payload of an integer type: `si`, `ui` or `i`, then the width.
pub open(crate) spec fn int_type_text(t: IntegerType) -> Seq<char> {
    signedness_text(t.signedness) + decimal(t.width as nat)
}

/// The prefix that gives an integer type's signedness.
pub open(crate) spec fn signedness_text(s: Signedness) -> Seq<char> {
    match s {
        Signedness::Signed => "si"@,
        Signedness::Unsigned => "ui"@,
        Signedness::Signless => "i"@,
    }
}

/// The printed form of the type that `p` denotes among `types`.
pub open(crate) spec fn type_text(types: Seq<TypeObj>, p: TypePtr) -> Seq<char>
    decreases p.index,
{
    if p.index >= types.len() {
        "<invalid type>"@
    } else {
        match types[p.index as int] {
            TypeObj::Integer(t) => "builtin.integer "@ + int_type_text(t),
            TypeObj::Pointer(q) => if q.pointee.index < p.index {
                "llvm.ptr <"@ + type_text(types, q.pointee) + ">"@
            } else {
                "<invalid type>"@
            },
        }
    }
}

/// One character of a string literal's body.
pub open(crate) spec fn escape_char(c: char) -> Seq<char> {
    if c == '\\' {
        "\\\\"@
    } else if c == '"' {
        "\\\""@
    } else {
        seq![c]
    }
}

/// The body of a string literal: `\` and `"` preceded by a backslash.
pub open(crate) spec fn escape(s: Seq<char>) -> Seq<char>
    decreases s.len(),
{
    if s.len() == 0 {
        Seq::empty()
    } else {
        escape(s.drop_last()) + escape_char(s.last())
    }
}

/// A string literal: the escaped text between double quotes.
pub open(crate) spec fn quoted(s: Seq<char>) -> Seq<char> {
    "\""@ + escape(s) + "\""@
}

/// The printed payload of the overflow flags.
pub open(crate) spec fn flags_text(f: IntegerOverflowFlagsAttr) -> Seq<char> {
    match f {
        IntegerOverflowFlagsAttr::NoFlag => "none"@,
        IntegerOverflowFlagsAttr::Nsw => "nsw"@,
        IntegerOverflowFlagsAttr::Nuw => "nuw"@,
    }
}

/// The printed payload of a comparison predicate.
pub open(crate) spec fn icmp_text(p: ICmpPredicateAttr) -> Seq<char> {
    match p {
        ICmpPredicateAttr::EQ => "eq"@,
        ICmpPredicateAttr::NE => "ne"@,
        ICmpPredicateAttr::SLT => "slt"@,
        ICmpPredicateAttr::SLE => "sle"@,
        ICmpPredicateAttr::SGT => "sgt"@,
        ICmpPredicateAttr::SGE => "sge"@,
        ICmpPredicateAttr::ULT => "ult"@,
        ICmpPredicateAttr::ULE => "ule"@,
        ICmpPredicateAttr::UGT => "ugt"@,
        ICmpPredicateAttr::UGE => "uge"@,
    }
}

/// The printed form of one address-computation index.
pub open(crate) spec fn gep_index_text(g: GepIndexAttr) -> Seq<char> {
    match g {
        GepIndexAttr::Constant(n) => "Constant("@ + decimal(n as nat) + ")"@,
        GepIndexAttr::OperandIdx(n) => "OperandIdx("@ + decimal(n as nat) + ")"@,
    }
}

/// Address-computation indices, separated by `, `.
pub open(crate) spec fn gep_list_text(s: Seq<GepIndexAttr>) -> Seq<char>
    decreases s.len(),
{
    if s.len() == 0 {
        Seq::empty()
    } else if s.len() == 1 {
        gep_index_text(s[0])
    } else {
        gep_list_text(s.drop_last()) + ", "@ + gep_index_text(s.last())
    }
}

/// The qualified identifier of an attribute's kind, as (dialect, name).
pub open(crate) spec fn attr_kind(a: AttrObj) -> (Seq<char>, Seq<char>) {
    match a {
        AttrObj::Ident(_) => ("builtin"@, "identifier"@),
        AttrObj::Str(_) => ("builtin"@, "string"@),
        AttrObj::Int(_) => ("builtin"@, "integer"@),
        AttrObj::Float(_) => ("builtin"@, "float"@),
        AttrObj::Dict(_) => ("builtin"@, "dict"@),
        AttrObj::List(_) => ("builtin"@, "vec"@),
        AttrObj::Unit(_) => ("builtin"@, "unit"@),
        AttrObj::Type(_) => ("builtin"@, "type"@),
        AttrObj::OverflowFlags(_) => ("llvm"@, "integer_overlflow_flags"@),
        AttrObj::ICmp(_) => ("llvm"@, "icmp_predicate"@),
        AttrObj::GepIndices(_) => ("llvm"@, "gep_indices"@),
    }
}

/// The payload of an integer attribute: `<value: type>`, the value read as
/// signed when the type is signed.
pub open(crate) spec fn int_payload(types: Seq<TypeObj>, ty: TypePtr, bits: nat, bw: nat) -> Seq<char> {
    if ty.index < types.len() && types[ty.index as int] is Integer {
        let t = types[ty.index as int]->Integer_0;
        "<"@ + bits_text(bits, bw, t.signedness == Signedness::Signed) + ": "@ + int_type_text(t) + ">"@
    } else {
        "<"@ + bits_text(bits, bw, false) + ": "@ + type_text(types, ty) + ">"@
    }
}

/// The printed payload of an attribute.
pub open(crate) spec fn attr_payload(types: Seq<TypeObj>, a: AttrObj) -> Seq<char>
    decreases a, 0nat,
{
    match a {
        AttrObj::Ident(i) => i.0@,
        AttrObj::Str(s) => quoted(s.0@),
        AttrObj::Int(i) => int_payload(types, i.ty, i.val.bits_spec(), i.val.width_spec()),
        AttrObj::Float(_) => "<unimplemented>"@,
        AttrObj::Dict(d) => "{"@ + dict_text(types, d.0.entries@) + "}"@,
        AttrObj::List(v) => "["@ + list_text(types, v.0@) + "]"@,
        AttrObj::Unit(_) => Seq::empty(),
        AttrObj::Type(t) => type_text(types, t.0),
        AttrObj::OverflowFlags(f) => flags_text(f),
        AttrObj::ICmp(p) => icmp_text(p),
        AttrObj::GepIndices(g) => "["@ + gep_list_text(g.0@) + "]"@,
    }
}

/// The printed form of an attribute: its kind's identifier, then a space
/// and its payload, if it has one.
pub open(crate) spec fn attr_text(types: Seq<TypeObj>, a: AttrObj) -> Seq<char>
    decreases a, 1nat,
{
    let k = attr_kind(a);
    let id = k.0 + "."@ + k.1;
    if a is Unit {
        id
    } else {
        id + " "@ + attr_payload(types, a)
    }
}

/// Attributes, separated by `, `.
pub open(crate) spec fn list_text(types: Seq<TypeObj>, s: Seq<AttrObj>) -> Seq<char>
    decreases s, 2nat,
{
    if s.len() == 0 {
        Seq::empty()
    } else if s.len() == 1 {
        attr_text(types, s[0])
    } else {
        list_text(types, s.drop_last()) + ", "@ + attr_text(types, s.last())
    }
}

/// Dictionary entries `key: attr`, separated by `, `.
pub open(crate) spec fn dict_text(types: Seq<TypeObj>, s: Seq<(Identifier, AttrObj)>) -> Seq<char>
    decreases s, 2nat,
{
    if s.len() == 0 {
        Seq::empty()
    } else if s.len() == 1 {
        s[0].0@ + ": "@ + attr_text(types, s[0].1)
    } else {
        dict_text(types, s.drop_last()) + ", "@ + s.last().0@ + ": "@ + attr_text(types, s.last().1)
    }
}

/// Appends the payload of an integer type.
pub fn render_int_type(t: IntegerType, out: &mut Vec<char>)
    ensures
        final(out)@ == old(out)@ + int_type_text(t),
{
    match t.signedness {
        Signedness::Signed => push_str(out, "si"),
        Signedness::Unsigned => push_str(out, "ui"),
        Signedness::Signless => push_str(out, "i"),
    }
    push_decimal(out, t.width as u64);
    assert(final(out)@ =~= old(out)@ + int_type_text(t));
}

/// Appends the printed form of the type that `p` denotes.
pub fn render_type(ctx: &Context, p: TypePtr, out: &mut Vec<char>)
    ensures
        final(out)@ == old(out)@ + type_text(ctx.types_view(), p),
    decreases p.index,
{
    if p.index >= ctx.types.len() {
        push_str(out, "<invalid type>");
        return;
    }
    match ctx.types[p.index] {
        TypeObj::Integer(t) => {
            push_str(out, "builtin.integer ");
            render_int_type(t, out);
        },
        TypeObj::Pointer(q) => {
            if q.pointee.index < p.index {
                push_str(out, "llvm.ptr <");
                render_type(ctx, q.pointee, out);
                push_str(out, ">");
            } else {
                push_str(out, "<invalid type>");
            }
        },
    }
    assert(final(out)@ =~= old(out)@ + type_text(ctx.types_view(), p));
}

/// Appends a string literal for `s`.
pub fn render_quoted(s: &Vec<char>, out: &mut Vec<char>)
    ensures
        final(out)@ == old(out)@ + quoted(s@),
{
    push_str(out, "\"");
    let ghost start = out@;
    let mut i: usize = 0;
    while i < s.len()
        invariant
            i <= s@.len(),
            out@ == start + escape(s@.subrange(0, i as int)),
        decreases s@.len() - i,
    {
        let c = s[i];
        if c == '\\' {
            push_str(out, "\\\\");
        } else if c == '"' {
            push_str(out, "\\\"");
        } else {
            out.push(c);
        }
        assert(s@.subrange(0, i + 1).drop_last() =~= s@.subrange(0, i as int));
        i = i + 1;
        assert(out@ =~= start + escape(s@.subrange(0, i as int)));
    }
    assert(s@.subrange(0, s@.len() as int) =~= s@);
    push_str(out, "\"");
    assert(final(out)@ =~= old(out)@ + quoted(s@));
}

/// Appends the printed form of one address-computation index.
pub fn render_gep_index(g: GepIndexAttr, out: &mut Vec<char>)
    ensures
        final(out)@ == old(out)@ + gep_index_text(g),
{
    match g {
        GepIndexAttr::Constant(n) => {
            push_str(out, "Constant(");
            push_decimal(out, n as u64);
        },
        GepIndexAttr::OperandIdx(n) => {
            push_str(out, "OperandIdx(");
            push_decimal(out, n as u64);
        },
    }
    push_str(out, ")");
    assert(final(out)@ =~= old(out)@ + gep_index_text(g));
}

/// Appends the payload of an integer attribute.
fn render_int_payload(ctx: &Context, ty: TypePtr, val: &crate::apint::APInt, out: &mut Vec<char>)
    ensures
        final(out)@ == old(out)@ + int_payload(ctx.types_view(), ty, val.bits_spec(), val.width_spec()),
{
    push_str(out, "<");
    if ty.index < ctx.types.len() {
        match ctx.types[ty.index] {
            TypeObj::Integer(t) => {
                val.render_into(out, t.signedness == Signedness::Signed);
                push_str(out, ": ");
                render_int_type(t, out);
                push_str(out, ">");
                assert(final(out)@ =~= old(out)@ + int_payload(ctx.types_view(), ty, val.bits_spec(), val.width_spec()));
                return;
            },
            _ => {},
        }
    }
    val.render_into(out, false);
    push_str(out, ": ");
    render_type(ctx, ty, out);
    push_str(out, ">");
    assert(final(out)@ =~= old(out)@ + int_payload(ctx.types_view(), ty, val.bits_spec(), val.width_spec()));
}

/// Appends the printed payload of `a`.
pub fn render_payload(ctx: &Context, a: &AttrObj, out: &mut Vec<char>)
    ensures
        final(out)@ == old(out)@ + attr_payload(ctx.types_view(), *a),
    decreases *a, 0nat,
{
    match a {
        AttrObj::Ident(i) => push_chars(out, i.0.as_chars()),
        AttrObj::Str(s) => render_quoted(&chars_of(s.0.as_str()), out),
        AttrObj::Int(i) => render_int_payload(ctx, i.ty, &i.val, out),
        AttrObj::Float(_) => push_str(out, "<unimplemented>"),
        AttrObj::Dict(d) => {
            push_str(out, "{");
            let es = &d.0.entries;
            let ghost start = out@;
            let mut i: usize = 0;
            while i < es.len()
                invariant
                    *a == AttrObj::Dict(*d),
                    i <= es@.len(),
                    es@ == d.0.entries@,
                    out@ == start + dict_text(ctx.types_view(), es@.subrange(0, i as int)),
                decreases es@.len() - i,
            {
                let ghost pre = es@.subrange(0, i as int);
                let ghost next = es@.subrange(0, i + 1);
                assert(next.drop_last() =~= pre);
                if i > 0 {
                    push_str(out, ", ");
                }
                push_chars(out, es[i].0.as_chars());
                push_str(out, ": ");
                proof {
                    vstd::std_specs::vec::axiom_vec_index_decreases(d.0.entries, i as int);
                    assert(decreases_to!(*a => (*a)->Dict_0.0.entries@[i as int].1));
                }
                render_attr(ctx, &es[i].1, out);
                i = i + 1;
                assert(out@ =~= start + dict_text(ctx.types_view(), next));
            }
            assert(es@.subrange(0, es@.len() as int) =~= es@);
            push_str(out, "}");
        },
        AttrObj::List(v) => {
            push_str(out, "[");
            let ghost start = out@;
            let mut i: usize = 0;
            while i < v.0.len()
                invariant
                    *a == AttrObj::List(*v),
                    i <= v.0@.len(),
                    out@ == start + list_text(ctx.types_view(), v.0@.subrange(0, i as int)),
                decreases v.0@.len() - i,
            {
                let ghost pre = v.0@.subrange(0, i as int);
                let ghost next = v.0@.subrange(0, i + 1);
                assert(next.drop_last() =~= pre);
                if i > 0 {
                    push_str(out, ", ");
                }
                proof {
                    vstd::std_specs::vec::axiom_vec_index_decreases(v.0, i as int);
                    assert(decreases_to!(*a => (*a)->List_0.0@[i as int]));
                }
                render_attr(ctx, &v.0[i], out);
                i = i + 1;
                assert(out@ =~= start + list_text(ctx.types_view(), next));
            }
            assert(v.0@.subrange(0, v.0@.len() as int) =~= v.0@);
            push_str(out, "]");
        },
        AttrObj::Unit(_) => {},
        AttrObj::Type(t) => render_type(ctx, t.0, out),
        AttrObj::OverflowFlags(f) => match f {
            IntegerOverflowFlagsAttr::NoFlag => push_str(out, "none"),
            IntegerOverflowFlagsAttr::Nsw => push_str(out, "nsw"),
            IntegerOverflowFlagsAttr::Nuw => push_str(out, "nuw"),
        },
        AttrObj::ICmp(p) => match p {
            ICmpPredicateAttr::EQ => push_str(out, "eq"),
            ICmpPredicateAttr::NE => push_str(out, "ne"),
            ICmpPredicateAttr::SLT => push_str(out, "slt"),
            ICmpPredicateAttr::SLE => push_str(out, "sle"),
            ICmpPredicateAttr::SGT => push_str(out, "sgt"),
            ICmpPredicateAttr::SGE => push_str(out, "sge"),
            ICmpPredicateAttr::ULT => push_str(out, "ult"),
            ICmpPredicateAttr::ULE => push_str(out, "ule"),
            ICmpPredicateAttr::UGT => push_str(out, "ugt"),
            ICmpPredicateAttr::UGE => push_str(out, "uge"),
        },
        AttrObj::GepIndices(g) => {
            push_str(out, "[");
            let ghost start = out@;
            let mut i: usize = 0;
            while i < g.0.len()
                invariant
                    i <= g.0@.len(),
                    out@ == start + gep_list_text(g.0@.subrange(0, i as int)),
                decreases g.0@.len() - i,
            {
                let ghost next = g.0@.subrange(0, i + 1);
                assert(next.drop_last() =~= g.0@.subrange(0, i as int));
                if i > 0 {
                    push_str(out, ", ");
                }
                render_gep_index(g.0[i], out);
                i = i + 1;
                assert(out@ =~= start + gep_list_text(next));
            }
            assert(g.0@.subrange(0, g.0@.len() as int) =~= g.0@);
            push_str(out, "]");
        },
    }
    assert(final(out)@ =~= old(out)@ + attr_payload(ctx.types_view(), *a));
}

/// Appends the qualified identifier of `a`'s kind.
fn render_kind(a: &AttrObj, out: &mut Vec<char>)
    ensures
        final(out)@ == old(out)@ + attr_kind(*a).0 + "."@ + attr_kind(*a).1,
{
    match a {
        AttrObj::Ident(_) => push_str(out, "builtin.identifier"),
        AttrObj::Str(_) => push_str(out, "builtin.string"),
        AttrObj::Int(_) => push_str(out, "builtin.integer"),
        AttrObj::Float(_) => push_str(out, "builtin.float"),
        AttrObj::Dict(_) => push_str(out, "builtin.dict"),
        AttrObj::List(_) => push_str(out, "builtin.vec"),
        AttrObj::Unit(_) => push_str(out, "builtin.unit"),
        AttrObj::Type(_) => push_str(out, "builtin.type"),
        AttrObj::OverflowFlags(_) => push_str(out, "llvm.integer_overlflow_flags"),
        AttrObj::ICmp(_) => push_str(out, "llvm.icmp_predicate"),
        AttrObj::GepIndices(_) => push_str(out, "llvm.gep_indices"),
    }
    proof {
        reveal_strlit("builtin.identifier");
        reveal_strlit("builtin.string");
        reveal_strlit("builtin.integer");
        reveal_strlit("builtin.float");
        reveal_strlit("builtin.dict");
        reveal_strlit("builtin.vec");
        reveal_strlit("builtin.unit");
        reveal_strlit("builtin.type");
        reveal_strlit("llvm.integer_overlflow_flags");
        reveal_strlit("llvm.icmp_predicate");
        reveal_strlit("llvm.gep_indices");
        reveal_strlit("builtin");
        reveal_strlit("llvm");
        reveal_strlit(".");
        reveal_strlit("identifier");
        reveal_strlit("string");
        reveal_strlit("integer");
        reveal_strlit("float");
        reveal_strlit("dict");
        reveal_strlit("vec");
        reveal_strlit("unit");
        reveal_strlit("type");
        reveal_strlit("integer_overlflow_flags");
        reveal_strlit("icmp_predicate");
        reveal_strlit("gep_indices");
    }
    assert(final(out)@ =~= old(out)@ + attr_kind(*a).0 + "."@ + attr_kind(*a).1);
}

/// Appends the printed form of `a`.
pub fn render_attr(ctx: &Context, a: &AttrObj, out: &mut Vec<char>)
    ensures
        final(out)@ == old(out)@ + attr_text(ctx.types_view(), *a),
    decreases *a, 1nat,
{
    render_kind(a, out);
    match a {
        AttrObj::Unit(_) => {},
        _ => {
            push_str(out, " ");
            render_payload(ctx, a, out);
        },
    }
    assert(final(out)@ =~= old(out)@ + attr_text(ctx.types_view(), *a));
}

impl AttrObj {
    /// The printed form of this attribute.
    pub fn disp(&self, ctx: &Context) -> (r: String)
        ensures
            r@ == attr_text(ctx.types_view(), *self),
    {
        let mut out: Vec<char> = Vec::new();
        render_attr(ctx, self, &mut out);
        assert(out@ =~= attr_text(ctx.types_view(), *self));
        string_of(&out)
    }
}

impl TypePtr {
    /// The printed form of the type that this handle denotes.
    pub fn disp(&self, ctx: &Context) -> (r: String)
        ensures
            r@ == type_text(ctx.types_view(), *self),
    {
        let mut out: Vec<char> = Vec::new();
        render_type(ctx, *self, &mut out);
        assert(out@ =~= type_text(ctx.types_view(), *self));
        string_of(&out)
    }
}

} // verus!
