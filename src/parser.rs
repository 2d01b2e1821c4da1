//! Parsing the textual form: a dialect-qualified identifier, checked against
//! the context's dialects, then the payload grammar that the context has
//! registered for that kind.
use vstd::prelude::*;
use crate::apint::{APInt, is_digit, digits_value, numeral_bits, lemma_digits_prefix_le};
use crate::attribute::{AttrObj, entries_map};
use crate::builtin_attributes::{DictAttr, IdentifierAttr, IntegerAttr, StringAttr, TypeAttr, UnitAttr, VecAttr};
use crate::context::{AttrParser, Context, Registry, TypeParser, reg_has_dialect, table_get, table_lookup, intern};
use crate::dialect::{DialectName, QualifiedId};
use crate::identifier::{Identifier, is_id_start, is_id_char, is_identifier, id_start, id_char};
use crate::llvm_attributes::{GepIndexAttr, GepIndicesAttr, ICmpPredicateAttr, IntegerOverflowFlagsAttr};
use crate::text::{decimal, push_chars, push_decimal, push_str, string_of};
use crate::types::{IntegerType, PointerType, Signedness, TypeObj, TypePtr};
use crate::location::{Location, Source};
use crate::result::{Error, ErrorCause, ErrorKind};

verus! {

/// The outcome of a parse step: a value and the position after it, or the
/// position of a failure and its message.
pub enum Parsed<T> {
    Done { val: T, next: nat },
    Fail { at: nat, msg: Seq<char> },
}

/// A parse failure: where it happened and why.
#[derive(Debug, PartialEq, Eq, Clone)]
pub struct ParseError {
    pub pos: usize,
    pub msg: Vec<char>,
}

/// Whether an executable outcome is the one that a spec outcome describes.
pub open spec fn agrees<T>(r: Result<(T, usize), ParseError>, p: Parsed<T>) -> bool {
    match r {
        Ok((v, n)) => p == Parsed::Done { val: v, next: n as nat },
        Err(e) => p == Parsed::<T>::Fail { at: e.pos as nat, msg: e.msg@ },
    }
}

/// Whether an executable outcome carrying characters is the one that a spec
/// outcome describes.
pub open spec fn agrees_chars(r: Result<(Vec<char>, usize), ParseError>, p: Parsed<Seq<char>>) -> bool {
    match r {
        Ok((v, n)) => p == Parsed::Done { val: v@, next: n as nat },
        Err(e) => p == Parsed::<Seq<char>>::Fail { at: e.pos as nat, msg: e.msg@ },
    }
}

/// Whether an executable outcome carrying a position is the one that a spec
/// outcome describes.
pub open spec fn agrees_pos(r: Result<(usize, usize), ParseError>, p: Parsed<nat>) -> bool {
    match r {
        Ok((v, n)) => p == Parsed::Done { val: v as nat, next: n as nat },
        Err(e) => p == Parsed::<nat>::Fail { at: e.pos as nat, msg: e.msg@ },
    }
}

/// Whether an executable outcome carrying two positions is the one that a
/// spec outcome describes.
pub open spec fn agrees_pair(r: Result<((usize, usize), usize), ParseError>, p: Parsed<(nat, nat)>) -> bool {
    match r {
        Ok(((a, b), n)) => p == Parsed::Done { val: (a as nat, b as nat), next: n as nat },
        Err(e) => p == Parsed::<(nat, nat)>::Fail { at: e.pos as nat, msg: e.msg@ },
    }
}

/// A failure at `at` with message `msg`.
pub open spec fn fail<T>(at: nat, msg: Seq<char>) -> Parsed<T> {
    Parsed::Fail { at, msg }
}

fn err<T>(pos: usize, msg: Vec<char>) -> (r: Result<(T, usize), ParseError>)
    ensures
        r == Err::<(T, usize), ParseError>(ParseError { pos, msg }),
{
    Err(ParseError { pos, msg })
}

fn msg_of(s: &str) -> (r: Vec<char>)
    ensures
        r@ == s@,
{
    crate::text::chars_of(s)
}

/// Blank characters between tokens.
pub open spec fn is_space(c: char) -> bool {
    c == ' ' || c == '\t' || c == '\n' || c == '\r'
}

/// The first position at or after `pos` that is not blank.
pub open spec fn skip_ws(s: Seq<char>, pos: nat) -> nat
    decreases s.len() - pos,
{
    if pos < s.len() && is_space(s[pos as int]) {
        skip_ws(s, pos + 1)
    } else {
        pos
    }
}

/// The end of the run of identifier characters that starts at `pos`.
pub open spec fn id_run(s: Seq<char>, pos: nat) -> nat
    decreases s.len() - pos,
{
    if pos < s.len() && is_id_char(s[pos as int]) {
        id_run(s, pos + 1)
    } else {
        pos
    }
}

/// The end of the run of decimal digits that starts at `pos`.
pub open spec fn digit_run(s: Seq<char>, pos: nat) -> nat
    decreases s.len() - pos,
{
    if pos < s.len() && is_digit(s[pos as int]) {
        digit_run(s, pos + 1)
    } else {
        pos
    }
}

/// A numeral character: a digit or a sign.
pub open spec fn is_numeral_char(c: char) -> bool {
    is_digit(c) || c == '-' || c == '+'
}

/// The end of the run of numeral characters that starts at `pos`.
pub open spec fn numeral_run(s: Seq<char>, pos: nat) -> nat
    decreases s.len() - pos,
{
    if pos < s.len() && is_numeral_char(s[pos as int]) {
        numeral_run(s, pos + 1)
    } else {
        pos
    }
}

/// The message for a missing character `c`.
pub open spec fn expected_msg(c: char) -> Seq<char> {
    "Expected `"@ + seq![c] + "`"@
}

/// The character `c` at `pos`.
pub open spec fn p_char(s: Seq<char>, pos: nat, c: char) -> Parsed<nat> {
    if pos < s.len() && s[pos as int] == c {
        Parsed::Done { val: pos + 1, next: pos + 1 }
    } else {
        fail(pos, expected_msg(c))
    }
}

/// An identifier at `pos`; its value is where it ends.
pub open spec fn p_ident(s: Seq<char>, pos: nat) -> Parsed<nat> {
    if pos < s.len() && is_id_start(s[pos as int]) {
        let e = id_run(s, pos + 1);
        Parsed::Done { val: e, next: e }
    } else {
        fail(pos, "Expected identifier"@)
    }
}

/// A registered dialect's name at `pos`; its value is where it ends.
pub open spec fn p_dialect(reg: Registry, s: Seq<char>, pos: nat) -> Parsed<nat> {
    match p_ident(s, pos) {
        Parsed::Done { val: e, next } => {
            let name = s.subrange(pos as int, e as int);
            if reg_has_dialect(reg, name) {
                Parsed::Done { val: e, next }
            } else {
                fail(pos, "Unregistered dialect "@ + name)
            }
        },
        Parsed::Fail { at, msg } => fail(at, msg),
    }
}

/// A qualified identifier `dialect.name` at `pos`, with a registered
/// dialect; its value is the dialect's end and the name's end.
pub open spec fn p_qid(reg: Registry, s: Seq<char>, pos: nat) -> Parsed<(nat, nat)> {
    match p_dialect(reg, s, pos) {
        Parsed::Fail { at, msg } => fail(at, msg),
        Parsed::Done { val: d, next } => match p_char(s, d, '.') {
            Parsed::Fail { at, msg } => fail(at, msg),
            Parsed::Done { val: _, next: n1 } => match p_ident(s, n1) {
                Parsed::Fail { at, msg } => fail(at, msg),
                Parsed::Done { val: e, next: n2 } => Parsed::Done { val: (d, e), next: n2 },
            },
        },
    }
}

/// A decimal number that fits in 32 bits; `missing` and `too_big` are the
/// messages for no digits and for too large a value.
pub open spec fn p_u32(s: Seq<char>, pos: nat, missing: Seq<char>, too_big: Seq<char>) -> Parsed<u32> {
    let e = digit_run(s, pos);
    if e == pos {
        fail(pos, missing)
    } else if digits_value(s.subrange(pos as int, e as int)) > u32::MAX {
        fail(pos, too_big)
    } else {
        Parsed::Done { val: digits_value(s.subrange(pos as int, e as int)) as u32, next: e }
    }
}

/// A bit width: decimal digits that fit in 32 bits.
pub open spec fn p_width(s: Seq<char>, pos: nat) -> Parsed<u32> {
    p_u32(s, pos, "Expected bit width"@, "Bit width out of range"@)
}

/// The payload of an integer type: `si`, `ui` or `i`, then its width.
pub open spec fn p_int_type(s: Seq<char>, pos: nat) -> Parsed<IntegerType> {
    let sg = if pos + 1 < s.len() && s[pos as int] == 's' && s[pos + 1int] == 'i' {
        Some((Signedness::Signed, pos + 2))
    } else if pos + 1 < s.len() && s[pos as int] == 'u' && s[pos + 1int] == 'i' {
        Some((Signedness::Unsigned, pos + 2))
    } else if pos < s.len() && s[pos as int] == 'i' {
        Some((Signedness::Signless, pos + 1))
    } else {
        None
    };
    match sg {
        None => fail(pos, "Expected si, ui or i"@),
        Some((sn, p)) => match p_width(s, p) {
            Parsed::Fail { at, msg } => fail(at, msg),
            Parsed::Done { val: w, next } => Parsed::Done {
                val: IntegerType { width: w, signedness: sn },
                next,
            },
        },
    }
}

/// A type at `pos`, given the type table `types`; also gives the table after
/// the types met are interned.
pub open spec fn p_type(reg: Registry, types: Seq<TypeObj>, s: Seq<char>, pos: nat) -> (Parsed<TypePtr>, Seq<TypeObj>)
    decreases s.len() - pos,
{
    match p_qid(reg, s, pos) {
        Parsed::Fail { at, msg } => (fail(at, msg), types),
        Parsed::Done { val: (d, e), next } => {
            let dn = s.subrange(pos as int, d as int);
            let nm = s.subrange(d + 1int, e as int);
            match table_get(reg.2, dn, nm) {
                None => (fail(pos, "Unregistered type "@ + s.subrange(pos as int, e as int)), types),
                Some(TypeParser::Integer) => match p_int_type(s, skip_ws(s, next)) {
                    Parsed::Fail { at, msg } => (fail(at, msg), types),
                    Parsed::Done { val: it, next: n2 } => {
                        let (ts, p) = intern(types, TypeObj::Integer(it));
                        (Parsed::Done { val: p, next: n2 }, ts)
                    },
                },
                Some(TypeParser::Pointer) => match p_char(s, skip_ws(s, next), '<') {
                    Parsed::Fail { at, msg } => (fail(at, msg), types),
                    Parsed::Done { val: _, next: n1 } => {
                        let q = skip_ws(s, n1);
                        if q <= pos || q > s.len() {
                            (fail(pos, "Expected type"@), types)
                        } else {
                            let (r, ts) = p_type(reg, types, s, q);
                            match r {
                                Parsed::Fail { at, msg } => (fail(at, msg), ts),
                                Parsed::Done { val: inner, next: n2 } => match p_char(s, skip_ws(s, n2), '>') {
                                    Parsed::Fail { at, msg } => (fail(at, msg), ts),
                                    Parsed::Done { val: _, next: n3 } => {
                                        let (ts2, p) = intern(ts, TypeObj::Pointer(PointerType { pointee: inner }));
                                        (Parsed::Done { val: p, next: n3 }, ts2)
                                    },
                                },
                            }
                        }
                    },
                },
            }
        },
    }
}

} // verus!
verus! {

/// The characters of `s` from `a` to `b`.
pub fn slice_chars(s: &Vec<char>, a: usize, b: usize) -> (r: Vec<char>)
    requires
        a <= b <= s@.len(),
    ensures
        r@ == s@.subrange(a as int, b as int),
{
    let mut r: Vec<char> = Vec::new();
    let mut i: usize = a;
    while i < b
        invariant
            a <= i <= b <= s@.len(),
            r@ == s@.subrange(a as int, i as int),
        decreases b - i,
    {
        r.push(s[i]);
        i = i + 1;
        assert(r@ =~= s@.subrange(a as int, i as int));
    }
    r
}

/// Computes `skip_ws`.
pub fn skip_ws_at(s: &Vec<char>, pos: usize) -> (r: usize)
    requires
        pos <= s@.len(),
    ensures
        r == skip_ws(s@, pos as nat),
        pos <= r <= s@.len(),
{
    let mut i = pos;
    while i < s.len() && (s[i] == ' ' || s[i] == '\t' || s[i] == '\n' || s[i] == '\r')
        invariant
            pos <= i <= s@.len(),
            skip_ws(s@, i as nat) == skip_ws(s@, pos as nat),
        decreases s@.len() - i,
    {
        i = i + 1;
    }
    i
}

/// Computes `id_run`.
fn id_run_at(s: &Vec<char>, pos: usize) -> (r: usize)
    requires
        pos <= s@.len(),
    ensures
        r == id_run(s@, pos as nat),
        pos <= r <= s@.len(),
        forall|j: int| pos <= j < r ==> is_id_char(#[trigger] s@[j]),
{
    let mut i = pos;
    while i < s.len() && id_char(s[i])
        invariant
            pos <= i <= s@.len(),
            id_run(s@, i as nat) == id_run(s@, pos as nat),
            forall|j: int| pos <= j < i ==> is_id_char(#[trigger] s@[j]),
        decreases s@.len() - i,
    {
        i = i + 1;
    }
    i
}

/// Computes `digit_run`.
fn digit_run_at(s: &Vec<char>, pos: usize) -> (r: usize)
    requires
        pos <= s@.len(),
    ensures
        r == digit_run(s@, pos as nat),
        pos <= r <= s@.len(),
        forall|j: int| pos <= j < r ==> is_digit(#[trigger] s@[j]),
{
    let mut i = pos;
    while i < s.len() && ('0' <= s[i] && s[i] <= '9')
        invariant
            pos <= i <= s@.len(),
            digit_run(s@, i as nat) == digit_run(s@, pos as nat),
            forall|j: int| pos <= j < i ==> is_digit(#[trigger] s@[j]),
        decreases s@.len() - i,
    {
        i = i + 1;
    }
    i
}

/// Computes `numeral_run`.
fn numeral_run_at(s: &Vec<char>, pos: usize) -> (r: usize)
    requires
        pos <= s@.len(),
    ensures
        r == numeral_run(s@, pos as nat),
        pos <= r <= s@.len(),
{
    let mut i = pos;
    while i < s.len() && (('0' <= s[i] && s[i] <= '9') || s[i] == '-' || s[i] == '+')
        invariant
            pos <= i <= s@.len(),
            numeral_run(s@, i as nat) == numeral_run(s@, pos as nat),
        decreases s@.len() - i,
    {
        i = i + 1;
    }
    i
}

/// Parses the character `c` at `pos`.
pub fn parse_char(s: &Vec<char>, pos: usize, c: char) -> (r: Result<(usize, usize), ParseError>)
    requires
        pos <= s@.len(),
    ensures
        agrees_pos(r, p_char(s@, pos as nat, c)),
        r matches Err(e) ==> e.pos <= s@.len(),
        r matches Ok((_, n)) ==> n <= s@.len(),
{
    if pos < s.len() && s[pos] == c {
        Ok((pos + 1, pos + 1))
    } else {
        let mut m = msg_of("Expected `");
        m.push(c);
        push_str(&mut m, "`");
        assert(m@ =~= expected_msg(c));
        err(pos, m)
    }
}

/// Parses an identifier at `pos`; gives where it ends.
pub fn parse_ident(s: &Vec<char>, pos: usize) -> (r: Result<(usize, usize), ParseError>)
    requires
        pos <= s@.len(),
    ensures
        agrees_pos(r, p_ident(s@, pos as nat)),
        r matches Err(e) ==> e.pos <= s@.len(),
        r matches Ok((e, n)) ==> pos < e && e == n && e <= s@.len() && is_identifier(s@.subrange(pos as int, e as int)),
{
    if pos < s.len() && id_start(s[pos]) {
        let e = id_run_at(s, pos + 1);
        proof {
            let w = s@.subrange(pos as int, e as int);
            assert forall|j: int| 1 <= j < w.len() implies is_id_char(#[trigger] w[j]) by {
                assert(w[j] == s@[pos + j]);
            }
        }
        Ok((e, e))
    } else {
        err(pos, msg_of("Expected identifier"))
    }
}

/// Parses the name of a registered dialect at `pos`; gives where it ends.
pub fn parse_dialect(ctx: &Context, s: &Vec<char>, pos: usize) -> (r: Result<(usize, usize), ParseError>)
    requires
        ctx.wf(),
        pos <= s@.len(),
    ensures
        agrees_pos(r, p_dialect(ctx.registry(), s@, pos as nat)),
        r matches Err(e) ==> e.pos <= s@.len(),
        r matches Ok((e, n)) ==> pos < e && e == n && e <= s@.len(),
{
    let (e, n) = parse_ident(s, pos)?;
    let name = slice_chars(s, pos, e);
    proof {
        ctx.lemma_registry_has_dialect(name@);
    }
    let dn = DialectName(string_of(&name));
    if ctx.is_registered(&dn) {
        Ok((e, n))
    } else {
        let mut m = msg_of("Unregistered dialect ");
        push_chars(&mut m, &name);
        err(pos, m)
    }
}

/// Parses a qualified identifier `dialect.name` at `pos`; gives where the
/// dialect and the name end.
pub fn parse_qid(ctx: &Context, s: &Vec<char>, pos: usize) -> (r: Result<((usize, usize), usize), ParseError>)
    requires
        ctx.wf(),
        pos <= s@.len(),
    ensures
        agrees_pair(r, p_qid(ctx.registry(), s@, pos as nat)),
        r matches Err(e) ==> e.pos <= s@.len(),
        r matches Ok(((d, e), n)) ==> pos < d && d + 1 < e && e == n && e <= s@.len(),
{
    let (d, n0) = parse_dialect(ctx, s, pos)?;
    let (_, n1) = parse_char(s, d, '.')?;
    let (e, n2) = parse_ident(s, n1)?;
    Ok(((d, e), n2))
}

/// The qualified identifier spelled by `s` between the given positions.
fn qid_of(s: &Vec<char>, pos: usize, d: usize, e: usize) -> (r: QualifiedId)
    requires
        pos <= d < e <= s@.len(),
    ensures
        r.dialect@ == s@.subrange(pos as int, d as int),
        r.name@ == s@.subrange(d + 1, e as int),
{
    QualifiedId {
        dialect: DialectName(string_of(&slice_chars(s, pos, d))),
        name: string_of(&slice_chars(s, d + 1, e)),
    }
}

/// Parses a decimal number that fits in 32 bits at `pos`.
pub fn parse_u32(s: &Vec<char>, pos: usize, missing: &str, too_big: &str) -> (r: Result<(u32, usize), ParseError>)
    requires
        pos <= s@.len(),
    ensures
        agrees(r, p_u32(s@, pos as nat, missing@, too_big@)),
        r matches Err(e) ==> e.pos <= s@.len(),
        r matches Ok((_, n)) ==> n <= s@.len(),
{
    let e = digit_run_at(s, pos);
    if e == pos {
        return err(pos, msg_of(missing));
    }
    let ghost d = s@.subrange(pos as int, e as int);
    let mut v: u64 = 0;
    let mut i = pos;
    while i < e
        invariant
            pos <= i <= e <= s@.len(),
            e == digit_run(s@, pos as nat),
            e != pos,
            d == s@.subrange(pos as int, e as int),
            forall|j: int| pos <= j < e ==> is_digit(#[trigger] s@[j]),
            v == digits_value(s@.subrange(pos as int, i as int)),
            v <= u32::MAX,
        decreases e - i,
    {
        let ghost next = s@.subrange(pos as int, i + 1);
        assert(next.drop_last() =~= s@.subrange(pos as int, i as int));
        assert(is_digit(s@[i as int]));
        let dv = ((s[i] as u32) - 48) as u64;
        v = v * 10 + dv;
        assert(v == digits_value(next));
        if v > u32::MAX as u64 {
            proof {
                let k = (i + 1 - pos) as nat;
                assert(d.subrange(0, k as int) =~= next);
                lemma_digits_prefix_le(d, k);
            }
            return err(pos, msg_of(too_big));
        }
        i = i + 1;
    }
    Ok((v as u32, e))
}

/// Parses a bit width at `pos`.
pub fn parse_width(s: &Vec<char>, pos: usize) -> (r: Result<(u32, usize), ParseError>)
    requires
        pos <= s@.len(),
    ensures
        agrees(r, p_width(s@, pos as nat)),
        r matches Err(e) ==> e.pos <= s@.len(),
        r matches Ok((_, n)) ==> n <= s@.len(),
{
    parse_u32(s, pos, "Expected bit width", "Bit width out of range")
}

/// Parses the payload of an integer type at `pos`.
pub fn parse_int_type(s: &Vec<char>, pos: usize) -> (r: Result<(IntegerType, usize), ParseError>)
    requires
        pos <= s@.len(),
    ensures
        agrees(r, p_int_type(s@, pos as nat)),
        r matches Err(e) ==> e.pos <= s@.len(),
        r matches Ok((_, n)) ==> n <= s@.len(),
{
    let (sn, p) = if pos < s.len() && pos + 1 < s.len() && s[pos] == 's' && s[pos + 1] == 'i' {
        (Signedness::Signed, pos + 2)
    } else if pos < s.len() && pos + 1 < s.len() && s[pos] == 'u' && s[pos + 1] == 'i' {
        (Signedness::Unsigned, pos + 2)
    } else if pos < s.len() && s[pos] == 'i' {
        (Signedness::Signless, pos + 1)
    } else {
        return err(pos, msg_of("Expected si, ui or i"));
    };
    let (w, n) = parse_width(s, p)?;
    Ok((IntegerType { width: w, signedness: sn }, n))
}

/// Parses a type at `pos`, interning the types it meets.
pub fn parse_type(ctx: &mut Context, s: &Vec<char>, pos: usize) -> (r: Result<(TypePtr, usize), ParseError>)
    requires
        old(ctx).wf(),
        pos <= s@.len(),
    ensures
        final(ctx).wf(),
        final(ctx).dialects_view() == old(ctx).dialects_view(),
        final(ctx).attr_parsers_view() == old(ctx).attr_parsers_view(),
        final(ctx).type_parsers_view() == old(ctx).type_parsers_view(),
        final(ctx).attr_interfaces_view() == old(ctx).attr_interfaces_view(),
        final(ctx).op_interfaces_view() == old(ctx).op_interfaces_view(),
        agrees(r, p_type(old(ctx).registry(), old(ctx).types_view(), s@, pos as nat).0),
        r matches Err(e) ==> e.pos <= s@.len(),
        final(ctx).types_view() == p_type(old(ctx).registry(), old(ctx).types_view(), s@, pos as nat).1,
        r matches Ok((p, n)) ==> final(ctx).valid_type(p) && n <= s@.len(),
    decreases s@.len() - pos,
{
    let ((d, e), next) = parse_qid(ctx, s, pos)?;
    let id = qid_of(s, pos, d, e);
    match table_lookup(&ctx.type_parsers, &id) {
        None => {
            let mut m = msg_of("Unregistered type ");
            push_chars(&mut m, &slice_chars(s, pos, e));
            err(pos, m)
        },
        Some(TypeParser::Integer) => {
            let q = skip_ws_at(s, next);
            let (it, n2) = parse_int_type(s, q)?;
            let p = ctx.intern_type(TypeObj::Integer(it));
            Ok((p, n2))
        },
        Some(TypeParser::Pointer) => {
            let q0 = skip_ws_at(s, next);
            let (_, n1) = parse_char(s, q0, '<')?;
            let q = skip_ws_at(s, n1);
            if q <= pos || q > s.len() {
                return err(pos, msg_of("Expected type"));
            }
            let ghost c0 = *ctx;
            let (inner, n2) = parse_type(ctx, s, q)?;
            let q2 = skip_ws_at(s, n2);
            let (_, n3) = parse_char(s, q2, '>')?;
            let p = ctx.intern_type(TypeObj::Pointer(PointerType { pointee: inner }));
            Ok((p, n3))
        },
    }
}

} // verus!
verus! {

/// What the parser can tell of an attribute: its kind and contents, with
/// text as character sequences.
pub enum AttrVal {
    Ident(Seq<char>),
    Str(Seq<char>),
    Int(TypePtr, nat, nat),
    Unit,
    Type(TypePtr),
    Flags(IntegerOverflowFlagsAttr),
    ICmp(ICmpPredicateAttr),
    List(Seq<AttrVal>),
    Dict(Map<Seq<char>, AttrVal>),
    Gep(Seq<GepIndexAttr>),
    Other,
}

/// The kinds and contents of a sequence of attributes.
pub open(crate) spec fn vals_of(s: Seq<AttrObj>) -> Seq<AttrVal>
    decreases s, 2nat,
{
    if s.len() == 0 {
        Seq::empty()
    } else {
        vals_of(s.drop_last()).push(attr_val(s.last()))
    }
}

/// The mapping of dictionary entries to the kinds and contents of their
/// values; a later entry for a key overrides an earlier one.
pub open(crate) spec fn dict_vals(s: Seq<(Identifier, AttrObj)>) -> Map<Seq<char>, AttrVal>
    decreases s, 2nat,
{
    if s.len() == 0 {
        Map::empty()
    } else {
        dict_vals(s.drop_last()).insert(s.last().0@, attr_val(s.last().1))
    }
}

/// The kind and contents of an attribute.
pub open(crate) spec fn attr_val(a: AttrObj) -> AttrVal
    decreases a, 1nat,
{
    match a {
        AttrObj::List(v) => AttrVal::List(vals_of(v.0@)),
        AttrObj::Dict(d) => AttrVal::Dict(dict_vals(d.0.entries@)),
        AttrObj::GepIndices(g) => AttrVal::Gep(g.0@),
        AttrObj::Ident(i) => AttrVal::Ident(i.0@),
        AttrObj::Str(s) => AttrVal::Str(s.0@),
        AttrObj::Int(i) => AttrVal::Int(i.ty, i.val.bits_spec(), i.val.width_spec()),
        AttrObj::Unit(_) => AttrVal::Unit,
        AttrObj::Type(t) => AttrVal::Type(t.0),
        AttrObj::OverflowFlags(f) => AttrVal::Flags(f),
        AttrObj::ICmp(p) => AttrVal::ICmp(p),
        _ => AttrVal::Other,
    }
}

/// Whether an executable outcome carrying an attribute is the one that a
/// spec outcome describes.
pub open(crate) spec fn agrees_attr(r: Result<(AttrObj, usize), ParseError>, p: Parsed<AttrVal>) -> bool {
    match r {
        Ok((v, n)) => p == Parsed::Done { val: attr_val(v), next: n as nat },
        Err(e) => p == Parsed::<AttrVal>::Fail { at: e.pos as nat, msg: e.msg@ },
    }
}

/// The message for an unterminated string literal.
pub open spec fn unterminated() -> Seq<char> {
    "Unterminated string literal"@
}

/// The rest of a string literal's body from `pos`, with `acc` read so far.
pub open spec fn scan_string(s: Seq<char>, pos: nat, acc: Seq<char>) -> Parsed<Seq<char>>
    decreases s.len() - pos,
{
    if pos >= s.len() {
        fail(pos, unterminated())
    } else if s[pos as int] == '"' {
        Parsed::Done { val: acc, next: pos + 1 }
    } else if s[pos as int] == '\\' {
        if pos + 1 >= s.len() {
            fail(pos + 1, unterminated())
        } else if s[pos + 1int] == '\\' || s[pos + 1int] == '"' {
            scan_string(s, pos + 2, acc.push(s[pos + 1int]))
        } else {
            fail(pos + 1, "Unexpected escaped character \\"@ + seq![s[pos + 1int]])
        }
    } else {
        scan_string(s, pos + 1, acc.push(s[pos as int]))
    }
}

/// A string literal at `pos`; its value is the unescaped body.
pub open spec fn p_string(s: Seq<char>, pos: nat) -> Parsed<Seq<char>> {
    match p_char(s, pos, '"') {
        Parsed::Fail { at, msg } => fail(at, msg),
        Parsed::Done { val: _, next } => scan_string(s, next, Seq::empty()),
    }
}

/// The message for an integer literal that its type cannot hold.
pub open spec fn range_msg(lit: Seq<char>, w: u32) -> Seq<char> {
    "Integer literal "@ + lit + " does not fit in "@ + decimal(w as nat) + " bits"@
}

/// The payload of an integer attribute, `<value: type>`, at `pos`. The
/// type's width must be at least one bit.
pub open spec fn p_int_attr(types: Seq<TypeObj>, s: Seq<char>, pos: nat) -> (Parsed<AttrVal>, Seq<TypeObj>) {
    match p_char(s, pos, '<') {
        Parsed::Fail { at, msg } => (fail(at, msg), types),
        Parsed::Done { val: _, next: n1 } => {
            let q1 = skip_ws(s, n1);
            let e = numeral_run(s, q1);
            if e == q1 {
                (fail(q1, "Expected integer literal"@), types)
            } else {
                match p_char(s, skip_ws(s, e), ':') {
                    Parsed::Fail { at, msg } => (fail(at, msg), types),
                    Parsed::Done { val: _, next: n2 } => match p_int_type(s, skip_ws(s, n2)) {
                        Parsed::Fail { at, msg } => (fail(at, msg), types),
                        Parsed::Done { val: it, next: n3 } => match p_char(s, skip_ws(s, n3), '>') {
                            Parsed::Fail { at, msg } => (fail(at, msg), types),
                            Parsed::Done { val: _, next: n4 } => {
                                let lit = s.subrange(q1 as int, e as int);
                                if it.width < 1 {
                                    (fail(n4, "Unsupported bit width "@ + decimal(it.width as nat)), types)
                                } else {
                                    match numeral_bits(lit, it.width as nat) {
                                        None => (fail(n4, range_msg(lit, it.width)), types),
                                        Some(b) => {
                                            let (ts, p) = intern(types, TypeObj::Integer(it));
                                            (Parsed::Done { val: AttrVal::Int(p, b, it.width as nat), next: n4 }, ts)
                                        },
                                    }
                                }
                            },
                        },
                    },
                }
            }
        },
    }
}

/// The overflow flags that a word names.
pub open spec fn flags_of(w: Seq<char>) -> Option<IntegerOverflowFlagsAttr> {
    if w == "none"@ {
        Some(IntegerOverflowFlagsAttr::NoFlag)
    } else if w == "nsw"@ {
        Some(IntegerOverflowFlagsAttr::Nsw)
    } else if w == "nuw"@ {
        Some(IntegerOverflowFlagsAttr::Nuw)
    } else {
        None
    }
}

/// The comparison predicate that a word names.
pub open spec fn icmp_of(w: Seq<char>) -> Option<ICmpPredicateAttr> {
    if w == "eq"@ {
        Some(ICmpPredicateAttr::EQ)
    } else if w == "ne"@ {
        Some(ICmpPredicateAttr::NE)
    } else if w == "slt"@ {
        Some(ICmpPredicateAttr::SLT)
    } else if w == "sle"@ {
        Some(ICmpPredicateAttr::SLE)
    } else if w == "sgt"@ {
        Some(ICmpPredicateAttr::SGT)
    } else if w == "sge"@ {
        Some(ICmpPredicateAttr::SGE)
    } else if w == "ult"@ {
        Some(ICmpPredicateAttr::ULT)
    } else if w == "ule"@ {
        Some(ICmpPredicateAttr::ULE)
    } else if w == "ugt"@ {
        Some(ICmpPredicateAttr::UGT)
    } else if w == "uge"@ {
        Some(ICmpPredicateAttr::UGE)
    } else {
        None
    }
}

/// One address-computation index at `pos`: `Constant(<n>)` or
/// `OperandIdx(<n>)`.
pub open spec fn p_gep_index(s: Seq<char>, pos: nat) -> Parsed<GepIndexAttr> {
    match p_ident(s, pos) {
        Parsed::Fail { at, msg } => fail(at, msg),
        Parsed::Done { val: e, next: _ } => {
            let w = s.subrange(pos as int, e as int);
            if w != "Constant"@ && w != "OperandIdx"@ {
                fail(pos, "Expected Constant or OperandIdx"@)
            } else {
                match p_char(s, e, '(') {
                    Parsed::Fail { at, msg } => fail(at, msg),
                    Parsed::Done { val: _, next: n1 } => match p_u32(s, n1, "Expected number"@, "Number out of range"@) {
                        Parsed::Fail { at, msg } => fail(at, msg),
                        Parsed::Done { val: v, next: n2 } => match p_char(s, n2, ')') {
                            Parsed::Fail { at, msg } => fail(at, msg),
                            Parsed::Done { val: _, next: n3 } => Parsed::Done {
                                val: if w == "Constant"@ { GepIndexAttr::Constant(v) } else { GepIndexAttr::OperandIdx(v as usize) },
                                next: n3,
                            },
                        },
                    },
                }
            }
        },
    }
}

/// The indices of an address computation from `pos`, after `[` and the
/// indices in `acc`.
pub open spec fn p_gep_list(s: Seq<char>, pos: nat, acc: Seq<GepIndexAttr>) -> Parsed<Seq<GepIndexAttr>>
    decreases s.len() - pos,
{
    if pos > s.len() {
        fail(pos, "Expected index"@)
    } else if acc.len() == 0 && pos < s.len() && s[pos as int] == ']' {
        Parsed::Done { val: acc, next: pos + 1 }
    } else {
        match p_gep_index(s, pos) {
            Parsed::Fail { at, msg } => fail(at, msg),
            Parsed::Done { val, next } => {
                let q = skip_ws(s, next);
                if next <= pos || q > s.len() {
                    fail(pos, "Expected index"@)
                } else if q < s.len() && s[q as int] == ']' {
                    Parsed::Done { val: acc.push(val), next: q + 1 }
                } else if q < s.len() && s[q as int] == ',' {
                    let q2 = skip_ws(s, q + 1);
                    if q2 <= pos || q2 > s.len() {
                        fail(pos, "Expected index"@)
                    } else {
                        p_gep_list(s, q2, acc.push(val))
                    }
                } else {
                    fail(q, "Expected `,` or `]`"@)
                }
            },
        }
    }
}

/// The payload that the parse routine `k` reads at `pos`.
pub open spec fn p_payload(reg: Registry, types: Seq<TypeObj>, k: AttrParser, s: Seq<char>, pos: nat) -> (Parsed<AttrVal>, Seq<TypeObj>)
    decreases s.len() - pos, 1nat,
{
    if pos > s.len() {
        (fail(pos, "Expected attribute"@), types)
    } else {
    match k {
        AttrParser::Dict => match p_char(s, pos, '{') {
            Parsed::Fail { at, msg } => (fail(at, msg), types),
            Parsed::Done { val: _, next } => {
                let q = skip_ws(s, next);
                if q <= pos || q > s.len() {
                    (fail(pos, "Expected attribute"@), types)
                } else {
                    let (r, ts) = p_dict(reg, types, s, q, Map::empty(), true);
                    match r {
                        Parsed::Fail { at, msg } => (fail(at, msg), ts),
                        Parsed::Done { val, next } => (Parsed::Done { val: AttrVal::Dict(val), next }, ts),
                    }
                }
            },
        },
        AttrParser::Vec => match p_char(s, pos, '[') {
            Parsed::Fail { at, msg } => (fail(at, msg), types),
            Parsed::Done { val: _, next } => {
                let q = skip_ws(s, next);
                if q <= pos || q > s.len() {
                    (fail(pos, "Expected attribute"@), types)
                } else {
                    let (r, ts) = p_list(reg, types, s, q, Seq::empty());
                    match r {
                        Parsed::Fail { at, msg } => (fail(at, msg), ts),
                        Parsed::Done { val, next } => (Parsed::Done { val: AttrVal::List(val), next }, ts),
                    }
                }
            },
        },
        AttrParser::Identifier => match p_ident(s, pos) {
            Parsed::Fail { at, msg } => (fail(at, msg), types),
            Parsed::Done { val: e, next } => (Parsed::Done { val: AttrVal::Ident(s.subrange(pos as int, e as int)), next }, types),
        },
        AttrParser::String => match p_string(s, pos) {
            Parsed::Fail { at, msg } => (fail(at, msg), types),
            Parsed::Done { val, next } => (Parsed::Done { val: AttrVal::Str(val), next }, types),
        },
        AttrParser::Integer => p_int_attr(types, s, pos),
        AttrParser::Type => {
            let (r, ts) = p_type(reg, types, s, pos);
            match r {
                Parsed::Fail { at, msg } => (fail(at, msg), ts),
                Parsed::Done { val, next } => (Parsed::Done { val: AttrVal::Type(val), next }, ts),
            }
        },
        AttrParser::IntegerOverflowFlags => match p_ident(s, pos) {
            Parsed::Fail { at, msg } => (fail(at, msg), types),
            Parsed::Done { val: e, next } => match flags_of(s.subrange(pos as int, e as int)) {
                None => (fail(pos, "Expected none, nsw or nuw"@), types),
                Some(f) => (Parsed::Done { val: AttrVal::Flags(f), next }, types),
            },
        },
        AttrParser::ICmpPredicate => match p_ident(s, pos) {
            Parsed::Fail { at, msg } => (fail(at, msg), types),
            Parsed::Done { val: e, next } => match icmp_of(s.subrange(pos as int, e as int)) {
                None => (fail(pos, "Expected an integer comparison predicate"@), types),
                Some(p) => (Parsed::Done { val: AttrVal::ICmp(p), next }, types),
            },
        },
        AttrParser::Unit => (Parsed::Done { val: AttrVal::Unit, next: pos }, types),
        AttrParser::GepIndices => match p_char(s, pos, '[') {
            Parsed::Fail { at, msg } => (fail(at, msg), types),
            Parsed::Done { val: _, next } => match p_gep_list(s, skip_ws(s, next), Seq::empty()) {
                Parsed::Fail { at, msg } => (fail(at, msg), types),
                Parsed::Done { val, next } => (Parsed::Done { val: AttrVal::Gep(val), next }, types),
            },
        },
    }
    }
}

/// The entries of a dictionary attribute from `pos`, after `{` and the
/// entries in `acc`: `}` right away when there are none (`first`), else
/// `key: attribute` followed by `,` and more, or by `}`.
pub open spec fn p_dict(reg: Registry, types: Seq<TypeObj>, s: Seq<char>, pos: nat, acc: Map<Seq<char>, AttrVal>, first: bool) -> (Parsed<Map<Seq<char>, AttrVal>>, Seq<TypeObj>)
    decreases s.len() - pos, 3nat,
{
    if pos > s.len() {
        (fail(pos, "Expected attribute"@), types)
    } else if first && pos < s.len() && s[pos as int] == '}' {
        (Parsed::Done { val: acc, next: pos + 1 }, types)
    } else {
        match p_ident(s, pos) {
            Parsed::Fail { at, msg } => (fail(at, msg), types),
            Parsed::Done { val: e, next: _ } => match p_char(s, skip_ws(s, e), ':') {
                Parsed::Fail { at, msg } => (fail(at, msg), types),
                Parsed::Done { val: _, next: n1 } => {
                    let key = s.subrange(pos as int, e as int);
                    let q = skip_ws(s, n1);
                    if q <= pos || q > s.len() {
                        (fail(pos, "Expected attribute"@), types)
                    } else {
                        let (r, ts) = p_attr(reg, types, s, q);
                        match r {
                            Parsed::Fail { at, msg } => (fail(at, msg), ts),
                            Parsed::Done { val, next } => {
                                let q2 = skip_ws(s, next);
                                if next <= pos || q2 > s.len() {
                                    (fail(pos, "Expected attribute"@), ts)
                                } else if q2 < s.len() && s[q2 as int] == '}' {
                                    (Parsed::Done { val: acc.insert(key, val), next: q2 + 1 }, ts)
                                } else if q2 < s.len() && s[q2 as int] == ',' {
                                    let q3 = skip_ws(s, q2 + 1);
                                    if q3 <= pos || q3 > s.len() {
                                        (fail(pos, "Expected attribute"@), ts)
                                    } else {
                                        p_dict(reg, ts, s, q3, acc.insert(key, val), false)
                                    }
                                } else {
                                    (fail(q2, "Expected `,` or `}`"@), ts)
                                }
                            },
                        }
                    }
                },
            },
        }
    }
}

/// The elements of a sequence attribute from `pos`, after `[` and any
/// elements in `acc`: `]` right away when there are none, else an
/// attribute followed by `,` and more, or by `]`.
pub open spec fn p_list(reg: Registry, types: Seq<TypeObj>, s: Seq<char>, pos: nat, acc: Seq<AttrVal>) -> (Parsed<Seq<AttrVal>>, Seq<TypeObj>)
    decreases s.len() - pos, 3nat,
{
    if pos > s.len() {
        (fail(pos, "Expected attribute"@), types)
    } else if acc.len() == 0 && pos < s.len() && s[pos as int] == ']' {
        (Parsed::Done { val: acc, next: pos + 1 }, types)
    } else {
        let (r, ts) = p_attr(reg, types, s, pos);
        match r {
            Parsed::Fail { at, msg } => (fail(at, msg), ts),
            Parsed::Done { val, next } => {
                let q = skip_ws(s, next);
                if next <= pos || q > s.len() {
                    (fail(pos, "Expected attribute"@), ts)
                } else if q < s.len() && s[q as int] == ']' {
                    (Parsed::Done { val: acc.push(val), next: q + 1 }, ts)
                } else if q < s.len() && s[q as int] == ',' {
                    let q2 = skip_ws(s, q + 1);
                    if q2 <= pos || q2 > s.len() {
                        (fail(pos, "Expected attribute"@), ts)
                    } else {
                        p_list(reg, ts, s, q2, acc.push(val))
                    }
                } else {
                    (fail(q, "Expected `,` or `]`"@), ts)
                }
            },
        }
    }
}

/// An attribute at `pos`: its kind's qualified identifier, then the payload
/// that the routine registered for that kind reads.
pub open spec fn p_attr(reg: Registry, types: Seq<TypeObj>, s: Seq<char>, pos: nat) -> (Parsed<AttrVal>, Seq<TypeObj>)
    decreases s.len() - pos, 2nat,
{
    match p_qid(reg, s, pos) {
        Parsed::Fail { at, msg } => (fail(at, msg), types),
        Parsed::Done { val: (d, e), next } => {
            let dn = s.subrange(pos as int, d as int);
            let nm = s.subrange(d + 1int, e as int);
            match table_get(reg.1, dn, nm) {
                None => (fail(pos, "Unregistered attribute "@ + s.subrange(pos as int, e as int)), types),
                Some(AttrParser::Unit) => (Parsed::Done { val: AttrVal::Unit, next }, types),
                Some(k) => if skip_ws(s, next) <= pos || skip_ws(s, next) > s.len() {
                    (fail(pos, "Expected attribute"@), types)
                } else {
                    p_payload(reg, types, k, s, skip_ws(s, next))
                },
            }
        },
    }
}

/// Parses a string literal at `pos`, giving its unescaped body.
pub fn parse_string(s: &Vec<char>, pos: usize) -> (r: Result<(Vec<char>, usize), ParseError>)
    requires
        pos <= s@.len(),
    ensures
        agrees_chars(r, p_string(s@, pos as nat)),
        r matches Err(e) ==> e.pos <= s@.len(),
        r matches Ok((_, n)) ==> n <= s@.len(),
{
    let (_, start) = parse_char(s, pos, '"')?;
    let mut acc: Vec<char> = Vec::new();
    let mut i = start;
    while i < s.len()
        invariant
            start <= i <= s@.len(),
            p_string(s@, pos as nat) == scan_string(s@, i as nat, acc@),
            p_char(s@, pos as nat, '"') == (Parsed::<nat>::Done { val: start as nat, next: start as nat }),
        decreases s@.len() - i,
    {
        let c = s[i];
        if c == '"' {
            return Ok((acc, i + 1));
        } else if c == '\\' {
            if i + 1 >= s.len() {
                return err(i + 1, msg_of("Unterminated string literal"));
            }
            let d = s[i + 1];
            if d == '\\' || d == '"' {
                acc.push(d);
                i = i + 2;
            } else {
                let mut m = msg_of("Unexpected escaped character \\");
                m.push(d);
                assert(m@ =~= "Unexpected escaped character \\"@ + seq![d]);
                return err(i + 1, m);
            }
        } else {
            acc.push(c);
            i = i + 1;
        }
    }
    err(i, msg_of("Unterminated string literal"))
}

/// Whether the characters of `v` are those of `w`.
fn chars_are(v: &Vec<char>, w: &str) -> (r: bool)
    ensures
        r == (v@ == w@),
{
    let c = crate::text::chars_of(w);
    crate::identifier::compare_chars(v, &c) == 0
}

/// Parses the payload of an integer attribute at `pos`.
pub fn parse_int_attr(ctx: &mut Context, s: &Vec<char>, pos: usize) -> (r: Result<(AttrObj, usize), ParseError>)
    requires
        old(ctx).wf(),
        pos <= s@.len(),
    ensures
        final(ctx).wf(),
        final(ctx).dialects_view() == old(ctx).dialects_view(),
        final(ctx).attr_parsers_view() == old(ctx).attr_parsers_view(),
        final(ctx).type_parsers_view() == old(ctx).type_parsers_view(),
        final(ctx).attr_interfaces_view() == old(ctx).attr_interfaces_view(),
        final(ctx).op_interfaces_view() == old(ctx).op_interfaces_view(),
        agrees_attr(r, p_int_attr(old(ctx).types_view(), s@, pos as nat).0),
        r matches Err(e) ==> e.pos <= s@.len(),
        final(ctx).types_view() == p_int_attr(old(ctx).types_view(), s@, pos as nat).1,
        r matches Ok((_, n)) ==> n <= s@.len(),
{
    let (_, n1) = parse_char(s, pos, '<')?;
    let q1 = skip_ws_at(s, n1);
    let e = numeral_run_at(s, q1);
    if e == q1 {
        return err(q1, msg_of("Expected integer literal"));
    }
    let q2 = skip_ws_at(s, e);
    let (_, n2) = parse_char(s, q2, ':')?;
    let q3 = skip_ws_at(s, n2);
    let (it, n3) = parse_int_type(s, q3)?;
    let q4 = skip_ws_at(s, n3);
    let (_, n4) = parse_char(s, q4, '>')?;
    let lit = slice_chars(s, q1, e);
    if it.width < 1 {
        let mut m = msg_of("Unsupported bit width ");
        push_decimal(&mut m, it.width as u64);
        return err(n4, m);
    }
    match APInt::from_str(&lit, it.width) {
        None => {
            let mut m = msg_of("Integer literal ");
            push_chars(&mut m, &lit);
            push_str(&mut m, " does not fit in ");
            push_decimal(&mut m, it.width as u64);
            push_str(&mut m, " bits");
            assert(m@ =~= range_msg(lit@, it.width));
            err(n4, m)
        },
        Some(v) => {
            let p = ctx.intern_type(TypeObj::Integer(it));
            Ok((AttrObj::Int(IntegerAttr { ty: p, val: v }), n4))
        },
    }
}

/// Parses one address-computation index at `pos`.
pub fn parse_gep_index(s: &Vec<char>, pos: usize) -> (r: Result<(GepIndexAttr, usize), ParseError>)
    requires
        pos <= s@.len(),
    ensures
        agrees(r, p_gep_index(s@, pos as nat)),
        r matches Err(e) ==> e.pos <= s@.len(),
        r matches Ok((_, n)) ==> n <= s@.len(),
{
    let (e, _) = parse_ident(s, pos)?;
    let w = slice_chars(s, pos, e);
    let is_const = chars_are(&w, "Constant");
    if !is_const && !chars_are(&w, "OperandIdx") {
        return err(pos, msg_of("Expected Constant or OperandIdx"));
    }
    let (_, n1) = parse_char(s, e, '(')?;
    let (v, n2) = parse_u32(s, n1, "Expected number", "Number out of range")?;
    let (_, n3) = parse_char(s, n2, ')')?;
    if is_const {
        Ok((GepIndexAttr::Constant(v), n3))
    } else {
        Ok((GepIndexAttr::OperandIdx(v as usize), n3))
    }
}

/// Parses the indices of an address computation from `pos`, after `[` and
/// the indices in `acc`.
pub fn parse_gep_list(s: &Vec<char>, pos: usize, acc: Vec<GepIndexAttr>) -> (r: Result<(Vec<GepIndexAttr>, usize), ParseError>)
    requires
        pos <= s@.len(),
    ensures
        match r {
            Ok((v, n)) => p_gep_list(s@, pos as nat, acc@) == (Parsed::Done { val: v@, next: n as nat }) && n <= s@.len(),
            Err(e) => p_gep_list(s@, pos as nat, acc@) == (Parsed::<Seq<GepIndexAttr>>::Fail { at: e.pos as nat, msg: e.msg@ }) && e.pos <= s@.len(),
        },
    decreases s@.len() - pos,
{
    let mut acc = acc;
    if acc.len() == 0 && pos < s.len() && s[pos] == ']' {
        return Ok((acc, pos + 1));
    }
    let (g, next) = parse_gep_index(s, pos)?;
    let q = skip_ws_at(s, next);
    if next <= pos || q > s.len() {
        return err(pos, msg_of("Expected index"));
    }
    acc.push(g);
    if q < s.len() && s[q] == ']' {
        return Ok((acc, q + 1));
    }
    if q < s.len() && s[q] == ',' {
        let q2 = skip_ws_at(s, q + 1);
        if q2 <= pos || q2 > s.len() {
            return err(pos, msg_of("Expected index"));
        }
        return parse_gep_list(s, q2, acc);
    }
    err(q, msg_of("Expected `,` or `]`"))
}

/// Parses the payload that the parse routine `k` reads at `pos`.
pub fn parse_payload(ctx: &mut Context, k: AttrParser, s: &Vec<char>, pos: usize) -> (r: Result<(AttrObj, usize), ParseError>)
    requires
        old(ctx).wf(),
        pos <= s@.len(),
    ensures
        final(ctx).wf(),
        final(ctx).dialects_view() == old(ctx).dialects_view(),
        final(ctx).attr_parsers_view() == old(ctx).attr_parsers_view(),
        final(ctx).type_parsers_view() == old(ctx).type_parsers_view(),
        final(ctx).attr_interfaces_view() == old(ctx).attr_interfaces_view(),
        final(ctx).op_interfaces_view() == old(ctx).op_interfaces_view(),
        agrees_attr(r, p_payload(old(ctx).registry(), old(ctx).types_view(), k, s@, pos as nat).0),
        r matches Err(e) ==> e.pos <= s@.len(),
        final(ctx).types_view() == p_payload(old(ctx).registry(), old(ctx).types_view(), k, s@, pos as nat).1,
        r matches Ok((_, n)) ==> n <= s@.len(),
    decreases s@.len() - pos, 1nat,
{
    match k {
        AttrParser::Dict => {
            let (_, n1) = parse_char(s, pos, '{')?;
            let q = skip_ws_at(s, n1);
            if q <= pos || q > s.len() {
                return err(pos, msg_of("Expected attribute"));
            }
            let empty = DictAttr::new(Vec::new());
            proof {
                empty.0.lemma_view();
                lemma_dict_vals(empty.0.entries@);
                assert(dict_vals(empty.0.entries@) =~= Map::<Seq<char>, AttrVal>::empty());
            }
            let (d, n) = parse_dict(ctx, s, q, empty, true)?;
            Ok((AttrObj::Dict(d), n))
        },
        AttrParser::Vec => {
            let (_, n1) = parse_char(s, pos, '[')?;
            let q = skip_ws_at(s, n1);
            if q <= pos || q > s.len() {
                return err(pos, msg_of("Expected attribute"));
            }
            let (items, n) = parse_list(ctx, s, q, Vec::new())?;
            Ok((AttrObj::List(VecAttr(items)), n))
        },
        AttrParser::Identifier => {
            let (e, n) = parse_ident(s, pos)?;
            let id = Identifier::from_chars(slice_chars(s, pos, e));
            Ok((AttrObj::Ident(IdentifierAttr(id)), n))
        },
        AttrParser::String => {
            let (body, n) = parse_string(s, pos)?;
            Ok((AttrObj::Str(StringAttr(string_of(&body))), n))
        },
        AttrParser::Integer => parse_int_attr(ctx, s, pos),
        AttrParser::Type => {
            let (t, n) = parse_type(ctx, s, pos)?;
            Ok((AttrObj::Type(TypeAttr(t)), n))
        },
        AttrParser::IntegerOverflowFlags => {
            let (e, n) = parse_ident(s, pos)?;
            let w = slice_chars(s, pos, e);
            proof {
                reveal_strlit("none");
                reveal_strlit("nsw");
                reveal_strlit("nuw");
            }
            if chars_are(&w, "none") {
                Ok((AttrObj::OverflowFlags(IntegerOverflowFlagsAttr::NoFlag), n))
            } else if chars_are(&w, "nsw") {
                Ok((AttrObj::OverflowFlags(IntegerOverflowFlagsAttr::Nsw), n))
            } else if chars_are(&w, "nuw") {
                Ok((AttrObj::OverflowFlags(IntegerOverflowFlagsAttr::Nuw), n))
            } else {
                err(pos, msg_of("Expected none, nsw or nuw"))
            }
        },
        AttrParser::ICmpPredicate => {
            let (e, n) = parse_ident(s, pos)?;
            let w = slice_chars(s, pos, e);
            let p = if chars_are(&w, "eq") {
                ICmpPredicateAttr::EQ
            } else if chars_are(&w, "ne") {
                ICmpPredicateAttr::NE
            } else if chars_are(&w, "slt") {
                ICmpPredicateAttr::SLT
            } else if chars_are(&w, "sle") {
                ICmpPredicateAttr::SLE
            } else if chars_are(&w, "sgt") {
                ICmpPredicateAttr::SGT
            } else if chars_are(&w, "sge") {
                ICmpPredicateAttr::SGE
            } else if chars_are(&w, "ult") {
                ICmpPredicateAttr::ULT
            } else if chars_are(&w, "ule") {
                ICmpPredicateAttr::ULE
            } else if chars_are(&w, "ugt") {
                ICmpPredicateAttr::UGT
            } else if chars_are(&w, "uge") {
                ICmpPredicateAttr::UGE
            } else {
                return err(pos, msg_of("Expected an integer comparison predicate"));
            };
            Ok((AttrObj::ICmp(p), n))
        },
        AttrParser::Unit => Ok((AttrObj::Unit(UnitAttr), pos)),
        AttrParser::GepIndices => {
            let (_, n1) = parse_char(s, pos, '[')?;
            let q = skip_ws_at(s, n1);
            let (items, n) = parse_gep_list(s, q, Vec::new())?;
            Ok((AttrObj::GepIndices(GepIndicesAttr(items)), n))
        },
    }
}

/// The kinds and contents of dictionary values are those of the mapping
/// the entries denote.
pub proof fn lemma_dict_vals(s: Seq<(Identifier, AttrObj)>)
    ensures
        dict_vals(s) == entries_map(s).map_values(|v: AttrObj| attr_val(v)),
    decreases s.len(),
{
    if s.len() > 0 {
        lemma_dict_vals(s.drop_last());
        assert(dict_vals(s) =~= entries_map(s).map_values(|v: AttrObj| attr_val(v)));
    } else {
        assert(dict_vals(s) =~= entries_map(s).map_values(|v: AttrObj| attr_val(v)));
    }
}

/// Parses the entries of a dictionary attribute from `pos`, after `{` and
/// the entries already in `acc`.
pub(crate) fn parse_dict(ctx: &mut Context, s: &Vec<char>, pos: usize, acc: DictAttr, first: bool) -> (r: Result<(DictAttr, usize), ParseError>)
    requires
        old(ctx).wf(),
        acc.wf(),
        pos <= s@.len(),
    ensures
        final(ctx).wf(),
        final(ctx).dialects_view() == old(ctx).dialects_view(),
        final(ctx).attr_parsers_view() == old(ctx).attr_parsers_view(),
        final(ctx).type_parsers_view() == old(ctx).type_parsers_view(),
        final(ctx).attr_interfaces_view() == old(ctx).attr_interfaces_view(),
        final(ctx).op_interfaces_view() == old(ctx).op_interfaces_view(),
        match r {
            Ok((d, n)) => p_dict(old(ctx).registry(), old(ctx).types_view(), s@, pos as nat, dict_vals(acc.0.entries@), first).0
                == (Parsed::Done { val: dict_vals(d.0.entries@), next: n as nat }) && n <= s@.len(),
            Err(e) => p_dict(old(ctx).registry(), old(ctx).types_view(), s@, pos as nat, dict_vals(acc.0.entries@), first).0
                == (Parsed::<Map<Seq<char>, AttrVal>>::Fail { at: e.pos as nat, msg: e.msg@ }) && e.pos <= s@.len(),
        },
        final(ctx).types_view() == p_dict(old(ctx).registry(), old(ctx).types_view(), s@, pos as nat, dict_vals(acc.0.entries@), first).1,
        r matches Ok((d, _)) ==> d.wf(),
    decreases s@.len() - pos, 3nat,
{
    let mut acc = acc;
    if first && pos < s.len() && s[pos] == '}' {
        return Ok((acc, pos + 1));
    }
    let (e, _) = parse_ident(s, pos)?;
    let c = skip_ws_at(s, e);
    let (_, n1) = parse_char(s, c, ':')?;
    let q = skip_ws_at(s, n1);
    if q <= pos || q > s.len() {
        return err(pos, msg_of("Expected attribute"));
    }
    let key = Identifier::from_chars(slice_chars(s, pos, e));
    let (v, next) = parse_attr_at(ctx, s, q)?;
    let q2 = skip_ws_at(s, next);
    if next <= pos || q2 > s.len() {
        return err(pos, msg_of("Expected attribute"));
    }
    let ghost before = acc;
    let ghost gv = v;
    acc.insert(&key, v);
    proof {
        before.0.lemma_view();
        acc.0.lemma_view();
        lemma_dict_vals(before.0.entries@);
        lemma_dict_vals(acc.0.entries@);
        assert(dict_vals(acc.0.entries@) =~= dict_vals(before.0.entries@).insert(key@, attr_val(gv)));
    }
    if q2 < s.len() && s[q2] == '}' {
        return Ok((acc, q2 + 1));
    }
    if q2 < s.len() && s[q2] == ',' {
        let q3 = skip_ws_at(s, q2 + 1);
        if q3 <= pos || q3 > s.len() {
            return err(pos, msg_of("Expected attribute"));
        }
        return parse_dict(ctx, s, q3, acc, false);
    }
    err(q2, msg_of("Expected `,` or `}`"))
}

/// Whether an executable outcome carrying attributes is the one that a spec
/// outcome describes.
pub open(crate) spec fn agrees_list(r: Result<(Vec<AttrObj>, usize), ParseError>, p: Parsed<Seq<AttrVal>>) -> bool {
    match r {
        Ok((v, n)) => p == Parsed::Done { val: vals_of(v@), next: n as nat },
        Err(e) => p == Parsed::<Seq<AttrVal>>::Fail { at: e.pos as nat, msg: e.msg@ },
    }
}

/// `vals_of` keeps the length.
pub proof fn lemma_vals_len(s: Seq<AttrObj>)
    ensures
        vals_of(s).len() == s.len(),
    decreases s.len(),
{
    if s.len() > 0 {
        lemma_vals_len(s.drop_last());
    }
}

/// Parses the elements of a sequence attribute from `pos`, after `[` and
/// the elements already in `acc`.
pub fn parse_list(ctx: &mut Context, s: &Vec<char>, pos: usize, acc: Vec<AttrObj>) -> (r: Result<(Vec<AttrObj>, usize), ParseError>)
    requires
        old(ctx).wf(),
        pos <= s@.len(),
    ensures
        final(ctx).wf(),
        final(ctx).dialects_view() == old(ctx).dialects_view(),
        final(ctx).attr_parsers_view() == old(ctx).attr_parsers_view(),
        final(ctx).type_parsers_view() == old(ctx).type_parsers_view(),
        final(ctx).attr_interfaces_view() == old(ctx).attr_interfaces_view(),
        final(ctx).op_interfaces_view() == old(ctx).op_interfaces_view(),
        agrees_list(r, p_list(old(ctx).registry(), old(ctx).types_view(), s@, pos as nat, vals_of(acc@)).0),
        r matches Err(e) ==> e.pos <= s@.len(),
        final(ctx).types_view() == p_list(old(ctx).registry(), old(ctx).types_view(), s@, pos as nat, vals_of(acc@)).1,
        r matches Ok((_, n)) ==> n <= s@.len(),
    decreases s@.len() - pos, 3nat,
{
    proof {
        lemma_vals_len(acc@);
    }
    let mut acc = acc;
    if acc.len() == 0 && pos < s.len() && s[pos] == ']' {
        return Ok((acc, pos + 1));
    }
    let (v, next) = parse_attr_at(ctx, s, pos)?;
    let q = skip_ws_at(s, next);
    if next <= pos || q > s.len() {
        return err(pos, msg_of("Expected attribute"));
    }
    let ghost before = acc@;
    acc.push(v);
    assert(acc@.drop_last() =~= before);
    if q < s.len() && s[q] == ']' {
        return Ok((acc, q + 1));
    }
    if q < s.len() && s[q] == ',' {
        let q2 = skip_ws_at(s, q + 1);
        if q2 <= pos || q2 > s.len() {
            return err(pos, msg_of("Expected attribute"));
        }
        return parse_list(ctx, s, q2, acc);
    }
    err(q, msg_of("Expected `,` or `]`"))
}

/// Parses an attribute at `pos`: a qualified identifier of a registered
/// dialect, then the payload that the kind's registered routine reads.
pub fn parse_attr_at(ctx: &mut Context, s: &Vec<char>, pos: usize) -> (r: Result<(AttrObj, usize), ParseError>)
    requires
        old(ctx).wf(),
        pos <= s@.len(),
    ensures
        final(ctx).wf(),
        final(ctx).dialects_view() == old(ctx).dialects_view(),
        final(ctx).attr_parsers_view() == old(ctx).attr_parsers_view(),
        final(ctx).type_parsers_view() == old(ctx).type_parsers_view(),
        final(ctx).attr_interfaces_view() == old(ctx).attr_interfaces_view(),
        final(ctx).op_interfaces_view() == old(ctx).op_interfaces_view(),
        agrees_attr(r, p_attr(old(ctx).registry(), old(ctx).types_view(), s@, pos as nat).0),
        r matches Err(e) ==> e.pos <= s@.len(),
        final(ctx).types_view() == p_attr(old(ctx).registry(), old(ctx).types_view(), s@, pos as nat).1,
        r matches Ok((_, n)) ==> n <= s@.len(),
    decreases s@.len() - pos, 2nat,
{
    let ((d, e), next) = parse_qid(ctx, s, pos)?;
    let id = qid_of(s, pos, d, e);
    match table_lookup(&ctx.attr_parsers, &id) {
        None => {
            let mut m = msg_of("Unregistered attribute ");
            push_chars(&mut m, &slice_chars(s, pos, e));
            err(pos, m)
        },
        Some(AttrParser::Unit) => Ok((AttrObj::Unit(UnitAttr), next)),
        Some(k) => {
            let q = skip_ws_at(s, next);
            if q <= pos || q > s.len() {
                return err(pos, msg_of("Expected attribute"));
            }
            parse_payload(ctx, k, s, q)
        },
    }
}

} // verus!
verus! {

/// One more than `n`, held at the largest 64-bit value.
pub open spec fn incr(n: nat) -> nat {
    if n < u64::MAX { n + 1 } else { n }
}

/// The line and column (both from one, held at the largest 64-bit value)
/// of position `pos` in `s`.
pub open spec fn line_col(s: Seq<char>, pos: nat) -> (nat, nat)
    decreases pos,
{
    if pos == 0 {
        (1, 1)
    } else {
        let (l, c) = line_col(s, (pos - 1) as nat);
        if (pos - 1) < s.len() && s[pos - 1] == '\n' {
            (incr(l), 1)
        } else {
            (l, incr(c))
        }
    }
}

/// The line and column (both from one) of position `pos` in `s`.
pub fn line_col_at(s: &Vec<char>, pos: usize) -> (r: (u64, u64))
    requires
        pos <= s@.len(),
    ensures
        r.0 as nat == line_col(s@, pos as nat).0,
        r.1 as nat == line_col(s@, pos as nat).1,
{
    let mut l: u64 = 1;
    let mut c: u64 = 1;
    let mut i: usize = 0;
    while i < pos
        invariant
            i <= pos <= s@.len(),
            l as nat == line_col(s@, i as nat).0,
            c as nat == line_col(s@, i as nat).1,
        decreases pos - i,
    {
        if s[i] == '\n' {
            if l < u64::MAX {
                l = l + 1;
            }
            c = 1;
        } else {
            if c < u64::MAX {
                c = c + 1;
            }
        }
        i = i + 1;
    }
    (l, c)
}

/// Whether `e` is the error for a parse failure at `at` in `s` with
/// message `msg`: invalid input, located at that line and column of text
/// held in memory.
pub open spec fn input_error_at(e: Error, s: Seq<char>, at: nat, msg: Seq<char>) -> bool {
    &&& e.kind == ErrorKind::InvalidInput
    &&& e.err matches ErrorCause::Message(m) && m.0@ == msg
    &&& e.loc == (Location::SrcPos {
        src: Source::InMemory,
        line: line_col(s, at).0 as u64,
        column: line_col(s, at).1 as u64,
    })
}

fn input_error(s: &Vec<char>, e: ParseError) -> (r: Error)
    requires
        e.pos <= s@.len(),
    ensures
        input_error_at(r, s@, e.pos as nat, e.msg@),
{
    let (l, c) = line_col_at(s, e.pos);
    Error::with_message(
        ErrorKind::InvalidInput,
        string_of(&e.msg),
        Location::SrcPos { src: Source::InMemory, line: l, column: c },
    )
}

/// The outcome of parsing all of `s` as one attribute: the attribute's
/// parse, then nothing but blanks.
pub open spec fn p_attr_text(ctx: Context, s: Seq<char>) -> Parsed<AttrVal> {
    match p_attr(ctx.registry(), ctx.types_view(), s, 0).0 {
        Parsed::Fail { at, msg } => fail(at, msg),
        Parsed::Done { val, next } => if skip_ws(s, next) == s.len() {
            Parsed::Done { val, next: s.len() }
        } else {
            fail(skip_ws(s, next), "Unexpected trailing input"@)
        },
    }
}

/// Parses all of `text` as one attribute. Types that it names are interned
/// in `ctx`; a failure is an `InvalidInput` error at the line and column
/// where the innermost parse step failed.
pub fn parse_attr(ctx: &mut Context, text: &str) -> (r: Result<AttrObj, Error>)
    requires
        old(ctx).wf(),
    ensures
        final(ctx).wf(),
        final(ctx).dialects_view() == old(ctx).dialects_view(),
        final(ctx).attr_parsers_view() == old(ctx).attr_parsers_view(),
        final(ctx).type_parsers_view() == old(ctx).type_parsers_view(),
        final(ctx).attr_interfaces_view() == old(ctx).attr_interfaces_view(),
        final(ctx).op_interfaces_view() == old(ctx).op_interfaces_view(),
        final(ctx).types_view() == p_attr(old(ctx).registry(), old(ctx).types_view(), text@, 0).1,
        match p_attr_text(*old(ctx), text@) {
            Parsed::Done { val, next: _ } => r matches Ok(a) && attr_val(a) == val,
            Parsed::Fail { at, msg } => r matches Err(e) && input_error_at(e, text@, at, msg),
        },
{
    let s = crate::text::chars_of(text);
    let r = parse_attr_at(ctx, &s, 0);
    match r {
        Err(e) => Err(input_error(&s, e)),
        Ok((a, next)) => {
            let q = skip_ws_at(&s, next);
            if q == s.len() {
                Ok(a)
            } else {
                Err(input_error(&s, ParseError { pos: q, msg: msg_of("Unexpected trailing input") }))
            }
        },
    }
}

impl DialectName {
    /// Parses the name of a registered dialect at the start of `text`,
    /// leaving what follows it; gives the name and the position where it
    /// ends. A failure is an `InvalidInput` error located where the name
    /// starts (or where no identifier starts).
    pub fn parse(ctx: &Context, text: &str) -> (r: Result<(DialectName, usize), Error>)
        requires
            ctx.wf(),
        ensures
            match p_dialect(ctx.registry(), text@, 0) {
                Parsed::Done { val: e, next: _ } => r matches Ok((d, n)) && n == e && d@ == text@.subrange(0, e as int),
                Parsed::Fail { at, msg } => r matches Err(er) && input_error_at(er, text@, at, msg),
            },
    {
        let s = crate::text::chars_of(text);
        match parse_dialect(ctx, &s, 0) {
            Err(e) => Err(input_error(&s, e)),
            Ok((e, _)) => Ok((DialectName(string_of(&slice_chars(&s, 0, e))), e)),
        }
    }
}

} // verus!
