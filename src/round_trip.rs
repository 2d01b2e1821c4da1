//! Printing then parsing gives back the value printed.
use vstd::prelude::*;
use crate::apint::{apint_valid, all_digits, digit_value, digits_value, has_sign, is_digit, numeral_bits, numeral_parts, pow2, bits_text};
use crate::attribute::AttrObj;
use crate::attr_interfaces::int_attr_ok;
use crate::builtin_attributes::{DictAttr, VecAttr, IdentifierAttr, IntegerAttr, StringAttr, TypeAttr, UnitAttr, builtin_ready};
use crate::llvm_attributes::{ICmpPredicateAttr, IntegerOverflowFlagsAttr, llvm_ready};
use crate::context::{Context, Registry, intern, lemma_find_type};
use crate::identifier::{Identifier, is_id_char, is_id_start, is_identifier};
use crate::parser::{AttrVal, Parsed, p_int_attr, lemma_vals_len, p_list, vals_of, dict_vals, p_dict, flags_of, icmp_of, p_ident, attr_val, digit_run, id_run, is_numeral_char, numeral_run, p_attr, p_attr_text, p_int_type, p_qid, p_string, scan_string, skip_ws};
use crate::printer::{attr_kind, int_payload, list_text, attr_text, dict_text, flags_text, icmp_text, escape, escape_char, int_type_text, quoted, signedness_text, type_text};
use crate::text::{decimal, digit_char};
use crate::types::{IntegerType, Signedness, TypeObj, TypePtr};

verus! {

/// The decimal digits of `n` are digits, at least one, and spell `n`.
pub proof fn lemma_decimal(n: nat)
    ensures
        decimal(n).len() >= 1,
        all_digits(decimal(n)),
        digits_value(decimal(n)) == n,
    decreases n,
{
    if n < 10 {
        assert(decimal(n).drop_last() =~= Seq::<char>::empty());
        assert(digit_value(digit_char(n)) == n);
        assert(decimal(n).last() == digit_char(n));
        assert(digits_value(Seq::<char>::empty()) == 0);
        assert(digits_value(decimal(n)) == digits_value(decimal(n).drop_last()) * 10 + digit_value(decimal(n).last()));
    } else {
        lemma_decimal(n / 10);
        assert(decimal(n).drop_last() =~= decimal(n / 10));
        assert(digit_value(digit_char(n % 10)) == n % 10);
        assert(decimal(n).last() == digit_char(n % 10));
        assert(digits_value(decimal(n)) == digits_value(decimal(n).drop_last()) * 10 + digit_value(decimal(n).last()));
        assert((n / 10) * 10 + n % 10 == n) by {
            vstd::arithmetic::div_mod::lemma_fundamental_div_mod(n as int, 10);
        }
        assert forall|i: int| 0 <= i < decimal(n).len() implies is_digit(#[trigger] decimal(n)[i]) by {
            if i < decimal(n).len() - 1 {
                assert(decimal(n)[i] == decimal(n / 10)[i]);
            }
        }
    }
}

/// A run of identifier characters from `pos` ends at `e`.
pub proof fn lemma_id_run(s: Seq<char>, pos: nat, e: nat)
    requires
        pos <= e <= s.len(),
        forall|j: int| pos <= j < e ==> is_id_char(#[trigger] s[j]),
        e == s.len() || !is_id_char(s[e as int]),
    ensures
        id_run(s, pos) == e,
    decreases e - pos,
{
    if pos < e {
        lemma_id_run(s, pos + 1, e);
    }
}

/// A run of digits from `pos` ends at `e`.
pub proof fn lemma_digit_run(s: Seq<char>, pos: nat, e: nat)
    requires
        pos <= e <= s.len(),
        forall|j: int| pos <= j < e ==> is_digit(#[trigger] s[j]),
        e == s.len() || !is_digit(s[e as int]),
    ensures
        digit_run(s, pos) == e,
    decreases e - pos,
{
    if pos < e {
        lemma_digit_run(s, pos + 1, e);
    }
}

/// A run of numeral characters from `pos` ends at `e`.
pub proof fn lemma_numeral_run(s: Seq<char>, pos: nat, e: nat)
    requires
        pos <= e <= s.len(),
        forall|j: int| pos <= j < e ==> is_numeral_char(#[trigger] s[j]),
        e == s.len() || !is_numeral_char(s[e as int]),
    ensures
        numeral_run(s, pos) == e,
    decreases e - pos,
{
    if pos < e {
        lemma_numeral_run(s, pos + 1, e);
    }
}

/// A qualified identifier at `pos`, followed by a character that ends it.
pub proof fn lemma_qid(ctx: Context, text: Seq<char>, pos: nat, dn: Seq<char>, nm: Seq<char>)
    requires
        pos + dn.len() + 1 + nm.len() <= text.len(),
        text.subrange(pos as int, (pos + dn.len()) as int) == dn,
        text[(pos + dn.len()) as int] == '.',
        text.subrange((pos + dn.len() + 1) as int, (pos + dn.len() + 1 + nm.len()) as int) == nm,
        pos + dn.len() + 1 + nm.len() == text.len() || !is_id_char(text[(pos + dn.len() + 1 + nm.len()) as int]),
        is_identifier(dn),
        is_identifier(nm),
        ctx.has_dialect(dn),
    ensures
        p_qid(ctx.registry(), text, pos) == (Parsed::Done {
            val: (pos + dn.len(), pos + dn.len() + 1 + nm.len()),
            next: pos + dn.len() + 1 + nm.len(),
        }),
{
    let d = pos + dn.len();
    let e = d + 1 + nm.len();
    ctx.lemma_registry_has_dialect(dn);
    assert(text[pos as int] == dn[0]);
    assert forall|j: int| pos + 1 <= j < d implies is_id_char(#[trigger] text[j]) by {
        assert(text[j] == dn[j - pos]);
    }
    lemma_id_run(text, pos + 1, d);
    assert(text[d + 1int] == nm[0]);
    assert(text[d as int] == '.');
    assert forall|j: int| d + 2 <= j < e implies is_id_char(#[trigger] text[j]) by {
        assert(text[j] == nm[j - d - 1]);
    }
    lemma_id_run(text, d + 2, e);
}

/// The escaped body of a non-empty string starts with its first
/// character's escape.
pub proof fn lemma_escape_front(x: Seq<char>)
    requires
        x.len() > 0,
    ensures
        escape(x) == escape_char(x[0]) + escape(x.drop_first()),
    decreases x.len(),
{
    if x.len() == 1 {
        assert(x.drop_last() =~= Seq::<char>::empty());
        assert(x.drop_first() =~= Seq::<char>::empty());
        assert(escape(x) =~= escape_char(x[0]) + escape(x.drop_first()));
    } else {
        lemma_escape_front(x.drop_last());
        assert(x.drop_last().drop_first() =~= x.drop_first().drop_last());
        assert(x.drop_first().last() == x.last());
        assert(escape(x) =~= escape_char(x[0]) + escape(x.drop_first()));
    }
}

/// Scanning an escaped body and its closing quote gives back the body.
pub proof fn lemma_scan_escaped(s: Seq<char>, pos: nat, acc: Seq<char>, x: Seq<char>)
    requires
        pos + escape(x).len() < s.len(),
        s.subrange(pos as int, (pos + escape(x).len()) as int) == escape(x),
        s[(pos + escape(x).len()) as int] == '"',
    ensures
        scan_string(s, pos, acc) == (Parsed::Done { val: acc + x, next: pos + escape(x).len() + 1 }),
    decreases x.len(),
{
    reveal_strlit("\\\\");
    reveal_strlit("\\\"");
    if x.len() == 0 {
        assert(acc + x =~= acc);
    } else {
        lemma_escape_front(x);
        let c = x[0];
        let k = escape_char(c).len();
        let rest = x.drop_first();
        assert(s[pos as int] == escape(x)[0]);
        assert(s.subrange((pos + k) as int, (pos + k + escape(rest).len()) as int) =~= escape(rest)) by {
            assert forall|j: int| 0 <= j < escape(rest).len() implies s[pos + k + j] == escape(rest)[j] by {
                assert(s[pos + k + j] == s.subrange(pos as int, (pos + escape(x).len()) as int)[k + j]);
            }
        }
        if c == '\\' || c == '"' {
            assert(s[pos + 1int] == escape(x)[1]);
        }
        lemma_scan_escaped(s, pos + k, acc.push(c), rest);
        assert(acc.push(c) + rest =~= acc + x);
    }
}

/// Whether printing `a` and parsing the text back gives a value that is
/// equal to `a`, interns no new type, and prints to the same text.
pub open spec fn round_trips(ctx: Context, a: AttrObj) -> bool {
    let text = attr_text(ctx.types_view(), a);
    &&& p_attr_text(ctx, text) == (Parsed::Done { val: attr_val(a), next: text.len() })
    &&& p_attr(ctx.registry(), ctx.types_view(), text, 0).1 == ctx.types_view()
    &&& forall|b: AttrObj| attr_val(b) == attr_val(a) ==> attr_text(ctx.types_view(), b) == text
}

/// The name `builtin` and the kind names that follow it are identifiers.
proof fn lemma_builtin_names()
    ensures
        is_identifier("builtin"@),
        is_identifier("string"@),
        is_identifier("integer"@),
        is_identifier("type"@),
{
    reveal_strlit("builtin");
    reveal_strlit("string");
    reveal_strlit("integer");
    reveal_strlit("type");
    assert(forall|i: int| 1 <= i < "builtin"@.len() ==> is_id_char(#[trigger] "builtin"@[i]));
    assert(forall|i: int| 1 <= i < "string"@.len() ==> is_id_char(#[trigger] "string"@[i]));
    assert(forall|i: int| 1 <= i < "integer"@.len() ==> is_id_char(#[trigger] "integer"@[i]));
    assert(forall|i: int| 1 <= i < "type"@.len() ==> is_id_char(#[trigger] "type"@[i]));
}

/// A string attribute prints to text that parses back to it.
pub proof fn lemma_round_trip_string(ctx: Context, a: StringAttr)
    requires
        builtin_ready(ctx),
    ensures
        round_trips(ctx, AttrObj::Str(a)),
{
    reveal_strlit(" ");
    reveal_strlit(".");
    reveal_strlit("\"");
    reveal_strlit("builtin");
    reveal_strlit("string");
    lemma_builtin_names();
    let x = a.value_spec();
    let types = ctx.types_view();
    let obj = AttrObj::Str(a);
    let text = attr_text(types, obj);
    let rest = " "@ + quoted(x);
    assert(text =~= "builtin"@ + "."@ + "string"@ + rest);
    assert(text.subrange(0, 7) =~= "builtin"@);
    assert(text.subrange(8, 14) =~= "string"@);
    lemma_qid(ctx, text, 0, "builtin"@, "string"@);
    let esc = escape(x);
    assert(text.len() == 16 + esc.len() + 1);
    assert(text[14] == ' ');
    assert(text[15] == '"');
    assert(skip_ws(text, 15) == 15);
    assert(skip_ws(text, 14) == 15);
    assert(text.subrange(16, (16 + esc.len()) as int) =~= esc);
    assert(text[(16 + esc.len()) as int] == '"');
    lemma_scan_escaped(text, 16, Seq::<char>::empty(), x);
    assert(Seq::<char>::empty() + x =~= x);
    assert(p_string(text, 15) == (Parsed::Done { val: x, next: text.len() }));
    assert(skip_ws(text, text.len()) == text.len());
    assert forall|b: AttrObj| attr_val(b) == attr_val(obj) implies attr_text(types, b) == text by {
        assert(b is Str);
    }
}

/// The decimal text of a bit pattern is a numeral that denotes it.
pub proof fn lemma_bits_text(b: nat, w: nat, signed: bool)
    requires
        1 <= w,
        b < pow2(w),
    ensures
        bits_text(b, w, signed).len() >= 1,
        forall|j: int| 0 <= j < bits_text(b, w, signed).len() ==> is_numeral_char(#[trigger] bits_text(b, w, signed)[j]),
        numeral_bits(bits_text(b, w, signed), w) == Some(b),
{
    reveal_strlit("-");
    let half = pow2((w - 1) as nat);
    assert(pow2(w) == 2 * half);
    let bt = bits_text(b, w, signed);
    if signed && b >= half {
        let m = (pow2(w) - b) as nat;
        lemma_decimal(m);
        assert(bt == "-"@ + decimal(m));
        assert(bt.drop_first() =~= decimal(m));
        assert(has_sign(bt));
        assert forall|j: int| 0 <= j < bt.len() implies is_numeral_char(#[trigger] bt[j]) by {
            if j > 0 {
                assert(bt[j] == decimal(m)[j - 1]);
            }
        }
        assert(numeral_parts(bt) == Some((true, decimal(m))));
    } else {
        lemma_decimal(b);
        assert(bt == decimal(b));
        assert(is_digit(bt[0]));
        assert(!has_sign(bt));
        assert(numeral_parts(bt) == Some((false, decimal(b))));
    }
}

/// The payload of an integer type parses back to that type.
pub proof fn lemma_int_type_parse(text: Seq<char>, p: nat, t: IntegerType)
    requires
        p + int_type_text(t).len() <= text.len(),
        text.subrange(p as int, (p + int_type_text(t).len()) as int) == int_type_text(t),
        p + int_type_text(t).len() == text.len() || !is_digit(text[(p + int_type_text(t).len()) as int]),
    ensures
        p_int_type(text, p) == (Parsed::Done { val: t, next: p + int_type_text(t).len() }),
{
    reveal_strlit("si");
    reveal_strlit("ui");
    reveal_strlit("i");
    let it = int_type_text(t);
    let k = signedness_text(t.signedness).len();
    let dw = decimal(t.width as nat);
    lemma_decimal(t.width as nat);
    let e = p + it.len();
    assert(it == signedness_text(t.signedness) + dw);
    assert forall|j: int| 0 <= j < it.len() implies text[p + j] == it[j] by {
        assert(text.subrange(p as int, e as int)[j] == text[p + j]);
    }
    assert forall|j: int| p + k <= j < e implies is_digit(#[trigger] text[j]) by {
        assert(text[j] == it[j - p]);
        assert(it[j - p] == dw[j - p - k]);
    }
    lemma_digit_run(text, p + k, e);
    assert forall|j: int| 0 <= j < dw.len() implies text.subrange((p + k) as int, e as int)[j] == dw[j] by {
        assert(text[p + k + j] == it[k + j]);
    }
    assert(text.subrange((p + k) as int, e as int) =~= dw);
    assert(text[p as int] == it[0]);
    if k == 2 {
        assert(text[p + 1int] == it[1]);
    }
}

/// The payload of an integer type starts with `s`, `u` or `i`.
pub proof fn lemma_int_type_text_first(t: IntegerType)
    ensures
        int_type_text(t).len() >= 1,
        int_type_text(t)[0] == 's' || int_type_text(t)[0] == 'u' || int_type_text(t)[0] == 'i',
{
    reveal_strlit("si");
    reveal_strlit("ui");
    reveal_strlit("i");
    lemma_decimal(t.width as nat);
    assert(int_type_text(t)[0] == signedness_text(t.signedness)[0]);
}

/// Interning a type that the table holds gives its handle and leaves the
/// table as it was.
pub proof fn lemma_intern_existing(types: Seq<TypeObj>, ty: TypePtr)
    requires
        ty.index < types.len(),
        forall|a: int, b: int| 0 <= a < b < types.len() ==> #[trigger] types[a] != #[trigger] types[b],
    ensures
        intern(types, types[ty.index as int]) == (types, ty),
{
    lemma_find_type(types, types[ty.index as int]);
}

/// A verified integer attribute prints to text that parses back to it.
#[verifier::rlimit(80)]
pub proof fn lemma_round_trip_integer(ctx: Context, a: IntegerAttr)
    requires
        ctx.wf(),
        builtin_ready(ctx),
        int_attr_ok(ctx.types_view(), a),
        apint_valid(a.val_spec()),
    ensures
        round_trips(ctx, AttrObj::Int(a)),
{
    reveal_strlit(" ");
    reveal_strlit(".");
    reveal_strlit("<");
    reveal_strlit(">");
    reveal_strlit(": ");
    reveal_strlit("builtin");
    reveal_strlit("integer");
    lemma_builtin_names();
    let types = ctx.types_view();
    let obj = AttrObj::Int(a);
    let ty = a.ty_spec();
    let t = types[ty.index as int]->Integer_0;
    let w = t.width as nat;
    let b = a.val_spec().bits_spec();
    let signed = t.signedness == Signedness::Signed;
    let bt = bits_text(b, w, signed);
    let it = int_type_text(t);
    lemma_bits_text(b, w, signed);
    lemma_int_type_text_first(t);
    let text = attr_text(types, obj);
    assert(text =~= "builtin"@ + "."@ + "integer"@ + " "@ + "<"@ + bt + ": "@ + it + ">"@);
    let l: int = bt.len() as int;
    let m: int = it.len() as int;
    assert(text.len() == 20 + l + m);
    assert(text.subrange(0, 7) =~= "builtin"@);
    assert(text.subrange(8, 15) =~= "integer"@);
    lemma_qid(ctx, text, 0, "builtin"@, "integer"@);
    assert(text[15] == ' ');
    assert(text[16] == '<');
    assert(skip_ws(text, 16) == 16);
    assert(skip_ws(text, 15) == 16);
    assert(text[17] == bt[0]);
    assert(skip_ws(text, 17) == 17);
    assert forall|j: int| 17 <= j < 17 + l implies is_numeral_char(#[trigger] text[j]) by {
        assert(text[j] == bt[j - 17]);
    }
    assert(text[17 + l] == ':');
    lemma_numeral_run(text, 17, (17 + l) as nat);
    assert(skip_ws(text, (17 + l) as nat) == 17 + l);
    assert(text[18 + l] == ' ');
    assert(text[19 + l] == it[0]);
    assert(skip_ws(text, (19 + l) as nat) == 19 + l);
    assert(skip_ws(text, (18 + l) as nat) == 19 + l);
    assert(text.subrange(19 + l, 19 + l + m) =~= it);
    assert(text[19 + l + m] == '>');
    lemma_int_type_parse(text, (19 + l) as nat, t);
    assert(skip_ws(text, (19 + l + m) as nat) == 19 + l + m);
    assert(text.subrange(17, 17 + l) =~= bt);
    lemma_intern_existing(types, ty);
    assert(skip_ws(text, text.len()) == text.len());
    assert forall|c: AttrObj| attr_val(c) == attr_val(obj) implies attr_text(types, c) == text by {
        assert(c is Int);
    }
}

/// A type attribute that holds an integer type prints to text that parses
/// back to it.
pub proof fn lemma_round_trip_type(ctx: Context, a: TypeAttr)
    requires
        ctx.wf(),
        builtin_ready(ctx),
        a.ty_spec().index < ctx.types_view().len(),
        ctx.types_view()[a.ty_spec().index as int] is Integer,
    ensures
        round_trips(ctx, AttrObj::Type(a)),
{
    reveal_strlit(" ");
    reveal_strlit(".");
    reveal_strlit("builtin");
    reveal_strlit("integer");
    reveal_strlit("type");
    reveal_strlit("builtin.integer ");
    lemma_builtin_names();
    let types = ctx.types_view();
    let obj = AttrObj::Type(a);
    let ty = a.ty_spec();
    let t = types[ty.index as int]->Integer_0;
    let it = int_type_text(t);
    lemma_int_type_text_first(t);
    let text = attr_text(types, obj);
    assert(type_text(types, ty) == "builtin.integer "@ + it);
    assert(text =~= "builtin"@ + "."@ + "type"@ + " "@ + "builtin"@ + "."@ + "integer"@ + " "@ + it);
    let m: int = it.len() as int;
    assert(text.len() == 29 + m);
    assert(text.subrange(0, 7) =~= "builtin"@);
    assert(text.subrange(8, 12) =~= "type"@);
    lemma_qid(ctx, text, 0, "builtin"@, "type"@);
    assert(text[12] == ' ');
    assert(text[13] == 'b');
    assert(skip_ws(text, 13) == 13);
    assert(skip_ws(text, 12) == 13);
    assert(text.subrange(13, 20) =~= "builtin"@);
    assert(text.subrange(21, 28) =~= "integer"@);
    lemma_qid(ctx, text, 13, "builtin"@, "integer"@);
    assert(text[28] == ' ');
    assert(text[29] == it[0]);
    assert(skip_ws(text, 29) == 29);
    assert(skip_ws(text, 28) == 29);
    assert(text.subrange(29, 29 + m) =~= it);
    lemma_int_type_parse(text, 29, t);
    lemma_intern_existing(types, ty);
    assert(skip_ws(text, text.len()) == text.len());
    assert forall|c: AttrObj| attr_val(c) == attr_val(obj) implies attr_text(types, c) == text by {
        assert(c is Type);
    }
}

/// Every comparison predicate's printed word names it.
pub proof fn lemma_icmp_text(p: ICmpPredicateAttr)
    ensures
        icmp_of(icmp_text(p)) == Some(p),
        is_identifier(icmp_text(p)),
{
    reveal_strlit("eq");
    reveal_strlit("ne");
    reveal_strlit("slt");
    reveal_strlit("sle");
    reveal_strlit("sgt");
    reveal_strlit("sge");
    reveal_strlit("ult");
    reveal_strlit("ule");
    reveal_strlit("ugt");
    reveal_strlit("uge");
    assert("eq"@.len() == 2);
    assert("eq"@[0] == 'e');
    assert("eq"@[1] == 'q');
    assert("ne"@.len() == 2);
    assert("ne"@[0] == 'n');
    assert("ne"@[1] == 'e');
    assert("slt"@.len() == 3);
    assert("slt"@[0] == 's');
    assert("slt"@[1] == 'l');
    assert("slt"@[2] == 't');
    assert("sle"@.len() == 3);
    assert("sle"@[0] == 's');
    assert("sle"@[1] == 'l');
    assert("sle"@[2] == 'e');
    assert("sgt"@.len() == 3);
    assert("sgt"@[0] == 's');
    assert("sgt"@[1] == 'g');
    assert("sgt"@[2] == 't');
    assert("sge"@.len() == 3);
    assert("sge"@[0] == 's');
    assert("sge"@[1] == 'g');
    assert("sge"@[2] == 'e');
    assert("ult"@.len() == 3);
    assert("ult"@[0] == 'u');
    assert("ult"@[1] == 'l');
    assert("ult"@[2] == 't');
    assert("ule"@.len() == 3);
    assert("ule"@[0] == 'u');
    assert("ule"@[1] == 'l');
    assert("ule"@[2] == 'e');
    assert("ugt"@.len() == 3);
    assert("ugt"@[0] == 'u');
    assert("ugt"@[1] == 'g');
    assert("ugt"@[2] == 't');
    assert("uge"@.len() == 3);
    assert("uge"@[0] == 'u');
    assert("uge"@[1] == 'g');
    assert("uge"@[2] == 'e');
    let t = icmp_text(p);
    assert(forall|i: int| 1 <= i < t.len() ==> is_id_char(#[trigger] t[i]));
}

/// Every set of overflow flags' printed word names it.
pub proof fn lemma_flags_text(f: IntegerOverflowFlagsAttr)
    ensures
        flags_of(flags_text(f)) == Some(f),
        is_identifier(flags_text(f)),
{
    reveal_strlit("none");
    reveal_strlit("nsw");
    reveal_strlit("nuw");
    assert("none"@.len() == 4);
    assert("none"@[0] == 'n');
    assert("none"@[1] == 'o');
    assert("none"@[2] == 'n');
    assert("none"@[3] == 'e');
    assert("nsw"@.len() == 3);
    assert("nsw"@[0] == 'n');
    assert("nsw"@[1] == 's');
    assert("nsw"@[2] == 'w');
    assert("nuw"@.len() == 3);
    assert("nuw"@[0] == 'n');
    assert("nuw"@[1] == 'u');
    assert("nuw"@[2] == 'w');
    let t = flags_text(f);
    assert(forall|i: int| 1 <= i < t.len() ==> is_id_char(#[trigger] t[i]));
}

/// A string literal parses back to the string it was printed from, whatever
/// text follows it.
pub proof fn lemma_string_literal(x: Seq<char>, rest: Seq<char>)
    ensures
        p_string(quoted(x) + rest, 0) == (Parsed::Done { val: x, next: quoted(x).len() }),
{
    reveal_strlit("\"");
    let text = quoted(x) + rest;
    let esc = escape(x);
    assert(text[0] == '"');
    assert(text.subrange(1, (1 + esc.len()) as int) =~= esc);
    assert(text[(1 + esc.len()) as int] == '"');
    lemma_scan_escaped(text, 1, Seq::<char>::empty(), x);
    assert(Seq::<char>::empty() + x =~= x);
}

/// A word payload after a qualified identifier and one space: the parse
/// of the identifier and of the space, and the word running to the end.
proof fn lemma_word_payload(ctx: Context, text: Seq<char>, dn: Seq<char>, nm: Seq<char>, w: Seq<char>)
    requires
        text == dn + "."@ + nm + " "@ + w,
        is_identifier(dn),
        is_identifier(nm),
        is_identifier(w),
        ctx.has_dialect(dn),
    ensures
        p_qid(ctx.registry(), text, 0) == (Parsed::Done { val: (dn.len(), dn.len() + 1 + nm.len()), next: dn.len() + 1 + nm.len() }),
        text.subrange(0, dn.len() as int) == dn,
        text.subrange(dn.len() + 1int, (dn.len() + 1 + nm.len()) as int) == nm,
        skip_ws(text, dn.len() + 1 + nm.len()) == dn.len() + 2 + nm.len(),
        p_ident(text, dn.len() + 2 + nm.len()) == (Parsed::Done { val: text.len(), next: text.len() }),
        text.subrange((dn.len() + 2 + nm.len()) as int, text.len() as int) == w,
        skip_ws(text, text.len()) == text.len(),
{
    reveal_strlit(".");
    reveal_strlit(" ");
    let a = dn.len() + 1 + nm.len();
    assert(text.subrange(0, dn.len() as int) =~= dn);
    assert(text.subrange(dn.len() + 1int, a as int) =~= nm);
    assert(text[a as int] == ' ');
    lemma_qid(ctx, text, 0, dn, nm);
    assert(text[a + 1int] == w[0]);
    assert(skip_ws(text, a + 1) == a + 1);
    assert forall|j: int| a + 2 <= j < text.len() implies is_id_char(#[trigger] text[j]) by {
        assert(text[j] == w[j - a - 1]);
    }
    lemma_id_run(text, a + 2, text.len());
    assert(text.subrange((a + 1) as int, text.len() as int) =~= w);
}

/// A unit attribute prints to text that parses back to it.
pub proof fn lemma_round_trip_unit(ctx: Context, a: UnitAttr)
    requires
        builtin_ready(ctx),
    ensures
        round_trips(ctx, AttrObj::Unit(a)),
{
    reveal_strlit(".");
    reveal_strlit("builtin");
    reveal_strlit("unit");
    lemma_builtin_names();
    assert(is_identifier("unit"@)) by {
        assert(forall|i: int| 1 <= i < "unit"@.len() ==> is_id_char(#[trigger] "unit"@[i]));
    }
    let types = ctx.types_view();
    let obj = AttrObj::Unit(a);
    let text = attr_text(types, obj);
    assert(text =~= "builtin"@ + "."@ + "unit"@);
    assert(text.subrange(0, 7) =~= "builtin"@);
    assert(text.subrange(8, 12) =~= "unit"@);
    lemma_qid(ctx, text, 0, "builtin"@, "unit"@);
    assert(skip_ws(text, text.len()) == text.len());
    assert forall|c: AttrObj| attr_val(c) == attr_val(obj) implies attr_text(types, c) == text by {
        assert(c is Unit);
    }
}

/// An identifier attribute prints to text that parses back to it.
pub proof fn lemma_round_trip_identifier(ctx: Context, a: IdentifierAttr)
    requires
        builtin_ready(ctx),
        is_identifier(a.value_spec()),
    ensures
        round_trips(ctx, AttrObj::Ident(a)),
{
    reveal_strlit("builtin");
    reveal_strlit("identifier");
    lemma_builtin_names();
    assert(is_identifier("identifier"@)) by {
        assert(forall|i: int| 1 <= i < "identifier"@.len() ==> is_id_char(#[trigger] "identifier"@[i]));
    }
    let types = ctx.types_view();
    let obj = AttrObj::Ident(a);
    let text = attr_text(types, obj);
    assert(text =~= "builtin"@ + "."@ + "identifier"@ + " "@ + a.value_spec());
    lemma_word_payload(ctx, text, "builtin"@, "identifier"@, a.value_spec());
    assert forall|c: AttrObj| attr_val(c) == attr_val(obj) implies attr_text(types, c) == text by {
        assert(c is Ident);
    }
}

/// Overflow flags print to text that parses back to them.
pub proof fn lemma_round_trip_flags(ctx: Context, f: IntegerOverflowFlagsAttr)
    requires
        ctx.has_dialect("llvm"@),
        llvm_ready(ctx),
    ensures
        round_trips(ctx, AttrObj::OverflowFlags(f)),
{
    reveal_strlit("llvm");
    reveal_strlit("integer_overlflow_flags");
    assert(is_identifier("llvm"@)) by {
        assert(forall|i: int| 1 <= i < "llvm"@.len() ==> is_id_char(#[trigger] "llvm"@[i]));
    }
    assert(is_identifier("integer_overlflow_flags"@)) by {
        assert(forall|i: int| 1 <= i < "integer_overlflow_flags"@.len() ==> is_id_char(#[trigger] "integer_overlflow_flags"@[i]));
    }
    lemma_flags_text(f);
    let types = ctx.types_view();
    let obj = AttrObj::OverflowFlags(f);
    let text = attr_text(types, obj);
    assert(text =~= "llvm"@ + "."@ + "integer_overlflow_flags"@ + " "@ + flags_text(f));
    lemma_word_payload(ctx, text, "llvm"@, "integer_overlflow_flags"@, flags_text(f));
    assert forall|c: AttrObj| attr_val(c) == attr_val(obj) implies attr_text(types, c) == text by {
        assert(c is OverflowFlags);
    }
}

/// A comparison predicate prints to text that parses back to it.
#[verifier::rlimit(40)]
pub proof fn lemma_round_trip_icmp(ctx: Context, p: ICmpPredicateAttr)
    requires
        ctx.has_dialect("llvm"@),
        llvm_ready(ctx),
    ensures
        round_trips(ctx, AttrObj::ICmp(p)),
{
    reveal_strlit("llvm");
    reveal_strlit("icmp_predicate");
    assert(is_identifier("llvm"@)) by {
        assert(forall|i: int| 1 <= i < "llvm"@.len() ==> is_id_char(#[trigger] "llvm"@[i]));
    }
    assert(is_identifier("icmp_predicate"@)) by {
        assert(forall|i: int| 1 <= i < "icmp_predicate"@.len() ==> is_id_char(#[trigger] "icmp_predicate"@[i]));
    }
    lemma_icmp_text(p);
    let types = ctx.types_view();
    let obj = AttrObj::ICmp(p);
    let text = attr_text(types, obj);
    assert(text =~= "llvm"@ + "."@ + "icmp_predicate"@ + " "@ + icmp_text(p));
    lemma_word_payload(ctx, text, "llvm"@, "icmp_predicate"@, icmp_text(p));
    assert forall|c: AttrObj| attr_val(c) == attr_val(obj) implies attr_text(types, c) == text by {
        assert(c is ICmp);
    }
}

} // verus!
verus! {

/// A character that may follow an attribute inside a sequence or a
/// dictionary.
pub open spec fn is_closer(c: char) -> bool {
    c == ',' || c == '}' || c == ']'
}

/// Whether `s` holds `t` at `pos`, followed by a closing character.
pub open spec fn printed_at(s: Seq<char>, pos: nat, t: Seq<char>) -> bool {
    &&& pos + t.len() < s.len()
    &&& s.subrange(pos as int, (pos + t.len()) as int) == t
    &&& is_closer(s[(pos + t.len()) as int])
}

/// Whether `a`, printed anywhere in a text and followed by a closing
/// character, parses back there to a value equal to it, interning nothing.
pub open spec fn round_trips_at(reg: Registry, types: Seq<TypeObj>, a: AttrObj) -> bool {
    forall|s: Seq<char>, pos: nat|
        #![trigger p_attr(reg, types, s, pos)]
        printed_at(s, pos, attr_text(types, a)) ==> p_attr(reg, types, s, pos) == (Parsed::Done {
            val: attr_val(a),
            next: pos + attr_text(types, a).len(),
        }, types)
}

/// Whether printing `a` and parsing the text back gives a value that is
/// equal to it and interns no new type.
pub open spec fn parses_back(ctx: Context, a: AttrObj) -> bool {
    let text = attr_text(ctx.types_view(), a);
    &&& p_attr_text(ctx, text) == (Parsed::Done { val: attr_val(a), next: text.len() })
    &&& p_attr(ctx.registry(), ctx.types_view(), text, 0).1 == ctx.types_view()
}

/// Facts about a piece `t` of `text` that starts at `pos`.
proof fn lemma_piece(text: Seq<char>, pos: nat, t: Seq<char>)
    requires
        pos + t.len() <= text.len(),
        text.subrange(pos as int, (pos + t.len()) as int) == t,
    ensures
        forall|j: int| 0 <= j < t.len() ==> text[pos + j] == #[trigger] t[j],
        forall|a: int, b: int| 0 <= a <= b <= t.len() ==> text.subrange(pos + a, pos + b) == #[trigger] t.subrange(a, b),
{
    assert forall|j: int| 0 <= j < t.len() implies text[pos + j] == #[trigger] t[j] by {
        assert(text.subrange(pos as int, (pos + t.len()) as int)[j] == text[pos + j]);
    }
    assert forall|a: int, b: int| 0 <= a <= b <= t.len() implies text.subrange(pos + a, pos + b) == #[trigger] t.subrange(a, b) by {
        assert(text.subrange(pos + a, pos + b) =~= t.subrange(a, b));
    }
}

/// A unit attribute parses back wherever it is printed.
pub proof fn lemma_unit_at(ctx: Context, a: UnitAttr)
    requires
        builtin_ready(ctx),
    ensures
        round_trips_at(ctx.registry(), ctx.types_view(), AttrObj::Unit(a)),
{
    reveal_strlit(".");
    reveal_strlit("builtin");
    reveal_strlit("unit");
    lemma_builtin_names();
    assert(is_identifier("unit"@)) by {
        assert(forall|i: int| 1 <= i < "unit"@.len() ==> is_id_char(#[trigger] "unit"@[i]));
    }
    let types = ctx.types_view();
    let obj = AttrObj::Unit(a);
    let t = attr_text(types, obj);
    assert(t =~= "builtin"@ + "."@ + "unit"@);
    assert forall|s: Seq<char>, pos: nat| #[trigger] printed_at(s, pos, t) implies p_attr(ctx.registry(), types, s, pos) == (Parsed::Done {
        val: attr_val(obj),
        next: pos + t.len(),
    }, types) by {
        lemma_piece(s, pos, t);
        let p: int = pos as int;
        assert(t.subrange(0, 7) =~= "builtin"@);
        assert(t.subrange(8, 12) =~= "unit"@);
        assert(s[p + 7] == t[7]);
        lemma_qid(ctx, s, pos, "builtin"@, "unit"@);
    }
}

/// A string attribute parses back wherever it is printed.
pub proof fn lemma_string_at(ctx: Context, a: StringAttr)
    requires
        builtin_ready(ctx),
    ensures
        round_trips_at(ctx.registry(), ctx.types_view(), AttrObj::Str(a)),
{
    reveal_strlit(" ");
    reveal_strlit(".");
    reveal_strlit("\"");
    reveal_strlit("builtin");
    reveal_strlit("string");
    lemma_builtin_names();
    let x = a.value_spec();
    let types = ctx.types_view();
    let obj = AttrObj::Str(a);
    let t = attr_text(types, obj);
    let esc = escape(x);
    assert(t =~= "builtin"@ + "."@ + "string"@ + " "@ + ("\""@ + esc + "\""@));
    assert(t.len() == 17 + esc.len());
    assert forall|s: Seq<char>, pos: nat| #[trigger] printed_at(s, pos, t) implies p_attr(ctx.registry(), types, s, pos) == (Parsed::Done {
        val: attr_val(obj),
        next: pos + t.len(),
    }, types) by {
        lemma_piece(s, pos, t);
        let p: int = pos as int;
        assert(t.subrange(0, 7) =~= "builtin"@);
        assert(t.subrange(8, 14) =~= "string"@);
        assert(s[p + 7] == t[7]);
        assert(s[p + 14] == t[14]);
        lemma_qid(ctx, s, pos, "builtin"@, "string"@);
        assert(s[p + 15] == t[15]);
        assert(skip_ws(s, pos + 15) == pos + 15);
        assert(skip_ws(s, pos + 14) == pos + 15);
        let n: int = esc.len() as int;
        assert(t.subrange(16, 16 + n) =~= esc);
        assert(s.subrange(p + 16, p + 16 + n) == esc);
        assert(s[p + 16 + n] == t[16 + n]);
        lemma_scan_escaped(s, pos + 16, Seq::<char>::empty(), x);
        assert(Seq::<char>::empty() + x =~= x);
    }
}

} // verus!
verus! {

/// The printed form of one dictionary entry: `key: attr`.
pub open spec fn entry_text(types: Seq<TypeObj>, e: (Identifier, AttrObj)) -> Seq<char> {
    e.0@ + ": "@ + attr_text(types, e.1)
}

/// Printed dictionary entries, read from the front.
proof fn lemma_dict_text_front(types: Seq<TypeObj>, s: Seq<(Identifier, AttrObj)>)
    requires
        s.len() >= 2,
    ensures
        dict_text(types, s) == entry_text(types, s[0]) + ", "@ + dict_text(types, s.drop_first()),
    decreases s.len(),
{
    let dl = s.drop_last();
    let df = s.drop_first();
    if s.len() == 2 {
        assert(dl.len() == 1 && dl[0] == s[0]);
        assert(df.len() == 1 && df[0] == s[1] && s.last() == s[1]);
        assert(dict_text(types, dl) == entry_text(types, s[0]));
        assert(dict_text(types, df) == entry_text(types, s[1]));
        assert(dict_text(types, s) == dict_text(types, dl) + ", "@ + s.last().0@ + ": "@ + attr_text(types, s.last().1));
        assert(dict_text(types, s) =~= entry_text(types, s[0]) + ", "@ + dict_text(types, df));
    } else {
        lemma_dict_text_front(types, dl);
        assert(dl.drop_first() =~= df.drop_last());
        assert(df.last() == s.last());
        assert(dl[0] == s[0]);
        assert(dict_text(types, s) == dict_text(types, dl) + ", "@ + s.last().0@ + ": "@ + attr_text(types, s.last().1));
        assert(dict_text(types, df) == dict_text(types, df.drop_last()) + ", "@ + df.last().0@ + ": "@ + attr_text(types, df.last().1));
        assert(dict_text(types, s) =~= entry_text(types, s[0]) + ", "@ + dict_text(types, df));
    }
}

/// An attribute's printed form starts with the first letter of its
/// dialect's name.
proof fn lemma_attr_text_first(types: Seq<TypeObj>, a: AttrObj)
    ensures
        attr_text(types, a).len() > 0,
        is_id_start(attr_text(types, a)[0]),
{
    reveal_strlit("builtin");
    reveal_strlit("llvm");
    let k = attr_kind(a);
    assert(attr_text(types, a)[0] == k.0[0]);
}

/// Whether every key is an identifier and every value parses back
/// wherever it is printed.
pub open spec fn entries_round_trip(reg: Registry, types: Seq<TypeObj>, es: Seq<(Identifier, AttrObj)>) -> bool {
    forall|i: int| 0 <= i < es.len() ==> is_identifier((#[trigger] es[i]).0@) && round_trips_at(reg, types, es[i].1)
}

/// The printed entries of a dictionary from entry `k` on, followed by `}`,
/// parse back to the mapping of all entries, given the mapping of those
/// before `k`.
#[verifier::rlimit(60)]
proof fn lemma_dict_suffix(reg: Registry, types: Seq<TypeObj>, text: Seq<char>, es: Seq<(Identifier, AttrObj)>, k: nat, pos: nat, first: bool)
    requires
        k < es.len(),
        entries_round_trip(reg, types, es),
        pos + dict_text(types, es.subrange(k as int, es.len() as int)).len() < text.len(),
        text.subrange(pos as int, (pos + dict_text(types, es.subrange(k as int, es.len() as int)).len()) as int)
            == dict_text(types, es.subrange(k as int, es.len() as int)),
        text[(pos + dict_text(types, es.subrange(k as int, es.len() as int)).len()) as int] == '}',
    ensures
        p_dict(reg, types, text, pos, dict_vals(es.subrange(0, k as int)), first) == (Parsed::Done {
            val: dict_vals(es),
            next: pos + dict_text(types, es.subrange(k as int, es.len() as int)).len() + 1,
        }, types),
    decreases es.len() - k,
{
    reveal_strlit(": ");
    reveal_strlit(", ");
    let n = es.len() as int;
    let suf = es.subrange(k as int, n);
    let e = es[k as int];
    let key = e.0@;
    let at = attr_text(types, e.1);
    let t = dict_text(types, suf);
    let p: int = pos as int;
    let ki: int = k as int;
    let kl: int = key.len() as int;
    let al: int = at.len() as int;
    let d: int = t.len() as int;
    lemma_attr_text_first(types, e.1);
    assert(suf[0] == e);
    assert(is_identifier(key) && round_trips_at(reg, types, e.1));
    if k + 1 == n {
        assert(suf.len() == 1);
        assert(t =~= key + ": "@ + at);
    } else {
        lemma_dict_text_front(types, suf);
        assert(suf.drop_first() =~= es.subrange(ki + 1, n));
    }
    let head = key + ": "@ + at;
    assert(t.subrange(0, kl + 2 + al) =~= head);
    lemma_piece(text, pos, t);
    assert forall|j: int| 0 <= j < kl implies text[p + j] == key[j] by {
        assert(text[p + j] == t[j]);
        assert(t[j] == head[j]);
    }
    assert(text[p + kl] == ':') by {
        assert(text[p + kl] == t[kl]);
        assert(t[kl] == head[kl]);
    }
    assert(text[p + kl + 1] == ' ') by {
        assert(text[p + kl + 1] == t[kl + 1]);
        assert(t[kl + 1] == head[kl + 1]);
    }
    assert(text.subrange(p + kl + 2, p + kl + 2 + al) == at) by {
        assert(t.subrange(kl + 2, kl + 2 + al) =~= at);
    }
    assert(text[p + kl + 2] == at[0]);
    assert(is_id_start(text[p]));
    assert forall|j: int| p + 1 <= j < p + kl implies is_id_char(#[trigger] text[j]) by {
        assert(text[j] == key[j - p]);
    }
    lemma_id_run(text, pos + 1, (p + kl) as nat);
    assert(skip_ws(text, (p + kl) as nat) == p + kl);
    assert(skip_ws(text, (p + kl + 2) as nat) == p + kl + 2);
    assert(skip_ws(text, (p + kl + 1) as nat) == p + kl + 2);
    assert(text.subrange(p, p + kl) =~= key);
    let q = (p + kl + 2) as nat;
    let nx: nat = (q + al) as nat;
    let ni: int = nx as int;
    let acc = dict_vals(es.subrange(0, k as int));
    assert(es.subrange(0, ki + 1).drop_last() =~= es.subrange(0, k as int));
    assert(es.subrange(0, ki + 1).last() == e);
    assert(dict_vals(es.subrange(0, ki + 1)) == acc.insert(key, attr_val(e.1)));
    if k + 1 == n {
        assert(d == kl + 2 + al);
        assert(text[ni] == '}');
        assert(printed_at(text, q, at));
        assert(p_attr(reg, types, text, q) == (Parsed::Done { val: attr_val(e.1), next: nx }, types));
        assert(skip_ws(text, nx) == nx);
        assert(es.subrange(0, ki + 1) =~= es);
    } else {
        let rest = dict_text(types, es.subrange(ki + 1, n));
        assert(t =~= head + ", "@ + rest);
        assert(text[ni] == ',') by {
            assert(text[ni] == t[kl + 2 + al]);
        }
        assert(text[ni + 1] == ' ') by {
            assert(text[ni + 1] == t[kl + 3 + al]);
        }
        assert(printed_at(text, q, at));
        assert(p_attr(reg, types, text, q) == (Parsed::Done { val: attr_val(e.1), next: nx }, types));
        assert(skip_ws(text, nx) == nx);
        let k2 = (k + 1) as nat;
        let e2 = es[k2 as int];
        lemma_attr_text_first(types, e2.1);
        assert(es.subrange(k2 as int, n)[0] == e2);
        assert(is_identifier(e2.0@));
        let rl: int = rest.len() as int;
        assert(text.subrange(ni + 2, ni + 2 + rl) == rest) by {
            assert(t.subrange(kl + al + 4, kl + al + 4 + rl) =~= rest);
        }
        assert(rest.len() > 0);
        if k2 + 1 == n {
            assert(es.subrange(k2 as int, n).len() == 1);
        } else {
            lemma_dict_text_front(types, es.subrange(k2 as int, n));
        }
        assert(rest[0] == e2.0@[0]);
        assert(text[ni + 2] == rest[0]);
        assert(skip_ws(text, (ni + 2) as nat) == ni + 2);
        assert(skip_ws(text, (ni + 1) as nat) == ni + 2);
        assert(d == kl + al + 4 + rl);
        lemma_dict_suffix(reg, types, text, es, k2, (ni + 2) as nat, false);
    }
}

/// A dictionary whose keys are identifiers and whose values parse back
/// wherever they are printed prints to text that parses back to it.
#[verifier::rlimit(40)]
pub proof fn lemma_round_trip_dict(ctx: Context, a: DictAttr)
    requires
        builtin_ready(ctx),
        entries_round_trip(ctx.registry(), ctx.types_view(), a.entries_spec()),
    ensures
        parses_back(ctx, AttrObj::Dict(a)),
{
    reveal_strlit(" ");
    reveal_strlit(".");
    reveal_strlit("{");
    reveal_strlit("}");
    reveal_strlit("builtin");
    reveal_strlit("dict");
    lemma_builtin_names();
    assert(is_identifier("dict"@)) by {
        assert(forall|i: int| 1 <= i < "dict"@.len() ==> is_id_char(#[trigger] "dict"@[i]));
    }
    a.lemma_entries();
    let types = ctx.types_view();
    let reg = ctx.registry();
    let es = a.0.entries@;
    let obj = AttrObj::Dict(a);
    let text = attr_text(types, obj);
    let t = dict_text(types, es);
    assert(text =~= "builtin"@ + "."@ + "dict"@ + " "@ + "{"@ + t + "}"@);
    assert(text.subrange(0, 7) =~= "builtin"@);
    assert(text.subrange(8, 12) =~= "dict"@);
    lemma_qid(ctx, text, 0, "builtin"@, "dict"@);
    assert(text[12] == ' ');
    assert(text[13] == '{');
    assert(skip_ws(text, 13) == 13);
    assert(skip_ws(text, 12) == 13);
    assert(es.subrange(0, 0) =~= Seq::<(Identifier, AttrObj)>::empty());
    assert(dict_vals(Seq::<(Identifier, AttrObj)>::empty()) == Map::<Seq<char>, AttrVal>::empty());
    if es.len() == 0 {
        assert(text[14] == '}');
        assert(skip_ws(text, 14) == 14);
        assert(dict_vals(es) == Map::<Seq<char>, AttrVal>::empty());
    } else {
        assert(es.subrange(0, es.len() as int) =~= es);
        lemma_attr_text_first(types, es[0].1);
        if es.len() == 1 {
            assert(t == entry_text(types, es[0]));
        } else {
            lemma_dict_text_front(types, es);
        }
        assert(is_identifier(es[0].0@));
        assert(text[14] == es[0].0@[0]);
        assert(skip_ws(text, 14) == 14);
        assert(text.subrange(14, 14 + t.len() as int) =~= t);
        assert(text[14 + t.len() as int] == '}');
        lemma_dict_suffix(reg, types, text, es, 0, 14, true);
    }
    assert(skip_ws(text, text.len()) == text.len());
}

} // verus!
verus! {

/// Printed sequence elements, read from the front.
proof fn lemma_list_text_front(types: Seq<TypeObj>, s: Seq<AttrObj>)
    requires
        s.len() >= 2,
    ensures
        list_text(types, s) == attr_text(types, s[0]) + ", "@ + list_text(types, s.drop_first()),
    decreases s.len(),
{
    let dl = s.drop_last();
    let df = s.drop_first();
    if s.len() == 2 {
        assert(dl.len() == 1 && dl[0] == s[0]);
        assert(df.len() == 1 && df[0] == s[1] && s.last() == s[1]);
        assert(list_text(types, dl) == attr_text(types, s[0]));
        assert(list_text(types, df) == attr_text(types, s[1]));
        assert(list_text(types, s) == list_text(types, dl) + ", "@ + attr_text(types, s.last()));
        assert(list_text(types, s) =~= attr_text(types, s[0]) + ", "@ + list_text(types, df));
    } else {
        lemma_list_text_front(types, dl);
        assert(dl.drop_first() =~= df.drop_last());
        assert(df.last() == s.last());
        assert(dl[0] == s[0]);
        assert(list_text(types, s) == list_text(types, dl) + ", "@ + attr_text(types, s.last()));
        assert(list_text(types, df) == list_text(types, df.drop_last()) + ", "@ + attr_text(types, df.last()));
        assert(list_text(types, s) =~= attr_text(types, s[0]) + ", "@ + list_text(types, df));
    }
}

/// The printed elements of a sequence from element `k` on, followed by
/// `]`, parse back to all the elements, given those before `k`.
#[verifier::rlimit(60)]
proof fn lemma_list_suffix(reg: Registry, types: Seq<TypeObj>, text: Seq<char>, es: Seq<AttrObj>, k: nat, pos: nat)
    requires
        k < es.len(),
        forall|i: int| 0 <= i < es.len() ==> round_trips_at(reg, types, #[trigger] es[i]),
        pos + list_text(types, es.subrange(k as int, es.len() as int)).len() < text.len(),
        text.subrange(pos as int, (pos + list_text(types, es.subrange(k as int, es.len() as int)).len()) as int)
            == list_text(types, es.subrange(k as int, es.len() as int)),
        text[(pos + list_text(types, es.subrange(k as int, es.len() as int)).len()) as int] == ']',
    ensures
        p_list(reg, types, text, pos, vals_of(es.subrange(0, k as int))) == (Parsed::Done {
            val: vals_of(es),
            next: pos + list_text(types, es.subrange(k as int, es.len() as int)).len() + 1,
        }, types),
    decreases es.len() - k,
{
    reveal_strlit(", ");
    let n = es.len() as int;
    let ki: int = k as int;
    let suf = es.subrange(ki, n);
    let e = es[ki];
    let at = attr_text(types, e);
    let t = list_text(types, suf);
    let p: int = pos as int;
    let al: int = at.len() as int;
    lemma_attr_text_first(types, e);
    assert(suf[0] == e);
    assert(round_trips_at(reg, types, e));
    if ki + 1 == n {
        assert(suf.len() == 1);
        assert(t == at);
    } else {
        lemma_list_text_front(types, suf);
        assert(suf.drop_first() =~= es.subrange(ki + 1, n));
    }
    assert(t.subrange(0, al) =~= at);
    lemma_piece(text, pos, t);
    assert(text.subrange(p, p + al) == at);
    let nx: nat = (pos + al) as nat;
    let ni: int = nx as int;
    lemma_vals_len(es.subrange(0, ki));
    assert(text[p] == at[0]);
    assert(es.subrange(0, ki + 1).drop_last() =~= es.subrange(0, ki));
    assert(es.subrange(0, ki + 1).last() == e);
    assert(vals_of(es.subrange(0, ki + 1)) == vals_of(es.subrange(0, ki)).push(attr_val(e)));
    if ki + 1 == n {
        assert(text[ni] == ']');
        assert(printed_at(text, pos, at));
        assert(p_attr(reg, types, text, pos) == (Parsed::Done { val: attr_val(e), next: nx }, types));
        assert(skip_ws(text, nx) == nx);
        assert(es.subrange(0, ki + 1) =~= es);
    } else {
        let rest = list_text(types, es.subrange(ki + 1, n));
        assert(t =~= at + ", "@ + rest);
        assert(text[ni] == ',') by {
            assert(text[ni] == t[al]);
        }
        assert(text[ni + 1] == ' ') by {
            assert(text[ni + 1] == t[al + 1]);
        }
        assert(printed_at(text, pos, at));
        assert(p_attr(reg, types, text, pos) == (Parsed::Done { val: attr_val(e), next: nx }, types));
        assert(skip_ws(text, nx) == nx);
        let k2 = (k + 1) as nat;
        let e2 = es[k2 as int];
        lemma_attr_text_first(types, e2);
        assert(es.subrange(k2 as int, n)[0] == e2);
        let rl: int = rest.len() as int;
        assert(text.subrange(ni + 2, ni + 2 + rl) == rest) by {
            assert(t.subrange(al + 2, al + 2 + rl) =~= rest);
        }
        if k2 + 1 == n {
            assert(es.subrange(k2 as int, n).len() == 1);
            assert(rest == attr_text(types, e2));
        } else {
            lemma_list_text_front(types, es.subrange(k2 as int, n));
        }
        assert(rest[0] == attr_text(types, e2)[0]);
        assert(text[ni + 2] == rest[0]);
        assert(skip_ws(text, (ni + 2) as nat) == ni + 2);
        assert(skip_ws(text, (ni + 1) as nat) == ni + 2);
        lemma_list_suffix(reg, types, text, es, k2, (ni + 2) as nat);
    }
}

/// A sequence attribute whose elements parse back wherever they are
/// printed prints to text that parses back to it.
#[verifier::rlimit(40)]
pub proof fn lemma_round_trip_vec(ctx: Context, a: VecAttr)
    requires
        builtin_ready(ctx),
        forall|i: int| 0 <= i < a.0@.len() ==> round_trips_at(ctx.registry(), ctx.types_view(), #[trigger] a.0@[i]),
    ensures
        parses_back(ctx, AttrObj::List(a)),
{
    reveal_strlit(" ");
    reveal_strlit(".");
    reveal_strlit("[");
    reveal_strlit("]");
    reveal_strlit("builtin");
    reveal_strlit("vec");
    lemma_builtin_names();
    assert(is_identifier("vec"@)) by {
        assert(forall|i: int| 1 <= i < "vec"@.len() ==> is_id_char(#[trigger] "vec"@[i]));
    }
    let types = ctx.types_view();
    let reg = ctx.registry();
    let es = a.0@;
    let obj = AttrObj::List(a);
    let text = attr_text(types, obj);
    let t = list_text(types, es);
    assert(text =~= "builtin"@ + "."@ + "vec"@ + " "@ + "["@ + t + "]"@);
    assert(text.subrange(0, 7) =~= "builtin"@);
    assert(text.subrange(8, 11) =~= "vec"@);
    lemma_qid(ctx, text, 0, "builtin"@, "vec"@);
    assert(text[11] == ' ');
    assert(text[12] == '[');
    assert(skip_ws(text, 12) == 12);
    assert(skip_ws(text, 11) == 12);
    assert(es.subrange(0, 0) =~= Seq::<AttrObj>::empty());
    assert(vals_of(Seq::<AttrObj>::empty()) == Seq::<AttrVal>::empty());
    if es.len() == 0 {
        assert(text[13] == ']');
        assert(skip_ws(text, 13) == 13);
        assert(vals_of(es) == Seq::<AttrVal>::empty());
    } else {
        assert(es.subrange(0, es.len() as int) =~= es);
        lemma_attr_text_first(types, es[0]);
        if es.len() == 1 {
            assert(t == attr_text(types, es[0]));
        } else {
            lemma_list_text_front(types, es);
        }
        assert(text[13] == attr_text(types, es[0])[0]);
        assert(skip_ws(text, 13) == 13);
        assert(text.subrange(13, 13 + t.len() as int) =~= t);
        assert(text[13 + t.len() as int] == ']');
        lemma_list_suffix(reg, types, text, es, 0, 13);
    }
    assert(skip_ws(text, text.len()) == text.len());
}

} // verus!
verus! {

/// The payload of a verified integer attribute, `<value: type>`, parses
/// back to the same type handle and value, interning nothing, whatever
/// text follows it.
#[verifier::rlimit(60)]
pub proof fn lemma_int_payload(types: Seq<TypeObj>, a: IntegerAttr, rest: Seq<char>)
    requires
        forall|i: int, j: int| 0 <= i < j < types.len() ==> #[trigger] types[i] != #[trigger] types[j],
        int_attr_ok(types, a),
        apint_valid(a.val_spec()),
    ensures
        p_int_attr(types, int_payload(types, a.ty_spec(), a.val_spec().bits_spec(), a.val_spec().width_spec()) + rest, 0)
            == (Parsed::Done {
            val: attr_val(AttrObj::Int(a)),
            next: int_payload(types, a.ty_spec(), a.val_spec().bits_spec(), a.val_spec().width_spec()).len(),
        }, types),
{
    reveal_strlit("<");
    reveal_strlit(">");
    reveal_strlit(": ");
    let ty = a.ty_spec();
    let t = types[ty.index as int]->Integer_0;
    let w = t.width as nat;
    let b = a.val_spec().bits_spec();
    let signed = t.signedness == Signedness::Signed;
    let bt = bits_text(b, w, signed);
    let it = int_type_text(t);
    lemma_bits_text(b, w, signed);
    lemma_int_type_text_first(t);
    let pl = int_payload(types, ty, b, a.val_spec().width_spec());
    let text = pl + rest;
    assert(pl =~= "<"@ + bt + ": "@ + it + ">"@);
    let l: int = bt.len() as int;
    let m: int = it.len() as int;
    assert(pl.len() == 4 + l + m);
    assert(text[0] == '<');
    assert(text[1] == bt[0]);
    assert(skip_ws(text, 1) == 1);
    assert forall|j: int| 1 <= j < 1 + l implies is_numeral_char(#[trigger] text[j]) by {
        assert(text[j] == bt[j - 1]);
    }
    assert(text[1 + l] == ':');
    lemma_numeral_run(text, 1, (1 + l) as nat);
    assert(skip_ws(text, (1 + l) as nat) == 1 + l);
    assert(text[2 + l] == ' ');
    assert(text[3 + l] == it[0]);
    assert(skip_ws(text, (3 + l) as nat) == 3 + l);
    assert(skip_ws(text, (2 + l) as nat) == 3 + l);
    assert(text.subrange(3 + l, 3 + l + m) =~= it);
    assert(text[3 + l + m] == '>');
    lemma_int_type_parse(text, (3 + l) as nat, t);
    assert(skip_ws(text, (3 + l + m) as nat) == 3 + l + m);
    assert(text.subrange(1, 1 + l) =~= bt);
    lemma_intern_existing(types, ty);
}

} // verus!
