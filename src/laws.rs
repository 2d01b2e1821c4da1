//! Laws that relate the library's operations to one another.
use vstd::prelude::*;
use crate::attr_interfaces::{int_attr_ok, offers, typed_cast};
use crate::attribute::{AttrObj, entries_map, lemma_entries_map_last, keys_sorted, lemma_less_irrefl, lemma_less_trans, lemma_entries_map_dom, lemma_sorted_unique};
use crate::builtin_attributes::{IntegerAttr, builtin_ready};
use crate::context::{AttrInterface, Context, find_type, intern};
use crate::identifier::{Identifier, is_id_char, is_identifier, seq_less};
use crate::parser::{Parsed, id_run, p_dialect};
use crate::printer::attr_kind;
use crate::types::TypeObj;

verus! {

/// Interning a type a second time gives the handle that the first time
/// gave, and leaves the table as the first time left it.
pub proof fn lemma_intern_twice(types: Seq<TypeObj>, t: TypeObj)
    ensures
        intern(intern(types, t).0, t).1 == intern(types, t).1,
        intern(intern(types, t).0, t).0 == intern(types, t).0,
{
    if find_type(types, t) is None {
        let ts = types.push(t);
        assert(ts.drop_last() =~= types);
    }
}

/// A dictionary built from two entries with distinct keys is the same in
/// either order, and stays the same after one key is removed from both.
pub proof fn lemma_dict_order_independent(h: Identifier, hv: AttrObj, w: Identifier, wv: AttrObj)
    requires
        h@ != w@,
    ensures
        entries_map(seq![(h, hv), (w, wv)]) == entries_map(seq![(w, wv), (h, hv)]),
        entries_map(seq![(h, hv), (w, wv)]).remove(h@) == entries_map(seq![(w, wv), (h, hv)]).remove(h@),
{
    let a = seq![(h, hv), (w, wv)];
    let b = seq![(w, wv), (h, hv)];
    assert(a.drop_last() =~= seq![(h, hv)]);
    assert(b.drop_last() =~= seq![(w, wv)]);
    assert(seq![(h, hv)].drop_last() =~= Seq::<(Identifier, AttrObj)>::empty());
    assert(seq![(w, wv)].drop_last() =~= Seq::<(Identifier, AttrObj)>::empty());
    let e = Map::<Seq<char>, AttrObj>::empty();
    assert(entries_map(Seq::<(Identifier, AttrObj)>::empty()) == e);
    assert(seq![(h, hv)].last() == (h, hv));
    assert(seq![(w, wv)].last() == (w, wv));
    assert(a.last() == (w, wv));
    assert(b.last() == (h, hv));
    assert(entries_map(seq![(h, hv)]) == e.insert(h@, hv));
    assert(entries_map(seq![(w, wv)]) == e.insert(w@, wv));
    assert(entries_map(a) == e.insert(h@, hv).insert(w@, wv));
    assert(entries_map(b) == e.insert(w@, wv).insert(h@, hv));
    assert(entries_map(a) =~= entries_map(b));
}

/// Whether no two entries have keys of the same text.
pub open spec fn distinct_keys(s: Seq<(Identifier, AttrObj)>) -> bool {
    forall|i: int, j: int| 0 <= i < j < s.len() ==> (#[trigger] s[i]).0@ != (#[trigger] s[j]).0@
}

/// Whether every entry of `a` has one in `b` with the same key text and
/// value.
pub open spec fn pairs_within(a: Seq<(Identifier, AttrObj)>, b: Seq<(Identifier, AttrObj)>) -> bool {
    forall|i: int| 0 <= i < a.len() ==> exists|j: int| 0 <= j < b.len() && (#[trigger] b[j]).0@ == (#[trigger] a[i]).0@ && b[j].1 == a[i].1
}

/// A dictionary built from pairs with distinct keys does not depend on the
/// order of the pairs: any two orderings of the same pairs give the same
/// mapping.
pub proof fn lemma_dict_permutation(a: Seq<(Identifier, AttrObj)>, b: Seq<(Identifier, AttrObj)>)
    requires
        distinct_keys(a),
        distinct_keys(b),
        pairs_within(a, b),
        pairs_within(b, a),
    ensures
        entries_map(a) == entries_map(b),
{
    assert forall|k: Seq<char>| #[trigger] entries_map(a).contains_key(k) == entries_map(b).contains_key(k)
        && (entries_map(a).contains_key(k) ==> entries_map(a)[k] == entries_map(b)[k]) by {
        lemma_entries_map_dom(a, k);
        lemma_entries_map_dom(b, k);
        if entries_map(a).contains_key(k) {
            let i = choose|i: int| 0 <= i < a.len() && (#[trigger] a[i]).0@ == k;
            let j = choose|j: int| 0 <= j < b.len() && (#[trigger] b[j]).0@ == a[i].0@ && b[j].1 == a[i].1;
            lemma_entries_map_last(a, i);
            lemma_entries_map_last(b, j);
        }
        if entries_map(b).contains_key(k) {
            let j = choose|j: int| 0 <= j < b.len() && (#[trigger] b[j]).0@ == k;
            let i = choose|i: int| 0 <= i < a.len() && (#[trigger] a[i]).0@ == b[j].0@ && a[i].1 == b[j].1;
        }
    }
    assert(entries_map(a) =~= entries_map(b));
}

/// `seq_less` orders any two distinct sequences one way or the other.
pub proof fn lemma_less_total(a: Seq<char>, b: Seq<char>)
    requires
        a != b,
    ensures
        seq_less(a, b) || seq_less(b, a),
    decreases a.len(),
{
    if a.len() > 0 && b.len() > 0 && a[0] == b[0] {
        if a.drop_first() == b.drop_first() {
            assert(a =~= seq![a[0]] + a.drop_first());
            assert(b =~= seq![b[0]] + b.drop_first());
        }
        lemma_less_total(a.drop_first(), b.drop_first());
    } else if a.len() == 0 && b.len() == 0 {
        assert(a =~= b);
    }
}

/// Whether two entry sequences hold, position by position, keys of the
/// same text and the same values.
pub open spec fn same_entries(s1: Seq<(Identifier, AttrObj)>, s2: Seq<(Identifier, AttrObj)>) -> bool {
    &&& s1.len() == s2.len()
    &&& forall|i: int| 0 <= i < s1.len() ==> (#[trigger] s1[i]).0@ == s2[i].0@ && s1[i].1 == s2[i].1
}

/// Entries sorted by key are determined by the mapping they denote: two
/// dictionaries with the same key-to-value pairs hold the same entries, in
/// the same order, however they were built.
pub proof fn lemma_dict_canonical(s1: Seq<(Identifier, AttrObj)>, s2: Seq<(Identifier, AttrObj)>)
    requires
        keys_sorted(s1),
        keys_sorted(s2),
        entries_map(s1) == entries_map(s2),
    ensures
        same_entries(s1, s2),
    decreases s1.len() + s2.len(),
{
    if s1.len() == 0 || s2.len() == 0 {
        if s1.len() > 0 {
            lemma_sorted_unique(s1, 0, s1[0].0@);
        }
        if s2.len() > 0 {
            lemma_sorted_unique(s2, 0, s2[0].0@);
        }
    } else {
        let k1 = s1.last().0@;
        let k2 = s2.last().0@;
        lemma_sorted_unique(s1, s1.len() - 1, k1);
        lemma_sorted_unique(s2, s2.len() - 1, k2);
        lemma_entries_map_dom(s1, k2);
        lemma_entries_map_dom(s2, k1);
        if k1 != k2 {
            let i = choose|i: int| 0 <= i < s1.len() && (#[trigger] s1[i]).0@ == k2;
            let j = choose|j: int| 0 <= j < s2.len() && (#[trigger] s2[j]).0@ == k1;
            lemma_less_irrefl(k1);
            lemma_less_irrefl(k2);
            lemma_less_total(k1, k2);
            if seq_less(k1, k2) {
                assert(i < s1.len() - 1);
                lemma_less_trans(k1, k2, k1);
            } else {
                assert(j < s2.len() - 1);
                lemma_less_trans(k2, k1, k2);
            }
        }
        let t1 = s1.drop_last();
        let t2 = s2.drop_last();
        assert forall|a: int, b: int| 0 <= a < b < t1.len() implies seq_less(#[trigger] t1[a].0@, #[trigger] t1[b].0@) by {
            assert(t1[a] == s1[a] && t1[b] == s1[b]);
        }
        assert forall|a: int, b: int| 0 <= a < b < t2.len() implies seq_less(#[trigger] t2[a].0@, #[trigger] t2[b].0@) by {
            assert(t2[a] == s2[a] && t2[b] == s2[b]);
        }
        lemma_without_last(s1);
        lemma_without_last(s2);
        lemma_dict_canonical(t1, t2);
        assert forall|i: int| 0 <= i < s1.len() implies (#[trigger] s1[i]).0@ == s2[i].0@ && s1[i].1 == s2[i].1 by {
            if i < s1.len() - 1 {
                assert(t1[i] == s1[i] && t2[i] == s2[i]);
            }
        }
    }
}

/// Without its last entry, sorted entries map as before minus the last key.
proof fn lemma_without_last(s: Seq<(Identifier, AttrObj)>)
    requires
        keys_sorted(s),
        s.len() > 0,
    ensures
        entries_map(s.drop_last()) == entries_map(s).remove(s.last().0@),
{
    let t = s.drop_last();
    let k = s.last().0@;
    lemma_entries_map_dom(t, k);
    if entries_map(t).contains_key(k) {
        let i = choose|i: int| 0 <= i < t.len() && (#[trigger] t[i]).0@ == k;
        assert(t[i] == s[i]);
        lemma_less_irrefl(k);
    }
    assert(entries_map(t) =~= entries_map(s).remove(k));
}

/// An integer attribute whose declared type is an integer type of another
/// bit width than its value's does not verify.
pub proof fn lemma_width_mismatch_fails(types: Seq<TypeObj>, a: IntegerAttr)
    requires
        a.ty_spec().index < types.len(),
        types[a.ty_spec().index as int] is Integer,
        types[a.ty_spec().index as int]->Integer_0.width as nat != a.val_spec().width_spec(),
    ensures
        !int_attr_ok(types, a),
{
}

/// An identifier's characters run to its end.
proof fn lemma_id_run_to_end(s: Seq<char>, pos: nat)
    requires
        pos <= s.len(),
        forall|j: int| pos <= j < s.len() ==> is_id_char(#[trigger] s[j]),
    ensures
        id_run(s, pos) == s.len(),
    decreases s.len() - pos,
{
    if pos < s.len() {
        lemma_id_run_to_end(s, pos + 1);
    }
}

/// Parsing a name as a dialect succeeds exactly when a dialect of that name
/// is registered, and otherwise fails at the name's first character with
/// the message `Unregistered dialect <name>`.
pub proof fn lemma_dialect_lookup(ctx: Context, name: Seq<char>)
    requires
        is_identifier(name),
    ensures
        ctx.has_dialect(name) ==> p_dialect(ctx.registry(), name, 0) == (Parsed::Done { val: name.len(), next: name.len() }),
        !ctx.has_dialect(name) ==> p_dialect(ctx.registry(), name, 0) == (Parsed::<nat>::Fail { at: 0, msg: "Unregistered dialect "@ + name }),
{
    lemma_id_run_to_end(name, 1);
    ctx.lemma_registry_has_dialect(name);
    assert(name.subrange(0, name.len() as int) =~= name);
}

/// The typed capability gives the type held by a type attribute or declared
/// by an integer attribute where the builtin kinds are registered, and
/// nothing, with no error, for a kind that never registered it.
pub proof fn lemma_typed_query(ctx: Context, a: AttrObj)
    requires
        builtin_ready(ctx),
    ensures
        (a matches AttrObj::Type(t) ==> typed_cast(ctx, a) == Some(t.ty_spec())),
        (a matches AttrObj::Int(i) ==> typed_cast(ctx, a) == Some(i.ty_spec())),
        !offers(ctx, attr_kind(a).0, attr_kind(a).1, AttrInterface::Typed) ==> (typed_cast(ctx, a) is None),
{
}

} // verus!
