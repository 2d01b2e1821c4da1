//! The context: the registered dialects, the dispatch tables, and the table
//! of interned types.
use vstd::prelude::*;
use crate::dialect::{AttrId, Dialect, DialectName, OpId, TypeId};
use crate::types::{IntegerType, PointerType, Signedness, TypeObj, TypePtr};

verus! {

/// The parse routine registered for an attribute kind.
#[derive(Debug, PartialEq, Eq, Clone, Copy, Structural)]
pub enum AttrParser {
    Identifier,
    String,
    Integer,
    Dict,
    Vec,
    Unit,
    Type,
    IntegerOverflowFlags,
    ICmpPredicate,
    GepIndices,
}

/// The parse routine registered for a type kind.
#[derive(Debug, PartialEq, Eq, Clone, Copy, Structural)]
pub enum TypeParser {
    Integer,
    Pointer,
}

/// A capability that an attribute kind may offer.
#[derive(Debug, PartialEq, Eq, Clone, Copy, Structural)]
pub enum AttrInterface {
    /// The attribute exposes a type.
    Typed,
}

/// A capability that an operation kind may offer.
#[derive(Debug, PartialEq, Eq, Clone, Copy, Structural)]
pub enum OpInterface {
    OneResult,
    SameOperandsAndResultType,
    IsTerminator,
    BinArithOp,
    IntBinArithOp,
    IntBinArithOpWithOverflowFlag,
    PointerTypeResult,
}

/// Whether a table of `(id, v)` entries holds `id` (compared by text).
pub open spec fn table_has<V>(t: Seq<(crate::dialect::QualifiedId, V)>, d: Seq<char>, n: Seq<char>) -> bool {
    exists|i: int| 0 <= i < t.len() && (#[trigger] t[i]).0.dialect@ == d && t[i].0.name@ == n
}

/// The value that a table gives for `(d, n)`: that of the first entry with
/// that id.
pub open spec fn table_get<V>(t: Seq<(crate::dialect::QualifiedId, V)>, d: Seq<char>, n: Seq<char>) -> Option<V>
    decreases t.len(),
{
    if t.len() == 0 {
        None
    } else if t[0].0.dialect@ == d && t[0].0.name@ == n {
        Some(t[0].1)
    } else {
        table_get(t.drop_first(), d, n)
    }
}

/// Looking up in a table with one more entry at the end.
pub proof fn lemma_table_get_push<V>(t: Seq<(crate::dialect::QualifiedId, V)>, e: (crate::dialect::QualifiedId, V), d: Seq<char>, n: Seq<char>)
    ensures
        table_get(t.push(e), d, n) == (match table_get(t, d, n) {
            Some(v) => Some(v),
            None => if e.0.dialect@ == d && e.0.name@ == n { Some(e.1) } else { None },
        }),
    decreases t.len(),
{
    if t.len() > 0 {
        assert(t.push(e).drop_first() =~= t.drop_first().push(e));
        assert(t.push(e)[0] == t[0]);
        lemma_table_get_push(t.drop_first(), e, d, n);
    } else {
        assert(t.push(e).drop_first() =~= Seq::<(crate::dialect::QualifiedId, V)>::empty());
        assert(t.push(e)[0] == e);
        assert(table_get(Seq::<(crate::dialect::QualifiedId, V)>::empty(), d, n) is None);
    }
}

/// Looks `id` up in a table.
pub fn table_lookup<V: Copy>(t: &Vec<(crate::dialect::QualifiedId, V)>, id: &crate::dialect::QualifiedId) -> (r: Option<V>)
    ensures
        r == table_get(t@, id.dialect@, id.name@),
{
    let mut i: usize = 0;
    assert(t@.subrange(0, t@.len() as int) =~= t@);
    while i < t.len()
        invariant
            i <= t@.len(),
            table_get(t@, id.dialect@, id.name@) == table_get(t@.subrange(i as int, t@.len() as int), id.dialect@, id.name@),
        decreases t@.len() - i,
    {
        let ghost rest = t@.subrange(i as int, t@.len() as int);
        assert(rest[0] == t@[i as int]);
        if t[i].0.same(id) {
            return Some(t[i].1);
        }
        assert(rest.drop_first() =~= t@.subrange(i + 1, t@.len() as int));
        i = i + 1;
    }
    None
}

/// The first index of `t` in `types`, if it is there.
pub open spec fn find_type(types: Seq<TypeObj>, t: TypeObj) -> Option<nat>
    decreases types.len(),
{
    if types.len() == 0 {
        None
    } else {
        match find_type(types.drop_last(), t) {
            Some(i) => Some(i),
            None => if types.last() == t { Some((types.len() - 1) as nat) } else { None },
        }
    }
}

/// The type table after interning `t`, and `t`'s handle.
pub open spec fn intern(types: Seq<TypeObj>, t: TypeObj) -> (Seq<TypeObj>, TypePtr) {
    match find_type(types, t) {
        Some(i) => (types, TypePtr { index: i as usize }),
        None => (types.push(t), TypePtr { index: types.len() as usize }),
    }
}

/// With distinct types, `find_type` gives the one index that holds `t`.
pub proof fn lemma_find_type(types: Seq<TypeObj>, t: TypeObj)
    ensures
        find_type(types, t) is Some <==> types.contains(t),
        find_type(types, t) matches Some(i) ==> i < types.len() && types[i as int] == t,
        forall|j: int| 0 <= j < types.len() && types[j] == t && (forall|a: int, b: int| 0 <= a < b < types.len() ==> #[trigger] types[a] != #[trigger] types[b])
            ==> find_type(types, t) == Some(j as nat),
    decreases types.len(),
{
    if types.len() > 0 {
        let u = types.drop_last();
        lemma_find_type(u, t);
        assert forall|j: int| 0 <= j < u.len() implies u[j] == types[j] by {}
        if types.contains(t) && !u.contains(t) {
            let j = choose|j: int| 0 <= j < types.len() && types[j] == t;
            if j < u.len() {
                assert(u[j] == t);
            }
        }
        if u.contains(t) {
            let j = choose|j: int| 0 <= j < u.len() && u[j] == t;
            assert(types[j] == t);
        }
        assert forall|j: int| 0 <= j < types.len() && types[j] == t && (forall|a: int, b: int| 0 <= a < b < types.len() ==> #[trigger] types[a] != #[trigger] types[b])
            implies find_type(types, t) == Some(j as nat) by {
            if j < u.len() {
                assert(u[j] == t);
                assert forall|a: int, b: int| 0 <= a < b < u.len() implies #[trigger] u[a] != #[trigger] u[b] by {
                    assert(types[a] != types[b]);
                }
            } else {
                if u.contains(t) {
                    let k = choose|k: int| 0 <= k < u.len() && u[k] == t;
                    assert(types[k] == types[j]);
                }
            }
        }
    }
}

/// What parsing consults in a context: the registered dialects, and the
/// parse routines of attribute kinds and of type kinds.
pub type Registry = (Seq<Dialect>, Seq<(AttrId, AttrParser)>, Seq<(TypeId, TypeParser)>);

/// Whether a dialect named `name` is among the registered ones.
pub open spec fn reg_has_dialect(reg: Registry, name: Seq<char>) -> bool {
    exists|i: int| 0 <= i < reg.0.len() && (#[trigger] reg.0[i]).name_view() == name
}

/// The state of one compilation session.
#[derive(Debug)]
pub struct Context {
    pub(crate) dialects: Vec<Dialect>,
    pub(crate) types: Vec<TypeObj>,
    pub(crate) attr_parsers: Vec<(AttrId, AttrParser)>,
    pub(crate) type_parsers: Vec<(TypeId, TypeParser)>,
    pub(crate) attr_interfaces: Vec<(AttrId, AttrInterface)>,
    pub(crate) op_interfaces: Vec<(OpId, OpInterface)>,
}

/// Whether `t` only refers to types that come before index `i`.
pub open spec fn refers_below(t: TypeObj, i: int) -> bool {
    match t {
        TypeObj::Integer(_) => true,
        TypeObj::Pointer(p) => p.pointee.index < i,
    }
}

impl Context {
    /// The registered dialects, in the order they were registered.
    pub open(crate) spec fn dialects_view(&self) -> Seq<Dialect> {
        self.dialects@
    }

    /// The interned types; a handle is an index into this sequence.
    pub open(crate) spec fn types_view(&self) -> Seq<TypeObj> {
        self.types@
    }

    /// The parse routines registered for attribute kinds.
    pub open(crate) spec fn attr_parsers_view(&self) -> Seq<(AttrId, AttrParser)> {
        self.attr_parsers@
    }

    /// The parse routines registered for type kinds.
    pub open(crate) spec fn type_parsers_view(&self) -> Seq<(TypeId, TypeParser)> {
        self.type_parsers@
    }

    /// The capabilities registered for attribute kinds.
    pub open(crate) spec fn attr_interfaces_view(&self) -> Seq<(AttrId, AttrInterface)> {
        self.attr_interfaces@
    }

    /// The capabilities registered for operation kinds.
    pub open(crate) spec fn op_interfaces_view(&self) -> Seq<(OpId, OpInterface)> {
        self.op_interfaces@
    }

    /// Whether a dialect named `name` is registered.
    pub open(crate) spec fn has_dialect(&self, name: Seq<char>) -> bool {
        exists|i: int| 0 <= i < self.dialects@.len() && (#[trigger] self.dialects@[i]).name@ == name
    }

    /// What parsing consults tells the same of dialects as the context.
    pub proof fn lemma_registry_has_dialect(&self, name: Seq<char>)
        ensures
            self.has_dialect(name) == reg_has_dialect(self.registry(), name),
    {
        let reg = self.registry();
        assert(reg.0 == self.dialects@);
        if self.has_dialect(name) {
            let i = choose|i: int| 0 <= i < self.dialects@.len() && (#[trigger] self.dialects@[i]).name@ == name;
            assert(reg.0[i].name_view() == name);
        }
        if reg_has_dialect(reg, name) {
            let i = choose|i: int| 0 <= i < reg.0.len() && (#[trigger] reg.0[i]).name_view() == name;
            assert(self.dialects@[i].name@ == name);
        }
    }

    /// What parsing consults: the dialects and the parse routines.
    pub open(crate) spec fn registry(&self) -> Registry {
        (self.dialects@, self.attr_parsers@, self.type_parsers@)
    }

    /// Whether `p` denotes a type of this context.
    pub open(crate) spec fn valid_type(&self, p: TypePtr) -> bool {
        p.index < self.types@.len()
    }

    /// The type that `p` denotes.
    pub open(crate) spec fn type_at(&self, p: TypePtr) -> TypeObj {
        self.types@[p.index as int]
    }

    /// Well-formedness: dialect names are unique, each type is interned once,
    /// and a type refers only to types interned before it.
    pub open(crate) spec fn wf(&self) -> bool {
        &&& forall|i: int, j: int|
            0 <= i < j < self.dialects@.len() ==> (#[trigger] self.dialects@[i]).name@
                != (#[trigger] self.dialects@[j]).name@
        &&& forall|i: int, j: int|
            0 <= i < j < self.types@.len() ==> #[trigger] self.types@[i] != #[trigger] self.types@[j]
        &&& forall|i: int| 0 <= i < self.types@.len() ==> refers_below(#[trigger] self.types@[i], i)
    }

    /// An empty context: no dialects, no types, no registrations.
    pub fn new() -> (r: Context)
        ensures
            r.wf(),
            r.dialects_view() == Seq::<Dialect>::empty(),
            r.types_view() == Seq::<TypeObj>::empty(),
            r.attr_parsers_view() == Seq::<(AttrId, AttrParser)>::empty(),
            r.type_parsers_view() == Seq::<(TypeId, TypeParser)>::empty(),
            r.attr_interfaces_view() == Seq::<(AttrId, AttrInterface)>::empty(),
            r.op_interfaces_view() == Seq::<(OpId, OpInterface)>::empty(),
    {
        Context {
            dialects: Vec::new(),
            types: Vec::new(),
            attr_parsers: Vec::new(),
            type_parsers: Vec::new(),
            attr_interfaces: Vec::new(),
            op_interfaces: Vec::new(),
        }
    }

    /// The index of the dialect named `name`, if one is registered.
    pub(crate) fn find_dialect(&self, name: &DialectName) -> (r: Option<usize>)
        requires
            self.wf(),
        ensures
            r is Some <==> self.has_dialect(name@),
            r matches Some(i) ==> i < self.dialects_view().len() && self.dialects_view()[i as int].name@ == name@,
    {
        let mut i: usize = 0;
        while i < self.dialects.len()
            invariant
                i <= self.dialects@.len(),
                forall|j: int| 0 <= j < i ==> (#[trigger] self.dialects@[j]).name@ != name@,
            decreases self.dialects@.len() - i,
        {
            if self.dialects[i].name.same(name) {
                return Some(i);
            }
            i = i + 1;
        }
        None
    }

    /// Whether a dialect named `name` is registered.
    pub fn is_registered(&self, name: &DialectName) -> (r: bool)
        requires
            self.wf(),
        ensures
            r == self.has_dialect(name@),
    {
        self.find_dialect(name).is_some()
    }

    /// Registers `d` unless a dialect of the same name is registered already.
    pub(crate) fn add_dialect(&mut self, d: Dialect)
        requires
            old(self).wf(),
        ensures
            final(self).wf(),
            old(self).has_dialect(d.name@) ==> *final(self) == *old(self),
            !old(self).has_dialect(d.name@) ==> final(self).dialects_view() == old(
                self,
            ).dialects_view().push(d),
            final(self).types_view() == old(self).types_view(),
            final(self).attr_parsers_view() == old(self).attr_parsers_view(),
            final(self).type_parsers_view() == old(self).type_parsers_view(),
            final(self).attr_interfaces_view() == old(self).attr_interfaces_view(),
            final(self).op_interfaces_view() == old(self).op_interfaces_view(),
            final(self).has_dialect(d.name@),
    {
        if self.find_dialect(&d.name).is_none() {
            let ghost n = d.name@;
            self.dialects.push(d);
            assert(self.dialects@[self.dialects@.len() - 1].name@ == n);
        }
    }

    /// The handle of `t`, interning it first if it is new.
    pub fn intern_type(&mut self, t: TypeObj) -> (r: TypePtr)
        requires
            old(self).wf(),
            refers_below(t, old(self).types_view().len() as int),
        ensures
            final(self).wf(),
            final(self).valid_type(r),
            final(self).type_at(r) == t,
            (final(self).types_view(), r) == intern(old(self).types_view(), t),
            old(self).types_view().contains(t) ==> final(self).types_view() == old(self).types_view(),
            !old(self).types_view().contains(t) ==> final(self).types_view() == old(self).types_view().push(t),
            final(self).dialects_view() == old(self).dialects_view(),
            final(self).attr_parsers_view() == old(self).attr_parsers_view(),
            final(self).type_parsers_view() == old(self).type_parsers_view(),
            final(self).attr_interfaces_view() == old(self).attr_interfaces_view(),
            final(self).op_interfaces_view() == old(self).op_interfaces_view(),
    {
        let mut i: usize = 0;
        while i < self.types.len()
            invariant
                *self == *old(self),
                old(self).wf(),
                i <= self.types@.len(),
                forall|j: int| 0 <= j < i ==> self.types@[j] != t,
            decreases self.types@.len() - i,
        {
            if self.types[i] == t {
                proof {
                    lemma_find_type(self.types@, t);
                }
                return TypePtr { index: i };
            }
            i = i + 1;
        }
        proof {
            lemma_find_type(self.types@, t);
        }
        let n = self.types.len();
        self.types.push(t);
        TypePtr { index: n }
    }

    /// The type that `p` denotes.
    pub fn get_type(&self, p: TypePtr) -> (r: TypeObj)
        requires
            self.valid_type(p),
        ensures
            r == self.type_at(p),
    {
        self.types[p.index]
    }

    /// Registers `parser` as the parse routine of attribute kind `id`, unless
    /// that kind has one already.
    pub fn register_attr_parser(&mut self, id: AttrId, parser: AttrParser)
        requires
            old(self).wf(),
        ensures
            final(self).wf(),
            final(self).dialects_view() == old(self).dialects_view(),
            final(self).types_view() == old(self).types_view(),
            table_get(old(self).attr_parsers_view(), id.dialect@, id.name@) is Some ==> final(self).attr_parsers_view() == old(self).attr_parsers_view(),
            table_get(old(self).attr_parsers_view(), id.dialect@, id.name@) is None ==> final(self).attr_parsers_view() == old(self).attr_parsers_view().push((id, parser)),
            table_get(final(self).attr_parsers_view(), id.dialect@, id.name@) == (match table_get(old(self).attr_parsers_view(), id.dialect@, id.name@) {
                Some(v) => Some(v),
                None => Some(parser),
            }),
            forall|d: Seq<char>, n: Seq<char>| !(d == id.dialect@ && n == id.name@) ==> #[trigger] table_get(final(self).attr_parsers_view(), d, n) == table_get(old(self).attr_parsers_view(), d, n),
            final(self).type_parsers_view() == old(self).type_parsers_view(),
            final(self).attr_interfaces_view() == old(self).attr_interfaces_view(),
            final(self).op_interfaces_view() == old(self).op_interfaces_view(),
    {
        if table_lookup(&self.attr_parsers, &id).is_none() {
            let ghost t = self.attr_parsers@;
            let ghost e = (id, parser);
            self.attr_parsers.push((id, parser));
            proof {
                assert forall|d: Seq<char>, n: Seq<char>| #[trigger] table_get(self.attr_parsers@, d, n) == (match table_get(t, d, n) {
                    Some(v) => Some(v),
                    None => if e.0.dialect@ == d && e.0.name@ == n { Some(e.1) } else { None },
                }) by {
                    lemma_table_get_push(t, e, d, n);
                }
            }
        }
    }

    /// Registers `parser` as the parse routine of type kind `id`, unless that
    /// kind has one already.
    pub fn register_type_parser(&mut self, id: TypeId, parser: TypeParser)
        requires
            old(self).wf(),
        ensures
            final(self).wf(),
            final(self).dialects_view() == old(self).dialects_view(),
            final(self).types_view() == old(self).types_view(),
            final(self).attr_parsers_view() == old(self).attr_parsers_view(),
            table_get(old(self).type_parsers_view(), id.dialect@, id.name@) is Some ==> final(self).type_parsers_view() == old(self).type_parsers_view(),
            table_get(old(self).type_parsers_view(), id.dialect@, id.name@) is None ==> final(self).type_parsers_view() == old(self).type_parsers_view().push((id, parser)),
            table_get(final(self).type_parsers_view(), id.dialect@, id.name@) == (match table_get(old(self).type_parsers_view(), id.dialect@, id.name@) {
                Some(v) => Some(v),
                None => Some(parser),
            }),
            forall|d: Seq<char>, n: Seq<char>| !(d == id.dialect@ && n == id.name@) ==> #[trigger] table_get(final(self).type_parsers_view(), d, n) == table_get(old(self).type_parsers_view(), d, n),
            final(self).attr_interfaces_view() == old(self).attr_interfaces_view(),
            final(self).op_interfaces_view() == old(self).op_interfaces_view(),
    {
        if table_lookup(&self.type_parsers, &id).is_none() {
            let ghost t = self.type_parsers@;
            let ghost e = (id, parser);
            self.type_parsers.push((id, parser));
            proof {
                assert forall|d: Seq<char>, n: Seq<char>| #[trigger] table_get(self.type_parsers@, d, n) == (match table_get(t, d, n) {
                    Some(v) => Some(v),
                    None => if e.0.dialect@ == d && e.0.name@ == n { Some(e.1) } else { None },
                }) by {
                    lemma_table_get_push(t, e, d, n);
                }
            }
        }
    }

    /// Records that attribute kind `id` offers capability `i`.
    pub fn register_attr_interface(&mut self, id: AttrId, i: AttrInterface)
        requires
            old(self).wf(),
        ensures
            final(self).wf(),
            final(self).dialects_view() == old(self).dialects_view(),
            final(self).types_view() == old(self).types_view(),
            final(self).attr_parsers_view() == old(self).attr_parsers_view(),
            final(self).type_parsers_view() == old(self).type_parsers_view(),
            final(self).attr_interfaces_view() == old(self).attr_interfaces_view().push((id, i)),
            final(self).op_interfaces_view() == old(self).op_interfaces_view(),
    {
        self.attr_interfaces.push((id, i));
    }

    /// Records that operation kind `id` offers capability `i`.
    pub fn register_op_interface(&mut self, id: OpId, i: OpInterface)
        requires
            old(self).wf(),
        ensures
            final(self).wf(),
            final(self).dialects_view() == old(self).dialects_view(),
            final(self).types_view() == old(self).types_view(),
            final(self).attr_parsers_view() == old(self).attr_parsers_view(),
            final(self).type_parsers_view() == old(self).type_parsers_view(),
            final(self).attr_interfaces_view() == old(self).attr_interfaces_view(),
            final(self).op_interfaces_view() == old(self).op_interfaces_view().push((id, i)),
    {
        self.op_interfaces.push((id, i));
    }
}

impl IntegerType {
    /// The handle of the integer type of `width` bits and `signedness` in
    /// `ctx`, interning it first if it is new.
    pub fn get(ctx: &mut Context, width: u32, signedness: Signedness) -> (r: TypePtr)
        requires
            old(ctx).wf(),
        ensures
            final(ctx).wf(),
            (final(ctx).types_view(), r) == intern(old(ctx).types_view(), TypeObj::Integer(IntegerType { width, signedness })),
            final(ctx).type_at(r) == TypeObj::Integer(IntegerType { width, signedness }),
            final(ctx).valid_type(r),
            final(ctx).dialects_view() == old(ctx).dialects_view(),
            final(ctx).attr_parsers_view() == old(ctx).attr_parsers_view(),
            final(ctx).type_parsers_view() == old(ctx).type_parsers_view(),
            final(ctx).attr_interfaces_view() == old(ctx).attr_interfaces_view(),
            final(ctx).op_interfaces_view() == old(ctx).op_interfaces_view(),
    {
        ctx.intern_type(TypeObj::Integer(IntegerType { width, signedness }))
    }
}

impl PointerType {
    /// The handle of the type of pointers to `pointee` in `ctx`, interning it
    /// first if it is new.
    pub fn get(ctx: &mut Context, pointee: TypePtr) -> (r: TypePtr)
        requires
            old(ctx).wf(),
            old(ctx).valid_type(pointee),
        ensures
            final(ctx).wf(),
            (final(ctx).types_view(), r) == intern(old(ctx).types_view(), TypeObj::Pointer(PointerType { pointee })),
            final(ctx).type_at(r) == TypeObj::Pointer(PointerType { pointee }),
            final(ctx).valid_type(r),
            final(ctx).dialects_view() == old(ctx).dialects_view(),
            final(ctx).attr_parsers_view() == old(ctx).attr_parsers_view(),
            final(ctx).type_parsers_view() == old(ctx).type_parsers_view(),
            final(ctx).attr_interfaces_view() == old(ctx).attr_interfaces_view(),
            final(ctx).op_interfaces_view() == old(ctx).op_interfaces_view(),
    {
        ctx.intern_type(TypeObj::Pointer(PointerType { pointee }))
    }
}

} // verus!
