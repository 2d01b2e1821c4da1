//! The builtin attribute kinds.
use vstd::prelude::*;
use crate::apint::APInt;
use crate::attribute::{AttrObj, AttributeDict, entries_map};
use crate::identifier::Identifier;
use crate::types::TypePtr;
use crate::context::{AttrInterface, AttrParser, Context, TypeParser, table_get};
use crate::dialect::{AttrId, Dialect, DialectName, QualifiedId};
use crate::attr_interfaces::offers;

verus! {

/// The declared type's bit width differs from the value's.
#[derive(Debug, PartialEq, Eq, Clone, Copy)]
pub struct IntegerAttrBitwidthErr;

/// An attribute holding an identifier, printed `builtin.identifier <id>`.
#[derive(Debug, PartialEq, Eq, Clone)]
pub struct IdentifierAttr(pub(crate) Identifier);

impl IdentifierAttr {
    /// The identifier held.
    pub open(crate) spec fn value_spec(&self) -> Seq<char> {
        self.0@
    }

    /// An attribute holding `value`.
    pub fn new(value: Identifier) -> (r: IdentifierAttr)
        ensures
            r.value_spec() == value@,
    {
        IdentifierAttr(value)
    }

    /// The identifier held.
    pub fn value(self) -> (r: Identifier)
        ensures
            r@ == self.value_spec(),
    {
        self.0
    }
}

/// An attribute holding a string, printed `builtin.string "<escaped>"`.
#[derive(Debug, PartialEq, Eq, Clone)]
pub struct StringAttr(pub(crate) String);

impl StringAttr {
    /// The string held.
    pub open(crate) spec fn value_spec(&self) -> Seq<char> {
        self.0@
    }

    /// An attribute holding `value`.
    pub fn new(value: String) -> (r: StringAttr)
        ensures
            r.value_spec() == value@,
    {
        StringAttr(value)
    }

    /// The string held.
    pub fn value(self) -> (r: String)
        ensures
            r@ == self.value_spec(),
    {
        self.0
    }
}

/// An attribute holding an integer of a declared integer type, printed
/// `builtin.integer <value: type>`.
#[derive(Debug, PartialEq, Eq, Clone)]
pub struct IntegerAttr {
    pub(crate) ty: TypePtr,
    pub(crate) val: APInt,
}

impl IntegerAttr {
    /// The declared type.
    pub open(crate) spec fn ty_spec(&self) -> TypePtr {
        self.ty
    }

    /// The value.
    pub open(crate) spec fn val_spec(&self) -> APInt {
        self.val
    }

    /// An attribute holding `val`, declared of type `ty`. Whether their bit
    /// widths agree is checked when the attribute is verified.
    pub fn new(ty: TypePtr, val: APInt) -> (r: IntegerAttr)
        ensures
            r.ty_spec() == ty,
            r.val_spec() == val,
    {
        IntegerAttr { ty, val }
    }

    /// The declared type.
    pub fn get_type(&self) -> (r: TypePtr)
        ensures
            r == self.ty_spec(),
    {
        self.ty
    }

    /// The value.
    pub fn value(&self) -> (r: &APInt)
        ensures
            *r == self.val_spec(),
    {
        &self.val
    }
}

/// A floating-point value; this core holds none.
#[derive(Debug, PartialEq, Eq, Clone, Copy)]
pub struct APFloat;

/// An attribute that stands for a floating-point value, printed
/// `builtin.float <unimplemented>`.
#[derive(Debug, PartialEq, Eq, Clone, Copy)]
pub struct FloatAttr(pub(crate) APFloat);

impl FloatAttr {
    /// An attribute holding `value`.
    pub fn new(value: APFloat) -> (r: FloatAttr) {
        FloatAttr(value)
    }
}

/// A dictionary of attributes, printed `builtin.dict {key: attr, ...}` in
/// increasing order of key.
#[derive(Debug, PartialEq, Eq)]
pub struct DictAttr(pub(crate) AttributeDict);

impl View for DictAttr {
    type V = Map<Seq<char>, AttrObj>;

    open(crate) spec fn view(&self) -> Map<Seq<char>, AttrObj> {
        self.0@
    }
}

impl DictAttr {
    /// Well-formedness: the dictionary's keys are kept in increasing order,
    /// which every operation here establishes and keeps.
    pub closed spec fn wf(&self) -> bool {
        self.0.wf()
    }

    /// The entries, in increasing order of key.
    pub closed spec fn entries_spec(&self) -> Seq<(Identifier, AttrObj)> {
        self.0.entries@
    }

    /// The entries are those of the dictionary held.
    pub(crate) proof fn lemma_entries(&self)
        ensures
            self.entries_spec() == self.0.entries@,
    {
    }

    /// A dictionary of the pairs in `value`; of two pairs with one key the
    /// later wins.
    pub fn new(value: Vec<(Identifier, AttrObj)>) -> (r: DictAttr)
        ensures
            r.wf(),
            r@ == entries_map(value@),
    {
        let mut dict = AttributeDict::new();
        let mut value = value;
        let ghost all = value@;
        assert(all.subrange(0, 0) =~= Seq::<(Identifier, AttrObj)>::empty());
        while value.len() > 0
            invariant
                value@.len() <= all.len(),
                value@ == all.subrange(all.len() - value@.len(), all.len() as int),
                dict@ == entries_map(all.subrange(0, all.len() - value@.len())),
                dict.wf(),
            decreases value@.len(),
        {
            let ghost n = all.len() - value@.len();
            let (k, v) = value.remove(0);
            assert(all[n] == (k, v));
            assert(all.subrange(0, n + 1).drop_last() =~= all.subrange(0, n));
            assert(value@ =~= all.subrange(n + 1, all.len() as int));
            dict.insert(k, v);
        }
        assert(all.subrange(0, all.len() as int) =~= all);
        DictAttr(dict)
    }

    /// Maps `key` to `val`, replacing any value it had.
    pub fn insert(&mut self, key: &Identifier, val: AttrObj)
        requires
            old(self).wf(),
        ensures
            final(self).wf(),
            final(self)@ == old(self)@.insert(key@, val),
    {
        self.0.insert(key.clone(), val);
    }

    /// Removes `key` and its value, if present.
    pub fn remove(&mut self, key: &Identifier)
        requires
            old(self).wf(),
        ensures
            final(self).wf(),
            final(self)@ == old(self)@.remove(key@),
    {
        self.0.remove(key);
    }

    /// The value of `key`, if present.
    pub fn lookup(&self, key: &Identifier) -> (r: Option<&AttrObj>)
        requires
            self.wf(),
        ensures
            r is Some <==> self@.contains_key(key@),
            r matches Some(v) ==> *v == self@[key@],
    {
        self.0.get(key)
    }

    /// The value of `key`, if present, to change in place.
    pub fn lookup_mut(&mut self, key: &Identifier) -> (r: Option<&mut AttrObj>)
        requires
            old(self).wf(),
        ensures
            final(self).wf(),
            r is Some <==> old(self)@.contains_key(key@),
            r is None ==> final(self)@ == old(self)@,
            r matches Some(v) ==> *v == old(self)@[key@] && final(self)@ == old(self)@.insert(key@, *final(v)),
    {
        self.0.get_mut(key)
    }
}

/// A sequence of attributes, printed `builtin.vec [attr, ...]`.
#[derive(Debug, PartialEq, Eq)]
pub struct VecAttr(pub Vec<AttrObj>);

impl VecAttr {
    /// A sequence of the attributes in `value`.
    pub fn new(value: Vec<AttrObj>) -> (r: VecAttr)
        ensures
            r.0@ == value@,
    {
        VecAttr(value)
    }
}

/// An attribute that means something only by being there, printed
/// `builtin.unit`.
#[derive(Debug, PartialEq, Eq, Clone, Copy)]
pub struct UnitAttr;

impl UnitAttr {
    /// The unit attribute.
    pub fn new() -> (r: UnitAttr) {
        UnitAttr
    }
}

/// An attribute holding a type, printed `builtin.type <type>`.
#[derive(Debug, PartialEq, Eq, Clone, Copy)]
pub struct TypeAttr(pub(crate) TypePtr);

impl TypeAttr {
    /// The type held.
    pub open(crate) spec fn ty_spec(&self) -> TypePtr {
        self.0
    }

    /// An attribute holding `ty`.
    pub fn new(ty: TypePtr) -> (r: TypeAttr)
        ensures
            r.ty_spec() == ty,
    {
        TypeAttr(ty)
    }

    /// The type held.
    pub fn get_type(&self) -> (r: TypePtr)
        ensures
            r == self.ty_spec(),
    {
        self.0
    }
}

/// Whether the builtin kinds are registered in `ctx` with this library's
/// parse routines and capabilities.
pub open(crate) spec fn builtin_ready(ctx: Context) -> bool {
    let b = "builtin"@;
    &&& ctx.has_dialect(b)
    &&& table_get(ctx.attr_parsers_view(), b, "identifier"@) == Some(AttrParser::Identifier)
    &&& table_get(ctx.attr_parsers_view(), b, "string"@) == Some(AttrParser::String)
    &&& table_get(ctx.attr_parsers_view(), b, "integer"@) == Some(AttrParser::Integer)
    &&& table_get(ctx.attr_parsers_view(), b, "dict"@) == Some(AttrParser::Dict)
    &&& table_get(ctx.attr_parsers_view(), b, "vec"@) == Some(AttrParser::Vec)
    &&& table_get(ctx.attr_parsers_view(), b, "unit"@) == Some(AttrParser::Unit)
    &&& table_get(ctx.attr_parsers_view(), b, "type"@) == Some(AttrParser::Type)
    &&& table_get(ctx.type_parsers_view(), b, "integer"@) == Some(TypeParser::Integer)
    &&& offers(ctx, b, "integer"@, AttrInterface::Typed)
    &&& offers(ctx, b, "type"@, AttrInterface::Typed)
}

/// Whether no builtin kind has a parse routine registered in `ctx` yet.
pub open(crate) spec fn builtin_unclaimed(ctx: Context) -> bool {
    let b = "builtin"@;
    &&& table_get(ctx.attr_parsers_view(), b, "identifier"@) is None
    &&& table_get(ctx.attr_parsers_view(), b, "string"@) is None
    &&& table_get(ctx.attr_parsers_view(), b, "integer"@) is None
    &&& table_get(ctx.attr_parsers_view(), b, "dict"@) is None
    &&& table_get(ctx.attr_parsers_view(), b, "vec"@) is None
    &&& table_get(ctx.attr_parsers_view(), b, "unit"@) is None
    &&& table_get(ctx.attr_parsers_view(), b, "type"@) is None
    &&& table_get(ctx.type_parsers_view(), b, "integer"@) is None
}

/// Adds attribute kind `dialect.name` to `d` and registers its parse routine.
pub(crate) fn register_attr_kind(ctx: &mut Context, d: &mut Dialect, dialect: &str, name: &str, p: AttrParser)
    requires
        old(ctx).wf(),
        old(d).name_view() == dialect@,
    ensures
        final(ctx).wf(),
        final(d).name_view() == dialect@,
        final(d).ops_view() == old(d).ops_view(),
        final(d).types_view() == old(d).types_view(),
        final(ctx).dialects_view() == old(ctx).dialects_view(),
        final(ctx).types_view() == old(ctx).types_view(),
        final(ctx).type_parsers_view() == old(ctx).type_parsers_view(),
        final(ctx).attr_interfaces_view() == old(ctx).attr_interfaces_view(),
        final(ctx).op_interfaces_view() == old(ctx).op_interfaces_view(),
        table_get(final(ctx).attr_parsers_view(), dialect@, name@) == (match table_get(old(ctx).attr_parsers_view(), dialect@, name@) {
            Some(v) => Some(v),
            None => Some(p),
        }),
        forall|dd: Seq<char>, nn: Seq<char>| !(dd == dialect@ && nn == name@) ==> #[trigger] table_get(final(ctx).attr_parsers_view(), dd, nn) == table_get(old(ctx).attr_parsers_view(), dd, nn),
{
    d.add_attr(QualifiedId::new(dialect, name));
    ctx.register_attr_parser(QualifiedId::new(dialect, name), p);
}

/// Whether `(d, n)` is one of the builtin attribute kinds that
/// registration gives a parse routine.
pub open spec fn is_builtin_attr_kind(d: Seq<char>, n: Seq<char>) -> bool {
    d == "builtin"@ && (n == "identifier"@ || n == "string"@ || n == "integer"@ || n == "dict"@
        || n == "vec"@ || n == "unit"@ || n == "type"@)
}

/// Whether a capability entry says that kind `dialect.name` is typed.
pub open(crate) spec fn typed_entry(e: (AttrId, AttrInterface), dialect: Seq<char>, name: Seq<char>) -> bool {
    e.0.dialect@ == dialect && e.0.name@ == name && e.1 == AttrInterface::Typed
}

/// Registers the builtin dialect in `ctx`: its attribute kinds with their
/// parse routines, the integer type kind, and the typed capability of
/// integer and type attributes. What is registered already stays as it was,
/// and nothing else is touched.
pub fn register(ctx: &mut Context)
    requires
        old(ctx).wf(),
    ensures
        final(ctx).wf(),
        final(ctx).has_dialect("builtin"@),
        final(ctx).types_view() == old(ctx).types_view(),
        old(ctx).has_dialect("builtin"@) ==> final(ctx).dialects_view() == old(ctx).dialects_view(),
        !old(ctx).has_dialect("builtin"@) ==> final(ctx).dialects_view().len() == old(ctx).dialects_view().len() + 1
            && final(ctx).dialects_view().drop_last() == old(ctx).dialects_view()
            && final(ctx).dialects_view().last().name_view() == "builtin"@,
        forall|d: Seq<char>, n: Seq<char>| !is_builtin_attr_kind(d, n)
            ==> #[trigger] table_get(final(ctx).attr_parsers_view(), d, n) == table_get(old(ctx).attr_parsers_view(), d, n),
        forall|d: Seq<char>, n: Seq<char>| !(d == "builtin"@ && n == "integer"@)
            ==> #[trigger] table_get(final(ctx).type_parsers_view(), d, n) == table_get(old(ctx).type_parsers_view(), d, n),
        final(ctx).attr_interfaces_view().len() == old(ctx).attr_interfaces_view().len() + 2,
        final(ctx).attr_interfaces_view().subrange(0, old(ctx).attr_interfaces_view().len() as int)
            == old(ctx).attr_interfaces_view(),
        typed_entry(final(ctx).attr_interfaces_view()[old(ctx).attr_interfaces_view().len() as int], "builtin"@, "integer"@),
        typed_entry(final(ctx).attr_interfaces_view()[old(ctx).attr_interfaces_view().len() + 1int], "builtin"@, "type"@),
        final(ctx).op_interfaces_view() == old(ctx).op_interfaces_view(),
        builtin_unclaimed(*old(ctx)) ==> builtin_ready(*final(ctx)),
{
    proof {
        reveal_strlit("builtin");
        reveal_strlit("identifier");
        reveal_strlit("string");
        reveal_strlit("integer");
        reveal_strlit("dict");
        reveal_strlit("vec");
        reveal_strlit("unit");
        reveal_strlit("type");
        assert("identifier"@.len() == 10);
        assert("string"@.len() == 6);
        assert("integer"@.len() == 7);
        assert("dict"@.len() == 4);
        assert("vec"@.len() == 3);
        assert("unit"@.len() == 4);
        assert("type"@.len() == 4);
        assert("dict"@ != "unit"@ && "dict"@ != "type"@ && "unit"@ != "type"@) by {
            assert("dict"@[0] != "unit"@[0] && "dict"@[0] != "type"@[0] && "unit"@[0] != "type"@[0]);
        }
    }
    let ghost c0 = *ctx;
    let mut d = Dialect::new(DialectName::new("builtin"));
    register_attr_kind(ctx, &mut d, "builtin", "identifier", AttrParser::Identifier);
    let ghost c1 = *ctx;
    register_attr_kind(ctx, &mut d, "builtin", "string", AttrParser::String);
    let ghost c2 = *ctx;
    register_attr_kind(ctx, &mut d, "builtin", "integer", AttrParser::Integer);
    let ghost c3 = *ctx;
    register_attr_kind(ctx, &mut d, "builtin", "dict", AttrParser::Dict);
    let ghost c4 = *ctx;
    register_attr_kind(ctx, &mut d, "builtin", "vec", AttrParser::Vec);
    let ghost c5 = *ctx;
    register_attr_kind(ctx, &mut d, "builtin", "unit", AttrParser::Unit);
    let ghost c6 = *ctx;
    register_attr_kind(ctx, &mut d, "builtin", "type", AttrParser::Type);
    let ghost c7 = *ctx;
    proof {
        assert forall|dd: Seq<char>, nn: Seq<char>| !is_builtin_attr_kind(dd, nn)
            implies #[trigger] table_get(c7.attr_parsers_view(), dd, nn) == table_get(c0.attr_parsers_view(), dd, nn) by {
            assert(table_get(c7.attr_parsers_view(), dd, nn) == table_get(c6.attr_parsers_view(), dd, nn));
            assert(table_get(c6.attr_parsers_view(), dd, nn) == table_get(c5.attr_parsers_view(), dd, nn));
            assert(table_get(c5.attr_parsers_view(), dd, nn) == table_get(c4.attr_parsers_view(), dd, nn));
            assert(table_get(c4.attr_parsers_view(), dd, nn) == table_get(c3.attr_parsers_view(), dd, nn));
            assert(table_get(c3.attr_parsers_view(), dd, nn) == table_get(c2.attr_parsers_view(), dd, nn));
            assert(table_get(c2.attr_parsers_view(), dd, nn) == table_get(c1.attr_parsers_view(), dd, nn));
            assert(table_get(c1.attr_parsers_view(), dd, nn) == table_get(c0.attr_parsers_view(), dd, nn));
        }
    }
    d.add_type(QualifiedId::new("builtin", "integer"));
    ctx.register_type_parser(QualifiedId::new("builtin", "integer"), TypeParser::Integer);
    let ghost n0 = ctx.attr_interfaces_view().len();
    ctx.register_attr_interface(QualifiedId::new("builtin", "integer"), AttrInterface::Typed);
    ctx.register_attr_interface(QualifiedId::new("builtin", "type"), AttrInterface::Typed);
    let ghost c8 = *ctx;
    d.register(ctx);
    proof {
        assert(c8.attr_interfaces_view()[n0 as int].0.name@ == "integer"@);
        assert(c8.attr_interfaces_view()[n0 + 1int].0.name@ == "type"@);
        assert(c8.attr_interfaces_view().subrange(0, n0 as int) =~= c0.attr_interfaces_view());
        assert(offers(*ctx, "builtin"@, "integer"@, AttrInterface::Typed));
        assert(offers(*ctx, "builtin"@, "type"@, AttrInterface::Typed));
        if !c0.has_dialect("builtin"@) {
            assert(ctx.dialects_view().drop_last() =~= c0.dialects_view());
        }
        if builtin_unclaimed(c0) {
            let b = "builtin"@;
            assert(table_get(ctx.attr_parsers_view(), b, "identifier"@) == Some(AttrParser::Identifier));
            assert(table_get(ctx.attr_parsers_view(), b, "string"@) == Some(AttrParser::String));
            assert(table_get(ctx.attr_parsers_view(), b, "integer"@) == Some(AttrParser::Integer));
            assert(table_get(ctx.attr_parsers_view(), b, "dict"@) == Some(AttrParser::Dict));
            assert(table_get(ctx.attr_parsers_view(), b, "vec"@) == Some(AttrParser::Vec));
            assert(table_get(ctx.attr_parsers_view(), b, "unit"@) == Some(AttrParser::Unit));
            assert(table_get(ctx.attr_parsers_view(), b, "type"@) == Some(AttrParser::Type));
            assert(table_get(ctx.type_parsers_view(), b, "integer"@) == Some(TypeParser::Integer));
        }
    }
}

} // verus!
