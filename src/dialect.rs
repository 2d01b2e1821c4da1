//! Dialects group related operations, types and attributes under one name.
use vstd::prelude::*;
use crate::context::Context;
use crate::text::{chars_of, push_chars, push_str, string_of};

verus! {

/// The name of a dialect.
#[derive(Debug, PartialEq, Eq, Hash)]
pub struct DialectName(pub String);

impl View for DialectName {
    type V = Seq<char>;

    open spec fn view(&self) -> Seq<char> {
        self.0@
    }
}

impl Clone for DialectName {
    fn clone(&self) -> (r: DialectName)
        ensures
            r == *self,
    {
        DialectName(self.0.clone())
    }
}

impl DialectName {
    /// A dialect name with the text `name`.
    pub fn new(name: &str) -> (r: DialectName)
        ensures
            r@ == name@,
    {
        DialectName(string_of(&chars_of(name)))
    }

    /// Whether two names are the same text.
    pub fn same(&self, other: &DialectName) -> (r: bool)
        ensures
            r == (self@ == other@),
    {
        self.0 == other.0
    }

    /// The printed form of this name: its text.
    pub fn disp(&self) -> (r: String)
        ensures
            r@ == self@,
    {
        self.0.clone()
    }
}

/// A dialect-qualified identifier `(dialect, name)`, printed `dialect.name`.
#[derive(Debug, PartialEq, Eq, Hash)]
pub struct QualifiedId {
    pub dialect: DialectName,
    pub name: String,
}

/// The identifier of an operation kind.
pub type OpId = QualifiedId;

/// The identifier of a type kind.
pub type TypeId = QualifiedId;

/// The identifier of an attribute kind.
pub type AttrId = QualifiedId;

/// The printed form of a qualified identifier.
pub open spec fn qualified_text(dialect: Seq<char>, name: Seq<char>) -> Seq<char> {
    dialect + "."@ + name
}

impl Clone for QualifiedId {
    fn clone(&self) -> (r: QualifiedId)
        ensures
            r == *self,
    {
        QualifiedId { dialect: self.dialect.clone(), name: self.name.clone() }
    }
}

impl QualifiedId {
    /// The identifier `dialect.name`.
    pub fn new(dialect: &str, name: &str) -> (r: QualifiedId)
        ensures
            r.dialect@ == dialect@,
            r.name@ == name@,
    {
        QualifiedId { dialect: DialectName::new(dialect), name: string_of(&chars_of(name)) }
    }

    /// Whether two identifiers have the same dialect and the same name.
    pub fn same(&self, other: &QualifiedId) -> (r: bool)
        ensures
            r == (self.dialect@ == other.dialect@ && self.name@ == other.name@),
    {
        self.dialect.same(&other.dialect) && self.name == other.name
    }

    /// Appends the printed form `dialect.name` to `out`.
    pub fn render_into(&self, out: &mut Vec<char>)
        ensures
            final(out)@ == old(out)@ + qualified_text(self.dialect@, self.name@),
    {
        push_chars(out, &chars_of(self.dialect.0.as_str()));
        push_str(out, ".");
        push_chars(out, &chars_of(self.name.as_str()));
        assert(final(out)@ =~= old(out)@ + qualified_text(self.dialect@, self.name@));
    }

    /// The printed form `dialect.name`.
    pub fn disp(&self) -> (r: String)
        ensures
            r@ == qualified_text(self.dialect@, self.name@),
    {
        let mut out: Vec<char> = Vec::new();
        self.render_into(&mut out);
        assert(out@ =~= qualified_text(self.dialect@, self.name@));
        string_of(&out)
    }
}

/// A named collection of operation, type and attribute kinds.
#[derive(Debug)]
pub struct Dialect {
    pub(crate) name: DialectName,
    pub(crate) ops: Vec<OpId>,
    pub(crate) types: Vec<TypeId>,
    pub(crate) attributes: Vec<AttrId>,
}

impl Dialect {
    /// The name of this dialect.
    pub open(crate) spec fn name_view(&self) -> Seq<char> {
        self.name@
    }

    /// The operation kinds of this dialect, in the order they were added.
    pub open(crate) spec fn ops_view(&self) -> Seq<OpId> {
        self.ops@
    }

    /// The type kinds of this dialect, in the order they were added.
    pub open(crate) spec fn types_view(&self) -> Seq<TypeId> {
        self.types@
    }

    /// The attribute kinds of this dialect, in the order they were added.
    pub open(crate) spec fn attrs_view(&self) -> Seq<AttrId> {
        self.attributes@
    }

    /// A new dialect named `name`, with no kinds, not yet registered.
    pub fn new(name: DialectName) -> (r: Dialect)
        ensures
            r.name_view() == name@,
            r.ops_view() == Seq::<OpId>::empty(),
            r.types_view() == Seq::<TypeId>::empty(),
            r.attrs_view() == Seq::<AttrId>::empty(),
    {
        Dialect { name, ops: Vec::new(), types: Vec::new(), attributes: Vec::new() }
    }

    /// Registers this dialect in `ctx` unless a dialect of the same name is
    /// registered already, in which case `ctx` is left as it was.
    pub fn register(self, ctx: &mut Context)
        requires
            old(ctx).wf(),
        ensures
            final(ctx).wf(),
            old(ctx).has_dialect(self.name_view()) ==> *final(ctx) == *old(ctx),
            !old(ctx).has_dialect(self.name_view()) ==> final(ctx).dialects_view()
                == old(ctx).dialects_view().push(self),
            final(ctx).types_view() == old(ctx).types_view(),
            final(ctx).attr_parsers_view() == old(ctx).attr_parsers_view(),
            final(ctx).type_parsers_view() == old(ctx).type_parsers_view(),
            final(ctx).attr_interfaces_view() == old(ctx).attr_interfaces_view(),
            final(ctx).op_interfaces_view() == old(ctx).op_interfaces_view(),
            final(ctx).has_dialect(self.name_view()),
    {
        ctx.add_dialect(self);
    }

    /// Adds an operation kind; `op` must belong to this dialect.
    pub fn add_op(&mut self, op: OpId)
        requires
            op.dialect@ == old(self).name_view(),
        ensures
            final(self).name_view() == old(self).name_view(),
            final(self).ops_view() == old(self).ops_view().push(op),
            final(self).types_view() == old(self).types_view(),
            final(self).attrs_view() == old(self).attrs_view(),
    {
        self.ops.push(op);
    }

    /// Adds a type kind; `ty` must belong to this dialect.
    pub fn add_type(&mut self, ty: TypeId)
        requires
            ty.dialect@ == old(self).name_view(),
        ensures
            final(self).name_view() == old(self).name_view(),
            final(self).ops_view() == old(self).ops_view(),
            final(self).types_view() == old(self).types_view().push(ty),
            final(self).attrs_view() == old(self).attrs_view(),
    {
        self.types.push(ty);
    }

    /// Adds an attribute kind; `attr` must belong to this dialect.
    pub fn add_attr(&mut self, attr: AttrId)
        requires
            attr.dialect@ == old(self).name_view(),
        ensures
            final(self).name_view() == old(self).name_view(),
            final(self).ops_view() == old(self).ops_view(),
            final(self).types_view() == old(self).types_view(),
            final(self).attrs_view() == old(self).attrs_view().push(attr),
    {
        self.attributes.push(attr);
    }

    /// This dialect's name.
    pub fn get_name(&self) -> (r: &DialectName)
        ensures
            r@ == self.name_view(),
    {
        &self.name
    }

    /// The registered dialect named `name`, if there is one.
    pub fn get_ref(ctx: &Context, name: DialectName) -> (r: Option<&Dialect>)
        requires
            ctx.wf(),
        ensures
            r is Some <==> ctx.has_dialect(name@),
            r matches Some(d) ==> d.name_view() == name@ && ctx.dialects_view().contains(*d),
    {
        match ctx.find_dialect(&name) {
            Some(i) => Some(&ctx.dialects[i]),
            None => None,
        }
    }

    /// The registered dialect named `name`, if there is one, to change in place.
    pub fn get_mut(ctx: &mut Context, name: DialectName) -> (r: Option<&mut Dialect>)
        requires
            old(ctx).wf(),
        ensures
            r is Some <==> old(ctx).has_dialect(name@),
            r is None ==> *final(ctx) == *old(ctx),
            r matches Some(d) ==> d.name_view() == name@ && exists|i: int|
                0 <= i < old(ctx).dialects_view().len() && old(ctx).dialects_view()[i] == *d
                    && final(ctx).dialects_view() == old(ctx).dialects_view().update(i, *final(d))
                    && final(ctx).types_view() == old(ctx).types_view(),
    {
        match ctx.find_dialect(&name) {
            Some(i) => Some(&mut ctx.dialects[i]),
            None => None,
        }
    }
}

} // verus!
