//! Attribute values behind one generic handle, and dictionaries of them.
use vstd::prelude::*;
use crate::builtin_attributes::{DictAttr, FloatAttr, IdentifierAttr, IntegerAttr, StringAttr, TypeAttr, UnitAttr, VecAttr};
use crate::llvm_attributes::{GepIndicesAttr, ICmpPredicateAttr, IntegerOverflowFlagsAttr};
use crate::identifier::{Identifier, seq_less, compare_chars};

verus! {

/// An attribute value of any kind: the generic handle through which
/// heterogeneous attributes are held, compared, printed and verified.
#[derive(Debug, PartialEq, Eq)]
pub enum AttrObj {
    Ident(IdentifierAttr),
    Str(StringAttr),
    Int(IntegerAttr),
    Float(FloatAttr),
    Dict(DictAttr),
    List(VecAttr),
    Unit(UnitAttr),
    Type(TypeAttr),
    OverflowFlags(IntegerOverflowFlagsAttr),
    ICmp(ICmpPredicateAttr),
    GepIndices(GepIndicesAttr),
}

/// A concrete attribute kind, and the safe casts between it and the generic
/// handle.
pub trait Attribute: Sized {
    /// The generic handle that holds `self`.
    spec fn wrap(self) -> AttrObj;

    /// The value that `obj` holds, if it is of this kind.
    fn downcast_ref(obj: &AttrObj) -> (r: Option<&Self>)
        ensures
            r matches Some(a) ==> a.wrap() == *obj,
            r is None ==> forall|a: Self| a.wrap() != *obj;

    /// The value that `obj` holds if it is of this kind, else `obj` itself.
    fn from_obj(obj: AttrObj) -> (r: Result<Self, AttrObj>)
        ensures
            r matches Ok(a) ==> a.wrap() == obj,
            r matches Err(o) ==> o == obj && forall|a: Self| a.wrap() != obj;

    /// The generic handle that holds `self`.
    fn into_obj(self) -> (r: AttrObj)
        ensures
            r == self.wrap();
}

impl AttrObj {
    /// Wraps a value of a concrete kind.
    pub fn new<T: Attribute>(a: T) -> (r: AttrObj)
        ensures
            r == a.wrap(),
    {
        a.into_obj()
    }

    /// Whether this handle holds a value of kind `T`.
    pub fn is<T: Attribute>(&self) -> (r: bool)
        ensures
            r == exists|a: T| a.wrap() == *self,
    {
        match T::downcast_ref(self) {
            Some(_) => true,
            None => false,
        }
    }

    /// The value held, if it is of kind `T`; never fails otherwise.
    pub fn downcast_ref<T: Attribute>(&self) -> (r: Option<&T>)
        ensures
            r matches Some(a) ==> a.wrap() == *self,
            r is None ==> forall|a: T| a.wrap() != *self,
    {
        T::downcast_ref(self)
    }

    /// The value held, if it is of kind `T`; else the handle itself.
    pub fn downcast<T: Attribute>(self) -> (r: Result<T, AttrObj>)
        ensures
            r matches Ok(a) ==> a.wrap() == self,
            r matches Err(o) ==> o == self && forall|a: T| a.wrap() != self,
    {
        T::from_obj(self)
    }
}

/// Keys in strictly increasing order.
pub open spec fn keys_sorted(s: Seq<(Identifier, AttrObj)>) -> bool {
    forall|i: int, j: int| 0 <= i < j < s.len() ==> seq_less(#[trigger] s[i].0@, #[trigger] s[j].0@)
}

/// The mapping that a sequence of entries denotes; a later entry for a key
/// overrides an earlier one.
pub open spec fn entries_map(s: Seq<(Identifier, AttrObj)>) -> Map<Seq<char>, AttrObj>
    decreases s.len(),
{
    if s.len() == 0 {
        Map::empty()
    } else {
        entries_map(s.drop_last()).insert(s.last().0@, s.last().1)
    }
}

/// `seq_less` is irreflexive.
pub proof fn lemma_less_irrefl(a: Seq<char>)
    ensures
        !seq_less(a, a),
    decreases a.len(),
{
    if a.len() > 0 {
        lemma_less_irrefl(a.drop_first());
    }
}

/// `seq_less` is transitive.
pub proof fn lemma_less_trans(a: Seq<char>, b: Seq<char>, c: Seq<char>)
    requires
        seq_less(a, b),
        seq_less(b, c),
    ensures
        seq_less(a, c),
    decreases a.len(),
{
    if a.len() > 0 && b.len() > 0 && c.len() > 0 && a[0] == b[0] && b[0] == c[0] {
        lemma_less_trans(a.drop_first(), b.drop_first(), c.drop_first());
    }
}

/// A key is in the mapping exactly when some entry has it.
pub proof fn lemma_entries_map_dom(s: Seq<(Identifier, AttrObj)>, k: Seq<char>)
    ensures
        entries_map(s).contains_key(k) <==> exists|i: int| 0 <= i < s.len() && (#[trigger] s[i]).0@ == k,
    decreases s.len(),
{
    if s.len() > 0 {
        let t = s.drop_last();
        lemma_entries_map_dom(t, k);
        if entries_map(t).contains_key(k) {
            let i = choose|i: int| 0 <= i < t.len() && (#[trigger] t[i]).0@ == k;
            assert(s[i] == t[i]);
        }
        if exists|i: int| 0 <= i < s.len() && (#[trigger] s[i]).0@ == k {
            let i = choose|i: int| 0 <= i < s.len() && (#[trigger] s[i]).0@ == k;
            if i < s.len() - 1 {
                assert(t[i] == s[i]);
            }
        }
    }
}

/// A key maps to the value of the last entry that has it.
pub proof fn lemma_entries_map_last(s: Seq<(Identifier, AttrObj)>, i: int)
    requires
        0 <= i < s.len(),
        forall|j: int| i < j < s.len() ==> (#[trigger] s[j]).0@ != s[i].0@,
    ensures
        entries_map(s).contains_key(s[i].0@),
        entries_map(s)[s[i].0@] == s[i].1,
    decreases s.len(),
{
    if i < s.len() - 1 {
        let t = s.drop_last();
        assert(s[s.len() - 1].0@ != s[i].0@);
        assert forall|j: int| i < j < t.len() implies (#[trigger] t[j]).0@ != t[i].0@ by {
            assert(t[j] == s[j]);
        }
        lemma_entries_map_last(t, i);
    }
}

/// With keys in increasing order, the entry for a key is the only one.
pub proof fn lemma_sorted_unique(s: Seq<(Identifier, AttrObj)>, i: int, k: Seq<char>)
    requires
        keys_sorted(s),
        0 <= i < s.len(),
        s[i].0@ == k,
    ensures
        entries_map(s).contains_key(k),
        entries_map(s)[k] == s[i].1,
{
    assert forall|j: int| i < j < s.len() implies (#[trigger] s[j]).0@ != s[i].0@ by {
        lemma_less_irrefl(k);
    }
    lemma_entries_map_last(s, i);
}

/// Where a key would go in sorted entries: everything before it is below
/// the key, and, unless the key is there, everything from it on is above.
pub open spec fn insertion_point(s: Seq<(Identifier, AttrObj)>, k: Seq<char>, p: int, found: bool) -> bool {
    &&& 0 <= p <= s.len()
    &&& forall|j: int| 0 <= j < p ==> seq_less(#[trigger] s[j].0@, k)
    &&& found <==> (p < s.len() && s[p].0@ == k)
    &&& !found ==> forall|j: int| p <= j < s.len() ==> seq_less(k, #[trigger] s[j].0@)
}

/// Putting an entry at its insertion point keeps the keys sorted.
pub proof fn lemma_insert_keeps_sorted(
    old_s: Seq<(Identifier, AttrObj)>,
    new_s: Seq<(Identifier, AttrObj)>,
    p: int,
    found: bool,
    e: (Identifier, AttrObj),
)
    requires
        keys_sorted(old_s),
        insertion_point(old_s, e.0@, p, found),
        new_s == (if found { old_s.update(p, e) } else { old_s.insert(p, e) }),
    ensures
        keys_sorted(new_s),
{
    let k = e.0@;
    assert(new_s[p] == e);
    assert forall|i: int, j: int| 0 <= i < j < new_s.len() implies seq_less(#[trigger] new_s[i].0@, #[trigger] new_s[j].0@) by {
        let oi = if found || i < p { i } else { i - 1 };
        let oj = if found || j < p { j } else { j - 1 };
        if i != p && j != p {
            assert(new_s[i] == old_s[oi] && new_s[j] == old_s[oj]);
        } else if i == p {
            assert(new_s[j] == old_s[oj]);
            if found {
                assert(old_s[p].0@ == k);
            }
        } else {
            assert(new_s[i] == old_s[oi]);
        }
    }
}

/// Putting an entry at its insertion point updates the mapping at one key.
pub proof fn lemma_insert_map_at(
    old_s: Seq<(Identifier, AttrObj)>,
    new_s: Seq<(Identifier, AttrObj)>,
    p: int,
    found: bool,
    e: (Identifier, AttrObj),
    q: Seq<char>,
)
    requires
        keys_sorted(old_s),
        keys_sorted(new_s),
        insertion_point(old_s, e.0@, p, found),
        new_s == (if found { old_s.update(p, e) } else { old_s.insert(p, e) }),
    ensures
        entries_map(new_s).contains_key(q) == entries_map(old_s).insert(e.0@, e.1).contains_key(q),
        entries_map(new_s).contains_key(q) ==> entries_map(new_s)[q] == entries_map(old_s).insert(e.0@, e.1)[q],
{
    let k = e.0@;
    assert(new_s[p] == e);
    lemma_entries_map_dom(new_s, q);
    lemma_entries_map_dom(old_s, q);
    if q == k {
        lemma_sorted_unique(new_s, p, q);
    } else {
        if entries_map(old_s).contains_key(q) {
            let i = choose|i: int| 0 <= i < old_s.len() && (#[trigger] old_s[i]).0@ == q;
            lemma_sorted_unique(old_s, i, q);
            let ni = if found || i < p { i } else { i + 1 };
            assert(new_s[ni] == old_s[i]);
            lemma_sorted_unique(new_s, ni, q);
        }
        if entries_map(new_s).contains_key(q) {
            let i = choose|i: int| 0 <= i < new_s.len() && (#[trigger] new_s[i]).0@ == q;
            let oi = if found || i < p { i } else { i - 1 };
            assert(new_s[i] == old_s[oi]);
        }
    }
}

/// Putting an entry at its insertion point keeps the keys sorted and
/// updates the mapping.
pub proof fn lemma_insert_sorted(
    old_s: Seq<(Identifier, AttrObj)>,
    new_s: Seq<(Identifier, AttrObj)>,
    p: int,
    found: bool,
    e: (Identifier, AttrObj),
)
    requires
        keys_sorted(old_s),
        insertion_point(old_s, e.0@, p, found),
        new_s == (if found { old_s.update(p, e) } else { old_s.insert(p, e) }),
    ensures
        keys_sorted(new_s),
        entries_map(new_s) == entries_map(old_s).insert(e.0@, e.1),
{
    lemma_insert_keeps_sorted(old_s, new_s, p, found, e);
    assert forall|q: Seq<char>| #[trigger] entries_map(new_s).contains_key(q) == entries_map(old_s).insert(e.0@, e.1).contains_key(q)
        && (entries_map(new_s).contains_key(q) ==> entries_map(new_s)[q] == entries_map(old_s).insert(e.0@, e.1)[q]) by {
        lemma_insert_map_at(old_s, new_s, p, found, e, q);
    }
    assert(entries_map(new_s) =~= entries_map(old_s).insert(e.0@, e.1));
}

/// Removing the entry of a key updates the mapping at one key.
pub proof fn lemma_remove_map_at(
    old_s: Seq<(Identifier, AttrObj)>,
    new_s: Seq<(Identifier, AttrObj)>,
    p: int,
    found: bool,
    k: Seq<char>,
    q: Seq<char>,
)
    requires
        keys_sorted(old_s),
        keys_sorted(new_s),
        insertion_point(old_s, k, p, found),
        new_s == (if found { old_s.remove(p) } else { old_s }),
    ensures
        entries_map(new_s).contains_key(q) == entries_map(old_s).remove(k).contains_key(q),
        entries_map(new_s).contains_key(q) ==> entries_map(new_s)[q] == entries_map(old_s).remove(k)[q],
{
    lemma_entries_map_dom(new_s, q);
    lemma_entries_map_dom(old_s, q);
    lemma_less_irrefl(q);
    if entries_map(new_s).contains_key(q) {
        let i = choose|i: int| 0 <= i < new_s.len() && (#[trigger] new_s[i]).0@ == q;
        let oi = if !found || i < p { i } else { i + 1 };
        assert(new_s[i] == old_s[oi]);
        if q != k {
            lemma_sorted_unique(old_s, oi, q);
            lemma_sorted_unique(new_s, i, q);
        }
    }
    if q != k && entries_map(old_s).contains_key(q) {
        let i = choose|i: int| 0 <= i < old_s.len() && (#[trigger] old_s[i]).0@ == q;
        let ni = if !found || i < p { i } else { i - 1 };
        assert(new_s[ni] == old_s[i]);
    }
}

/// Removing the entry of a key keeps the keys sorted and removes the key
/// from the mapping.
pub proof fn lemma_remove_sorted(
    old_s: Seq<(Identifier, AttrObj)>,
    new_s: Seq<(Identifier, AttrObj)>,
    p: int,
    found: bool,
    k: Seq<char>,
)
    requires
        keys_sorted(old_s),
        insertion_point(old_s, k, p, found),
        new_s == (if found { old_s.remove(p) } else { old_s }),
    ensures
        keys_sorted(new_s),
        entries_map(new_s) == entries_map(old_s).remove(k),
{
    assert forall|i: int, j: int| 0 <= i < j < new_s.len() implies seq_less(#[trigger] new_s[i].0@, #[trigger] new_s[j].0@) by {
        let oi = if !found || i < p { i } else { i + 1 };
        let oj = if !found || j < p { j } else { j + 1 };
        assert(new_s[i] == old_s[oi] && new_s[j] == old_s[oj]);
    }
    assert forall|q: Seq<char>| #[trigger] entries_map(new_s).contains_key(q) == entries_map(old_s).remove(k).contains_key(q)
        && (entries_map(new_s).contains_key(q) ==> entries_map(new_s)[q] == entries_map(old_s).remove(k)[q]) by {
        lemma_remove_map_at(old_s, new_s, p, found, k, q);
    }
    assert(entries_map(new_s) =~= entries_map(old_s).remove(k));
}

/// A dictionary from identifiers to attributes. Keys are unique; two
/// dictionaries with the same key-to-value pairs are the same value, in
/// whatever order they were built, because entries are kept sorted by key.
#[derive(Debug, PartialEq, Eq)]
pub struct AttributeDict {
    pub(crate) entries: Vec<(Identifier, AttrObj)>,
}

impl View for AttributeDict {
    type V = Map<Seq<char>, AttrObj>;

    closed spec fn view(&self) -> Map<Seq<char>, AttrObj> {
        entries_map(self.entries@)
    }
}

impl AttributeDict {
    /// Well-formedness: keys in strictly increasing order.
    pub closed spec fn wf(&self) -> bool {
        keys_sorted(self.entries@)
    }

    /// The mapping is that of the entries.
    pub(crate) proof fn lemma_view(&self)
        ensures
            self@ == entries_map(self.entries@),
    {
    }

    /// The entries, in increasing order of key.
    pub closed spec fn entries_spec(&self) -> Seq<(Identifier, AttrObj)> {
        self.entries@
    }

    /// The entries, in increasing order of key.
    pub fn entries(&self) -> (r: &Vec<(Identifier, AttrObj)>)
        requires
            self.wf(),
        ensures
            r@ == self.entries_spec(),
            keys_sorted(r@),
            entries_map(r@) == self@,
    {
        &self.entries
    }

    /// An empty dictionary.
    pub fn new() -> (r: AttributeDict)
        ensures
            r@ == Map::<Seq<char>, AttrObj>::empty(),
            r.entries_spec() == Seq::<(Identifier, AttrObj)>::empty(),
            r.wf(),
    {
        AttributeDict { entries: Vec::new() }
    }

    /// Where `key` is or would go: the first index whose key is not below it.
    fn position(&self, key: &Identifier) -> (r: (usize, bool))
        requires
            self.wf(),
        ensures
            insertion_point(self.entries@, key@, r.0 as int, r.1),
    {
        let mut i: usize = 0;
        while i < self.entries.len()
            invariant
                keys_sorted(self.entries@),
                i <= self.entries@.len(),
                forall|j: int| 0 <= j < i ==> seq_less(#[trigger] self.entries@[j].0@, key@),
            decreases self.entries@.len() - i,
        {
            let c = compare_chars(self.entries[i].0.as_chars(), key.as_chars());
            if c == 0 {
                return (i, true);
            }
            if c > 0 {
                proof {
                    assert forall|j: int| i <= j < self.entries@.len() implies seq_less(key@, #[trigger] self.entries@[j].0@) by {
                        if j > i {
                            lemma_less_trans(key@, self.entries@[i as int].0@, self.entries@[j].0@);
                        }
                    }
                }
                return (i, false);
            }
            i = i + 1;
        }
        (i, false)
    }

    /// Maps `key` to `val`, replacing any value it had.
    pub fn insert(&mut self, key: Identifier, val: AttrObj)
        requires
            old(self).wf(),
        ensures
            final(self).wf(),
            final(self)@ == old(self)@.insert(key@, val),
    {
        let (p, found) = self.position(&key);
        let ghost old_s = self.entries@;
        let ghost e = (key, val);
        if found {
            self.entries.set(p, (key, val));
        } else {
            self.entries.insert(p, (key, val));
        }
        proof {
            lemma_insert_sorted(old_s, self.entries@, p as int, found, e);
        }
    }

    /// Removes `key` and its value, if present.
    pub fn remove(&mut self, key: &Identifier)
        requires
            old(self).wf(),
        ensures
            final(self).wf(),
            final(self)@ == old(self)@.remove(key@),
    {
        let (p, found) = self.position(key);
        let ghost old_s = self.entries@;
        if found {
            self.entries.remove(p);
        }
        proof {
            lemma_remove_sorted(old_s, self.entries@, p as int, found, key@);
        }
    }

    /// The value of `key`, if present, to change in place.
    pub fn get_mut(&mut self, key: &Identifier) -> (r: Option<&mut AttrObj>)
        requires
            old(self).wf(),
        ensures
            final(self).wf(),
            r is Some <==> old(self)@.contains_key(key@),
            r is None ==> final(self)@ == old(self)@,
            r matches Some(v) ==> *v == old(self)@[key@] && final(self)@ == old(self)@.insert(key@, *final(v)),
    {
        let (p, found) = self.position(key);
        proof {
            lemma_entries_map_dom(self.entries@, key@);
            if found {
                lemma_sorted_unique(self.entries@, p as int, key@);
            } else if self@.contains_key(key@) {
                let i = choose|i: int| 0 <= i < self.entries@.len() && (#[trigger] self.entries@[i]).0@ == key@;
                lemma_less_irrefl(key@);
                if i < p {
                    assert(seq_less(self.entries@[i].0@, key@));
                } else {
                    assert(seq_less(key@, self.entries@[i].0@));
                }
            }
        }
        if found {
            let ghost old_s = self.entries@;
            proof {
                assert forall|w: AttrObj| #[trigger] entries_map(old_s.update(p as int, (old_s[p as int].0, w)))
                    == entries_map(old_s).insert(key@, w) by {
                    lemma_insert_sorted(old_s, old_s.update(p as int, (old_s[p as int].0, w)), p as int, true, (old_s[p as int].0, w));
                }
            }
            let e = &mut self.entries[p];
            Some(&mut e.1)
        } else {
            None
        }
    }

    /// The value of `key`, if present.
    pub fn get(&self, key: &Identifier) -> (r: Option<&AttrObj>)
        requires
            self.wf(),
        ensures
            r is Some <==> self@.contains_key(key@),
            r matches Some(v) ==> *v == self@[key@],
    {
        let (p, found) = self.position(key);
        proof {
            lemma_entries_map_dom(self.entries@, key@);
            if found {
                lemma_sorted_unique(self.entries@, p as int, key@);
            } else if self@.contains_key(key@) {
                let i = choose|i: int| 0 <= i < self.entries@.len() && (#[trigger] self.entries@[i]).0@ == key@;
                lemma_less_irrefl(key@);
                if i < p {
                    assert(seq_less(self.entries@[i].0@, key@));
                } else {
                    assert(seq_less(key@, self.entries@[i].0@));
                }
            }
        }
        if found {
            Some(&self.entries[p].1)
        } else {
            None
        }
    }
}

impl Attribute for IdentifierAttr {
    open spec fn wrap(self) -> AttrObj {
        AttrObj::Ident(self)
    }

    fn downcast_ref(obj: &AttrObj) -> (r: Option<&IdentifierAttr>) {
        match obj {
            AttrObj::Ident(a) => Some(a),
            _ => None,
        }
    }

    fn from_obj(obj: AttrObj) -> (r: Result<IdentifierAttr, AttrObj>) {
        match obj {
            AttrObj::Ident(a) => Ok(a),
            _ => Err(obj),
        }
    }

    fn into_obj(self) -> (r: AttrObj) {
        AttrObj::Ident(self)
    }
}

impl Attribute for StringAttr {
    open spec fn wrap(self) -> AttrObj {
        AttrObj::Str(self)
    }

    fn downcast_ref(obj: &AttrObj) -> (r: Option<&StringAttr>) {
        match obj {
            AttrObj::Str(a) => Some(a),
            _ => None,
        }
    }

    fn from_obj(obj: AttrObj) -> (r: Result<StringAttr, AttrObj>) {
        match obj {
            AttrObj::Str(a) => Ok(a),
            _ => Err(obj),
        }
    }

    fn into_obj(self) -> (r: AttrObj) {
        AttrObj::Str(self)
    }
}

impl Attribute for IntegerAttr {
    open spec fn wrap(self) -> AttrObj {
        AttrObj::Int(self)
    }

    fn downcast_ref(obj: &AttrObj) -> (r: Option<&IntegerAttr>) {
        match obj {
            AttrObj::Int(a) => Some(a),
            _ => None,
        }
    }

    fn from_obj(obj: AttrObj) -> (r: Result<IntegerAttr, AttrObj>) {
        match obj {
            AttrObj::Int(a) => Ok(a),
            _ => Err(obj),
        }
    }

    fn into_obj(self) -> (r: AttrObj) {
        AttrObj::Int(self)
    }
}

impl Attribute for FloatAttr {
    open spec fn wrap(self) -> AttrObj {
        AttrObj::Float(self)
    }

    fn downcast_ref(obj: &AttrObj) -> (r: Option<&FloatAttr>) {
        match obj {
            AttrObj::Float(a) => Some(a),
            _ => None,
        }
    }

    fn from_obj(obj: AttrObj) -> (r: Result<FloatAttr, AttrObj>) {
        match obj {
            AttrObj::Float(a) => Ok(a),
            _ => Err(obj),
        }
    }

    fn into_obj(self) -> (r: AttrObj) {
        AttrObj::Float(self)
    }
}

impl Attribute for DictAttr {
    open spec fn wrap(self) -> AttrObj {
        AttrObj::Dict(self)
    }

    fn downcast_ref(obj: &AttrObj) -> (r: Option<&DictAttr>) {
        match obj {
            AttrObj::Dict(a) => Some(a),
            _ => None,
        }
    }

    fn from_obj(obj: AttrObj) -> (r: Result<DictAttr, AttrObj>) {
        match obj {
            AttrObj::Dict(a) => Ok(a),
            _ => Err(obj),
        }
    }

    fn into_obj(self) -> (r: AttrObj) {
        AttrObj::Dict(self)
    }
}

impl Attribute for VecAttr {
    open spec fn wrap(self) -> AttrObj {
        AttrObj::List(self)
    }

    fn downcast_ref(obj: &AttrObj) -> (r: Option<&VecAttr>) {
        match obj {
            AttrObj::List(a) => Some(a),
            _ => None,
        }
    }

    fn from_obj(obj: AttrObj) -> (r: Result<VecAttr, AttrObj>) {
        match obj {
            AttrObj::List(a) => Ok(a),
            _ => Err(obj),
        }
    }

    fn into_obj(self) -> (r: AttrObj) {
        AttrObj::List(self)
    }
}

impl Attribute for UnitAttr {
    open spec fn wrap(self) -> AttrObj {
        AttrObj::Unit(self)
    }

    fn downcast_ref(obj: &AttrObj) -> (r: Option<&UnitAttr>) {
        match obj {
            AttrObj::Unit(a) => Some(a),
            _ => None,
        }
    }

    fn from_obj(obj: AttrObj) -> (r: Result<UnitAttr, AttrObj>) {
        match obj {
            AttrObj::Unit(a) => Ok(a),
            _ => Err(obj),
        }
    }

    fn into_obj(self) -> (r: AttrObj) {
        AttrObj::Unit(self)
    }
}

impl Attribute for TypeAttr {
    open spec fn wrap(self) -> AttrObj {
        AttrObj::Type(self)
    }

    fn downcast_ref(obj: &AttrObj) -> (r: Option<&TypeAttr>) {
        match obj {
            AttrObj::Type(a) => Some(a),
            _ => None,
        }
    }

    fn from_obj(obj: AttrObj) -> (r: Result<TypeAttr, AttrObj>) {
        match obj {
            AttrObj::Type(a) => Ok(a),
            _ => Err(obj),
        }
    }

    fn into_obj(self) -> (r: AttrObj) {
        AttrObj::Type(self)
    }
}

impl Attribute for IntegerOverflowFlagsAttr {
    open spec fn wrap(self) -> AttrObj {
        AttrObj::OverflowFlags(self)
    }

    fn downcast_ref(obj: &AttrObj) -> (r: Option<&IntegerOverflowFlagsAttr>) {
        match obj {
            AttrObj::OverflowFlags(a) => Some(a),
            _ => None,
        }
    }

    fn from_obj(obj: AttrObj) -> (r: Result<IntegerOverflowFlagsAttr, AttrObj>) {
        match obj {
            AttrObj::OverflowFlags(a) => Ok(a),
            _ => Err(obj),
        }
    }

    fn into_obj(self) -> (r: AttrObj) {
        AttrObj::OverflowFlags(self)
    }
}

impl Attribute for ICmpPredicateAttr {
    open spec fn wrap(self) -> AttrObj {
        AttrObj::ICmp(self)
    }

    fn downcast_ref(obj: &AttrObj) -> (r: Option<&ICmpPredicateAttr>) {
        match obj {
            AttrObj::ICmp(a) => Some(a),
            _ => None,
        }
    }

    fn from_obj(obj: AttrObj) -> (r: Result<ICmpPredicateAttr, AttrObj>) {
        match obj {
            AttrObj::ICmp(a) => Ok(a),
            _ => Err(obj),
        }
    }

    fn into_obj(self) -> (r: AttrObj) {
        AttrObj::ICmp(self)
    }
}

impl Attribute for GepIndicesAttr {
    open spec fn wrap(self) -> AttrObj {
        AttrObj::GepIndices(self)
    }

    fn downcast_ref(obj: &AttrObj) -> (r: Option<&GepIndicesAttr>) {
        match obj {
            AttrObj::GepIndices(a) => Some(a),
            _ => None,
        }
    }

    fn from_obj(obj: AttrObj) -> (r: Result<GepIndicesAttr, AttrObj>) {
        match obj {
            AttrObj::GepIndices(a) => Ok(a),
            _ => Err(obj),
        }
    }

    fn into_obj(self) -> (r: AttrObj) {
        AttrObj::GepIndices(self)
    }
}

} // verus!
