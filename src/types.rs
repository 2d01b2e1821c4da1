//! The type kinds that the context interns, and handles to interned types.
use vstd::prelude::*;

verus! {

/// Whether an integer type is signed, unsigned or signless.
#[derive(Debug, PartialEq, Eq, Clone, Copy, Structural)]
pub enum Signedness {
    Signed,
    Unsigned,
    Signless,
}

/// An integer type of a given bit width and signedness, printed `si<w>`,
/// `ui<w>` or `i<w>`.
#[derive(Debug, PartialEq, Eq, Clone, Copy, Structural)]
pub struct IntegerType {
    pub width: u32,
    pub signedness: Signedness,
}

impl IntegerType {
    /// The bit width of this type.
    pub fn width(&self) -> (r: u32)
        ensures
            r == self.width,
    {
        self.width
    }

    /// The signedness of this type.
    pub fn get_signedness(&self) -> (r: Signedness)
        ensures
            r == self.signedness,
    {
        self.signedness
    }
}

/// A pointer to values of another type.
#[derive(Debug, PartialEq, Eq, Clone, Copy, Structural)]
pub struct PointerType {
    pub pointee: TypePtr,
}

impl PointerType {
    /// The type pointed to.
    pub fn get_pointee_type(&self) -> (r: TypePtr)
        ensures
            r == self.pointee,
    {
        self.pointee
    }
}

/// A type value, of one of the registered type kinds.
#[derive(Debug, PartialEq, Eq, Clone, Copy, Structural)]
pub enum TypeObj {
    Integer(IntegerType),
    Pointer(PointerType),
}

/// A handle to a type interned in a context: its index in the context's
/// table. Two handles from one context are equal exactly when they denote
/// the same type.
#[derive(Debug, PartialEq, Eq, Clone, Copy, Structural)]
pub struct TypePtr {
    pub index: usize,
}

impl TypePtr {
    /// Whether two handles denote the same type.
    pub fn same(&self, other: &TypePtr) -> (r: bool)
        ensures
            r == (*self == *other),
    {
        self.index == other.index
    }
}

} // verus!
