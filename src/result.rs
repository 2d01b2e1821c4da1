//! Located, classified, chainable errors.
use vstd::prelude::*;
use crate::location::{Location, location_text};
use crate::text::{push_chars, push_str, string_of, chars_of};
use crate::builtin_attributes::IntegerAttrBitwidthErr;
use crate::op_interfaces::{BinArithOpErr, IntBinArithOpErr, IntBinArithOpWithOverflowFlagErr, PointerTypeResultVerifyErr};

verus! {

/// The three classes of recoverable error.
#[derive(Debug, PartialEq, Eq, Clone, Copy, Structural)]
pub enum ErrorKind {
    /// The program text is malformed.
    InvalidInput,
    /// The IR is well formed but semantically invalid.
    VerificationFailed,
    /// A construction API was misused.
    InvalidArgument,
}

/// How an error class reads in rendered text.
pub open spec fn kind_text(k: ErrorKind) -> Seq<char> {
    match k {
        ErrorKind::InvalidInput => "invalid input program"@,
        ErrorKind::VerificationFailed => "verification failed"@,
        ErrorKind::InvalidArgument => "invalid argument"@,
    }
}

/// A cause that is nothing but a message.
#[derive(Debug, PartialEq, Eq, Clone)]
pub struct StringError(pub String);

/// What lies behind an error: a message, one of the library's own error
/// values, or another error that this one wraps.
#[derive(Debug)]
pub enum ErrorCause {
    Message(StringError),
    IntegerAttrBitwidth(IntegerAttrBitwidthErr),
    BinArithOp(BinArithOpErr),
    IntBinArithOp(IntBinArithOpErr),
    IntBinArithOpWithOverflowFlag(IntBinArithOpWithOverflowFlagErr),
    PointerTypeResultVerify(PointerTypeResultVerifyErr),
    Wrapped(Box<Error>),
}

/// An error with its class, its cause and where it happened.
#[derive(Debug)]
pub struct Error {
    pub kind: ErrorKind,
    pub err: ErrorCause,
    pub loc: Location,
}

/// The rendered form of an error: `[<location>] Compilation error: <kind>.`,
/// a line break, then the cause; a wrapped error is rendered the same way.
pub open spec fn error_text(e: Error) -> Seq<char>
    decreases e,
{
    "["@ + location_text(e.loc) + "] Compilation error: "@ + kind_text(e.kind) + ".\n"@
        + match e.err {
        ErrorCause::Wrapped(inner) => error_text(*inner),
        _ => cause_text(e.err),
    }
}

/// The rendered form of a cause that wraps no other error.
pub open spec fn cause_text(c: ErrorCause) -> Seq<char> {
    match c {
        ErrorCause::Message(m) => m.0@,
        ErrorCause::IntegerAttrBitwidth(_) => "The bitwidth type does not match the bitwidth of the value."@,
        ErrorCause::BinArithOp(_) => "Binary Arithmetic Op must have exactly two operands and one result"@,
        ErrorCause::IntBinArithOp(_) => "Integer binary arithmetic Op can only have signless integer result/operand type"@,
        ErrorCause::IntBinArithOpWithOverflowFlag(_) => "IntegerOverflowFlag missing on Op"@,
        ErrorCause::PointerTypeResultVerify(_) => "Result must be a pointer type, but is not"@,
        ErrorCause::Wrapped(_) => Seq::empty(),
    }
}

/// Appends the text of `k` to `out`.
fn push_kind(out: &mut Vec<char>, k: ErrorKind)
    ensures
        final(out)@ == old(out)@ + kind_text(k),
{
    match k {
        ErrorKind::InvalidInput => push_str(out, "invalid input program"),
        ErrorKind::VerificationFailed => push_str(out, "verification failed"),
        ErrorKind::InvalidArgument => push_str(out, "invalid argument"),
    }
}

impl Error {
    /// A new error of class `kind` with a message as its cause.
    pub fn with_message(kind: ErrorKind, msg: String, loc: Location) -> (r: Error)
        ensures
            r.kind == kind,
            r.err == ErrorCause::Message(StringError(msg)),
            r.loc == loc,
    {
        Error { kind, err: ErrorCause::Message(StringError(msg)), loc }
    }

    /// A new error of class `kind` that wraps `inner` and is located at `loc`;
    /// `inner` keeps its own location.
    pub fn wrap(kind: ErrorKind, inner: Error, loc: Location) -> (r: Error)
        ensures
            r.kind == kind,
            r.err == ErrorCause::Wrapped(Box::new(inner)),
            r.loc == loc,
    {
        Error { kind, err: ErrorCause::Wrapped(Box::new(inner)), loc }
    }

    /// Where this error happened.
    pub fn loc(&self) -> (r: Location)
        ensures
            r == self.loc,
    {
        self.loc.clone()
    }

    /// Moves this error to `loc`; a wrapped cause keeps its own location.
    pub fn set_loc(&mut self, loc: Location)
        ensures
            final(self).loc == loc,
            final(self).kind == old(self).kind,
            final(self).err == old(self).err,
    {
        self.loc = loc;
    }

    /// Appends the rendered form of this error to `out`.
    pub fn render_into(&self, out: &mut Vec<char>)
        ensures
            final(out)@ == old(out)@ + error_text(*self),
        decreases *self,
    {
        push_str(out, "[");
        self.loc.render_into(out);
        push_str(out, "] Compilation error: ");
        push_kind(out, self.kind);
        push_str(out, ".\n");
        match &self.err {
            ErrorCause::Message(m) => {
                let cs = chars_of(m.0.as_str());
                push_chars(out, &cs);
            },
            ErrorCause::IntegerAttrBitwidth(_) => push_str(out, "The bitwidth type does not match the bitwidth of the value."),
            ErrorCause::BinArithOp(_) => push_str(out, "Binary Arithmetic Op must have exactly two operands and one result"),
            ErrorCause::IntBinArithOp(_) => push_str(out, "Integer binary arithmetic Op can only have signless integer result/operand type"),
            ErrorCause::IntBinArithOpWithOverflowFlag(_) => push_str(
                out,
                "IntegerOverflowFlag missing on Op",
            ),
            ErrorCause::PointerTypeResultVerify(_) => push_str(
                out,
                "Result must be a pointer type, but is not",
            ),
            ErrorCause::Wrapped(inner) => {
                inner.render_into(out);
            },
        }
        assert(final(out)@ =~= old(out)@ + error_text(*self));
    }

    /// The rendered form of this error, as a causal stack: this error's class
    /// and location first, then its cause.
    pub fn disp(&self) -> (r: String)
        ensures
            r@ == error_text(*self),
    {
        let mut out: Vec<char> = Vec::new();
        self.render_into(&mut out);
        assert(out@ =~= error_text(*self));
        string_of(&out)
    }
}

} // verus!
