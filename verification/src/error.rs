use crate::text::str_eq;
use vstd::prelude::*;

verus! {

/// The kind of input/output failure that a decoder can meet.
#[derive(Debug, Clone, Copy, PartialEq, Eq, Structural)]
pub enum IoErrorKind {
    UnexpectedEof,
}

/// Where an error happened: the operation, the byte offset and the field.
#[derive(Debug, Clone, Copy)]
pub struct ErrorContext {
    pub op: &'static str,
    pub offset: usize,
    pub field: Option<&'static str>,
}

#[derive(Debug)]
#[allow(inconsistent_fields)]
pub enum Error {
    Io(IoErrorKind),
    Context { context: ErrorContext, source: Box<Error> },
    Serde { message: String },
    UnknownTag { id: u8 },
    InvalidRoot { id: u8 },
    InvalidHeader { detail: &'static str, expected: Option<u32>, actual: Option<u32> },
    DepthExceeded { depth: usize, max_depth: usize },
    SizeExceeded { field: &'static str, max: usize, actual: usize },
    TrailingPayloadBytes { unread: usize },
    UnexpectedEndTagPayload,
    InvalidUtf8 { field: &'static str },
    InvalidListHeader { element_type_id: u8, length: usize },
    UnexpectedType { context: &'static str, expected_id: u8, actual_id: u8 },
    InvalidStructureShape { detail: &'static str },
    InvalidPaletteIndex { index: i32, palette_len: usize },
    NegativeLength { field: &'static str, value: i32 },
    LengthOverflow { field: &'static str, max: usize, actual: usize },
    InvalidVarint { detail: &'static str },
}

/// The result of the operations of this library.
pub type Result<T> = std::result::Result<T, Error>;

/// `e` wrapped in one layer of context.
pub open spec fn wrap(e: Error, op: &'static str, offset: usize, field: Option<&'static str>) -> Error {
    Error::Context { context: ErrorContext { op, offset, field }, source: Box::new(e) }
}

/// The error below all layers of context.
pub open spec fn innermost_of(e: Error) -> Error
    decreases e,
{
    match e {
        Error::Context { source, .. } => innermost_of(*source),
        _ => e,
    }
}

/// Whether some layer of context names the operation `op` and the field `field`.
pub open spec fn has_context_of(e: Error, op: Seq<char>, field: Option<Seq<char>>) -> bool
    decreases e,
{
    match e {
        Error::Context { context, source } => {
            (context.op@ == op && opt_view(context.field) == field) || has_context_of(*source, op, field)
        },
        _ => false,
    }
}

/// The characters of an optional field name.
pub open spec fn opt_view(f: Option<&'static str>) -> Option<Seq<char>> {
    match f {
        Some(s) => Some(s@),
        None => None,
    }
}

fn opt_str_eq(a: Option<&'static str>, b: Option<&'static str>) -> (r: bool)
    ensures
        r == (opt_view(a) == opt_view(b)),
{
    match (a, b) {
        (Some(x), Some(y)) => str_eq(x, y),
        (None, None) => true,
        _ => false,
    }
}

impl Error {
    /// Wraps the error in a layer of context: the operation, the offset and the field.
    pub fn with_context(self, op: &'static str, offset: usize, field: Option<&'static str>) -> (r: Self)
        ensures
            r == wrap(self, op, offset, field),
    {
        Error::Context { context: ErrorContext { op, offset, field }, source: Box::new(self) }
    }

    /// The error under all layers of context.
    pub fn innermost(&self) -> (r: &Error)
        ensures
            *r == innermost_of(*self),
        decreases self,
    {
        match self {
            Error::Context { source, .. } => source.innermost(),
            _ => self,
        }
    }

    /// Whether some layer of context names this operation and field.
    pub fn has_context(&self, op: &'static str, field: Option<&'static str>) -> (r: bool)
        ensures
            r == has_context_of(*self, op@, opt_view(field)),
        decreases self,
    {
        match self {
            Error::Context { context, source } => {
                if str_eq(context.op, op) && opt_str_eq(context.field, field) {
                    true
                } else {
                    source.has_context(op, field)
                }
            },
            _ => false,
        }
    }
}

} // verus!
