//! Error types returned by the fallible operations of this crate.
//!
//! Errors are carried as data: every fallible operation hands the error value
//! back to its immediate caller, and construction either fully succeeds or
//! has no observable effect.

use vstd::prelude::*;
use vstd::string::StringSliceAdditionalSpecFns;

use crate::util::{dec_int, push_decimal_i64};

verus! {

/// An error indicating that a component provided to a method was out of
/// range.
#[derive(Clone, Copy, Debug, PartialEq, Eq)]
pub struct ComponentRange {
    /// Name of the component.
    pub name: &'static str,
    /// Minimum allowed value, inclusive.
    pub minimum: i64,
    /// Maximum allowed value, inclusive.
    pub maximum: i64,
    /// Value that was provided.
    pub value: i64,
    /// Whether the minimum and/or maximum is conditional on the value of
    /// other parameters.
    pub conditional_range: bool,
}

/// An error indicating that a conversion failed because the target type
/// could not store the initial value.
#[derive(Clone, Copy, Debug, PartialEq, Eq, Structural)]
pub struct ConversionRange;

/// The system's UTC offset could not be determined at the given datetime.
#[derive(Clone, Copy, Debug, PartialEq, Eq, Structural)]
pub struct IndeterminateOffset;

/// An error that occurred while formatting.
#[derive(Clone, Copy, Debug, PartialEq, Eq, Structural)]
pub enum Format {
    /// The format description requires more information than the value
    /// supplies (for example an offset component without a `UtcOffset`).
    InsufficientTypeInformation,
    /// The output sink reported a failure.
    SinkError,
}

/// An error that occurred while compiling a textual format description.
#[derive(Clone, Debug, PartialEq, Eq, Structural)]
pub enum InvalidFormatDescription {
    /// A `[` was not closed before the end of the description; the payload
    /// is the byte index of the opening bracket.
    UnclosedBracket(usize),
    /// A bracketed component had no name; the payload is the byte index of
    /// the opening bracket.
    MissingComponentName(usize),
    /// A component name was not recognised; the payload is the byte index
    /// where the name starts.
    InvalidComponentName(usize),
    /// A modifier was not recognised or conflicts with the component; the
    /// payload is the byte index where the modifier starts.
    InvalidModifier(usize),
}

/// An error that occurred while parsing input against a format description.
#[derive(Clone, Copy, Debug, PartialEq, Eq)]
pub enum Parse {
    /// A literal token of the description did not match the input.
    InvalidLiteral,
    /// A component could not be read from the input; the payload names the
    /// component.
    InvalidComponent(&'static str),
    /// The description does not provide the components the requested type
    /// needs.
    InsufficientInformation,
    /// A parsed component was outside the range its type allows.
    ComponentRange(ComponentRange),
    /// Input remained after every token of the description was consumed.
    UnexpectedTrailingCharacters,
}

/// A unified error type for anything returned by a method in this crate.
#[derive(Clone, Copy, Debug, PartialEq, Eq)]
pub enum Error {
    ConversionRange,
    ComponentRange(ComponentRange),
    Parse(Parse),
    IndeterminateOffset,
    Format(Format),
}

impl ComponentRange {
    /// A human-readable description of the error, as bytes.
    pub open spec fn message_bytes(self) -> Seq<u8> {
        self.name.spec_bytes() + " must be in the range ".spec_bytes() + dec_int(
            self.minimum as int,
        ) + "..=".spec_bytes() + dec_int(self.maximum as int)
    }

    /// A human-readable description of the error.
    pub fn message(&self) -> (r: Vec<u8>)
        ensures
            r@ == self.message_bytes(),
    {
        let mut out: Vec<u8> = Vec::new();
        crate::util::push_str_bytes(&mut out, self.name);
        crate::util::push_str_bytes(&mut out, " must be in the range ");
        push_decimal_i64(&mut out, self.minimum);
        crate::util::push_str_bytes(&mut out, "..=");
        push_decimal_i64(&mut out, self.maximum);
        proof {
            assert(out@ =~= self.message_bytes());
        }
        out
    }
}

impl ConversionRange {
    /// A human-readable description of the error.
    pub fn message(&self) -> (r: &'static str)
        ensures
            r@ == "Source value is out of range for the target type"@,
    {
        "Source value is out of range for the target type"
    }
}

impl IndeterminateOffset {
    /// A human-readable description of the error.
    pub fn message(&self) -> (r: &'static str)
        ensures
            r@ == "The system's UTC offset could not be determined"@,
    {
        "The system's UTC offset could not be determined"
    }
}

impl Format {
    /// A human-readable description of the error.
    pub fn message(&self) -> (r: &'static str)
        ensures
            self is InsufficientTypeInformation ==> r@
                == "The format provided requires more information than the type provides."@,
            self is SinkError ==> r@ == "The output sink reported an error."@,
    {
        match self {
            Format::InsufficientTypeInformation => {
                "The format provided requires more information than the type provides."
            },
            Format::SinkError => "The output sink reported an error.",
        }
    }
}

impl Error {
    /// A human-readable description of the error; range and parse errors
    /// carry their own renderings.
    pub fn message(&self) -> (r: Vec<u8>)
        ensures
            self is IndeterminateOffset ==> r@
                == "The system's UTC offset could not be determined".spec_bytes(),
            self matches Error::ComponentRange(e) ==> r@ == e.message_bytes(),
            self is ConversionRange ==> r@
                == "Source value is out of range for the target type".spec_bytes(),
            self matches Error::Parse(_) ==> r@ == "An error occurred while parsing".spec_bytes(),
            self == Error::Format(Format::InsufficientTypeInformation) ==> r@
                == "The format provided requires more information than the type provides.".spec_bytes(),
            self == Error::Format(Format::SinkError) ==> r@
                == "The output sink reported an error.".spec_bytes(),
    {
        match self {
            Error::ConversionRange => {
                let mut out: Vec<u8> = Vec::new();
                crate::util::push_str_bytes(&mut out, ConversionRange.message());
                out
            },
            Error::ComponentRange(e) => e.message(),
            Error::Parse(_) => {
                let mut out: Vec<u8> = Vec::new();
                crate::util::push_str_bytes(&mut out, "An error occurred while parsing");
                out
            },
            Error::IndeterminateOffset => {
                let mut out: Vec<u8> = Vec::new();
                crate::util::push_str_bytes(&mut out, IndeterminateOffset.message());
                out
            },
            Error::Format(e) => {
                let mut out: Vec<u8> = Vec::new();
                crate::util::push_str_bytes(&mut out, e.message());
                out
            },
        }
    }

    /// The inner range error, where this error wraps one.
    pub fn component_range(&self) -> (r: Option<ComponentRange>)
        ensures
            match r {
                Some(e) => self == Error::ComponentRange(e),
                None => !(self matches Error::ComponentRange(_)),
            },
    {
        match self {
            Error::ComponentRange(e) => Some(*e),
            _ => None,
        }
    }
}

impl From<ConversionRange> for Error {
    fn from(e: ConversionRange) -> (r: Self) {
        Error::ConversionRange
    }
}

impl vstd::std_specs::convert::FromSpecImpl<ConversionRange> for Error {
    open spec fn obeys_from_spec() -> bool {
        true
    }

    open spec fn from_spec(e: ConversionRange) -> Self {
        Error::ConversionRange
    }
}

impl From<ComponentRange> for Error {
    fn from(e: ComponentRange) -> (r: Self) {
        Error::ComponentRange(e)
    }
}

impl vstd::std_specs::convert::FromSpecImpl<ComponentRange> for Error {
    open spec fn obeys_from_spec() -> bool {
        true
    }

    open spec fn from_spec(e: ComponentRange) -> Self {
        Error::ComponentRange(e)
    }
}

impl From<Parse> for Error {
    fn from(e: Parse) -> (r: Self) {
        Error::Parse(e)
    }
}

impl vstd::std_specs::convert::FromSpecImpl<Parse> for Error {
    open spec fn obeys_from_spec() -> bool {
        true
    }

    open spec fn from_spec(e: Parse) -> Self {
        Error::Parse(e)
    }
}

impl From<IndeterminateOffset> for Error {
    fn from(e: IndeterminateOffset) -> (r: Self) {
        Error::IndeterminateOffset
    }
}

impl vstd::std_specs::convert::FromSpecImpl<IndeterminateOffset> for Error {
    open spec fn obeys_from_spec() -> bool {
        true
    }

    open spec fn from_spec(e: IndeterminateOffset) -> Self {
        Error::IndeterminateOffset
    }
}

impl From<Format> for Error {
    fn from(e: Format) -> (r: Self) {
        Error::Format(e)
    }
}

impl vstd::std_specs::convert::FromSpecImpl<Format> for Error {
    open spec fn obeys_from_spec() -> bool {
        true
    }

    open spec fn from_spec(e: Format) -> Self {
        Error::Format(e)
    }
}

} // verus!
