//! What can go wrong at the boundary, and how it is described to the host.

use vstd::prelude::*;
use vstd::string::StringExecFns;
use unleash_yggdrasil::EvalWarning;
use crate::bindings::describe_warnings;

verus! {

/// A failed boundary call.
pub enum BridgeError {
    /// Text from the host was not UTF-8.
    Utf8Error,
    /// A required handle or pointer was null, or the engine resolved nothing.
    NullError,
    /// A state update was not valid JSON; carries the parser's message.
    InvalidJson(String),
    /// The state update was applied, but the engine reported warnings.
    PartialUpdate(Vec<EvalWarning>),
    /// A context was not a valid protobuf message.
    InvalidProto(String),
}

pub const UTF8_MESSAGE: &'static str = "Detected a non UTF-8 string in the input, this is a serious issue and you should report this as a bug.";

pub const NULL_MESSAGE: &'static str = "Null error detected, this is a serious issue and you should report this as a bug.";

pub const INVALID_JSON_PREFIX: &'static str = "Failed to parse JSON: ";

pub const PARTIAL_UPDATE_PREFIX: &'static str = "Engine state was updated but warnings were reported, this may result in some flags evaluating in unexpected ways, please report this: ";

pub const INVALID_PROTO_PREFIX: &'static str = "Invalid Proto Buf input detected: ";

/// Whether `m` describes `e`: a fixed text for each kind, followed by the
/// parser's message, or the engine's warnings as it prints them.
pub open spec fn is_message_of(e: &BridgeError, m: Seq<char>) -> bool {
    match e {
        BridgeError::Utf8Error => m == UTF8_MESSAGE@,
        BridgeError::NullError => m == NULL_MESSAGE@,
        BridgeError::InvalidJson(detail) => m == INVALID_JSON_PREFIX@ + detail@,
        BridgeError::PartialUpdate(_) => exists|printed: Seq<char>| m == PARTIAL_UPDATE_PREFIX@ + printed,
        BridgeError::InvalidProto(detail) => m == INVALID_PROTO_PREFIX@ + detail@,
    }
}

impl BridgeError {
    /// A human-readable description of the error.
    pub fn message(&self) -> (r: String)
        ensures
            is_message_of(self, r@),
    {
        match self {
            BridgeError::Utf8Error => String::from_str(UTF8_MESSAGE),
            BridgeError::NullError => String::from_str(NULL_MESSAGE),
            BridgeError::InvalidJson(detail) => String::from_str(INVALID_JSON_PREFIX).concat(detail.as_str()),
            BridgeError::PartialUpdate(warnings) => {
                let printed = describe_warnings(warnings);
                let r = String::from_str(PARTIAL_UPDATE_PREFIX).concat(printed.as_str());
                assert(r@ == PARTIAL_UPDATE_PREFIX@ + printed@);
                r
            },
            BridgeError::InvalidProto(detail) => String::from_str(INVALID_PROTO_PREFIX).concat(detail.as_str()),
        }
    }
}

} // verus!
