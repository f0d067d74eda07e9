//! The JSON status envelope that state updates answer with:
//! `{"status_code":..,"value":..,"error_message":..}`.

use vstd::prelude::*;
use vstd::string::StringExecFns;
use crate::error::{is_message_of, BridgeError};

verus! {

/// Outcome class of a call, written as -2, -1 or 1.
#[derive(PartialEq, Eq, Structural)]
pub enum ResponseCode {
    Failure,
    NotFound,
    Success,
}

/// A status envelope. `value` is the JSON text of the returned value.
pub struct Response {
    pub status_code: ResponseCode,
    pub value: Option<String>,
    pub error_message: Option<String>,
}

/// Lower-case hexadecimal digits.
pub open spec fn hex_digits() -> Seq<char> {
    seq!['0', '1', '2', '3', '4', '5', '6', '7', '8', '9', 'a', 'b', 'c', 'd', 'e', 'f']
}

/// How one character is written inside a JSON string: quote and backslash
/// escaped, the five named control characters by their letter, the other
/// control characters below 0x20 as `\u00XX`, everything else as itself.
pub open spec fn escaped_char(c: char) -> Seq<char> {
    let u = c as u32;
    if c == '"' {
        seq!['\\', '"']
    } else if c == '\\' {
        seq!['\\', '\\']
    } else if u == 0x08 {
        seq!['\\', 'b']
    } else if u == 0x09 {
        seq!['\\', 't']
    } else if u == 0x0a {
        seq!['\\', 'n']
    } else if u == 0x0c {
        seq!['\\', 'f']
    } else if u == 0x0d {
        seq!['\\', 'r']
    } else if u < 0x20 {
        seq!['\\', 'u', '0', '0', hex_digits()[(u / 16) as int], hex_digits()[(u % 16) as int]]
    } else {
        seq![c]
    }
}

/// The characters of `s`, each written as `escaped_char` writes it.
pub open spec fn escaped(s: Seq<char>) -> Seq<char>
    decreases s.len(),
{
    if s.len() == 0 {
        Seq::empty()
    } else {
        escaped(s.drop_last()) + escaped_char(s.last())
    }
}

/// The JSON string literal that denotes `s`, quotes and escapes included.
pub open spec fn json_string_of(s: Seq<char>) -> Seq<char> {
    seq!['"'] + escaped(s) + seq!['"']
}

/// Relies on serde_json::to_string: on a `str` it writes the text between
/// double quotes, escaping by serde_json's table (quote, backslash, and the
/// bytes below 0x20), and it cannot fail there.
#[verifier::external_body]
fn quote_json(s: &str) -> (r: String)
    ensures
        r@ == json_string_of(s@),
{
    match serde_json::to_string(s) {
        Ok(t) => t,
        Err(_) => String::new(),
    }
}

pub const OPEN_TEXT: &'static str = "{\"status_code\":";

pub const VALUE_TEXT: &'static str = ",\"value\":";

pub const MESSAGE_TEXT: &'static str = ",\"error_message\":";

pub const CLOSE_TEXT: &'static str = "}";

pub const NULL_TEXT: &'static str = "null";

pub const ERROR_CODE_TEXT: &'static str = "-2";

pub const NOT_FOUND_CODE_TEXT: &'static str = "-1";

pub const OK_CODE_TEXT: &'static str = "1";

/// The number that stands for `c` on the wire.
pub open spec fn code_number(c: ResponseCode) -> int {
    match c {
        ResponseCode::Failure => -2,
        ResponseCode::NotFound => -1,
        ResponseCode::Success => 1,
    }
}

/// The decimal text of `code_number(c)`.
pub open spec fn code_text(c: ResponseCode) -> Seq<char> {
    match c {
        ResponseCode::Failure => ERROR_CODE_TEXT@,
        ResponseCode::NotFound => NOT_FOUND_CODE_TEXT@,
        ResponseCode::Success => OK_CODE_TEXT@,
    }
}

/// The JSON text of `r`.
pub open spec fn envelope_text(r: Response) -> Seq<char> {
    OPEN_TEXT@ + code_text(r.status_code) + VALUE_TEXT@ + match r.value {
        Some(v) => v@,
        None => NULL_TEXT@,
    } + MESSAGE_TEXT@ + match r.error_message {
        Some(m) => json_string_of(m@),
        None => NULL_TEXT@,
    } + CLOSE_TEXT@
}

/// The envelope of a success with no value of its own.
pub open spec fn success_text() -> Seq<char> {
    OPEN_TEXT@ + OK_CODE_TEXT@ + VALUE_TEXT@ + NULL_TEXT@ + MESSAGE_TEXT@ + NULL_TEXT@ + CLOSE_TEXT@
}

/// The envelope of a failure described by `m`.
pub open spec fn failure_text(m: Seq<char>) -> Seq<char> {
    OPEN_TEXT@ + ERROR_CODE_TEXT@ + VALUE_TEXT@ + NULL_TEXT@ + MESSAGE_TEXT@ + json_string_of(m) + CLOSE_TEXT@
}

/// The envelope for the outcome of a call that returns no value: the unit
/// value is written as `null`.
pub fn status_envelope(result: Result<(), BridgeError>) -> (r: String)
    ensures
        result is Ok ==> r@ == success_text(),
        result matches Err(e) ==> exists|m: Seq<char>| is_message_of(&e, m) && r@ == failure_text(m),
{
    let ghost outcome = result;
    let response = Response::from_result(
        match result {
            Ok(()) => Ok(Some(String::from_str(NULL_TEXT))),
            Err(e) => Err(e),
        },
    );
    let r = response.to_json();
    proof {
        if let Err(e) = outcome {
            let m = response.error_message->0@;
            assert(r@ =~= failure_text(m));
        } else {
            assert(r@ =~= success_text());
        }
    }
    r
}

impl ResponseCode {
    /// The number that stands for this code on the wire.
    pub fn code(&self) -> (r: i8)
        ensures
            r as int == code_number(*self),
    {
        match self {
            ResponseCode::Failure => -2,
            ResponseCode::NotFound => -1,
            ResponseCode::Success => 1,
        }
    }
}

impl Response {
    /// The envelope for an outcome: `Ok` with the value, `NotFound` where
    /// there is none, `Error` with the error's message.
    pub fn from_result(result: Result<Option<String>, BridgeError>) -> (r: Response)
        ensures
            result matches Ok(Some(v)) ==> r.status_code == ResponseCode::Success && r.value == Some(v)
                && r.error_message is None,
            result matches Ok(None) ==> r.status_code == ResponseCode::NotFound && r.value is None
                && r.error_message is None,
            result matches Err(e) ==> r.status_code == ResponseCode::Failure && r.value is None
                && (r.error_message matches Some(m) && is_message_of(&e, m@)),
    {
        match result {
            Ok(Some(v)) => Response { status_code: ResponseCode::Success, value: Some(v), error_message: None },
            Ok(None) => Response { status_code: ResponseCode::NotFound, value: None, error_message: None },
            Err(e) => Response {
                status_code: ResponseCode::Failure,
                value: None,
                error_message: Some(e.message()),
            },
        }
    }

    /// The JSON text of this envelope.
    pub fn to_json(&self) -> (r: String)
        ensures
            r@ == envelope_text(*self),
    {
        let code = match self.status_code {
            ResponseCode::Failure => ERROR_CODE_TEXT,
            ResponseCode::NotFound => NOT_FOUND_CODE_TEXT,
            ResponseCode::Success => OK_CODE_TEXT,
        };
        let mut out = String::from_str(OPEN_TEXT);
        out.append(code);
        out.append(VALUE_TEXT);
        match &self.value {
            Some(v) => out.append(v.as_str()),
            None => out.append(NULL_TEXT),
        }
        out.append(MESSAGE_TEXT);
        match &self.error_message {
            Some(m) => {
                let quoted = quote_json(m.as_str());
                out.append(quoted.as_str());
            },
            None => out.append(NULL_TEXT),
        }
        out.append(CLOSE_TEXT);
        out
    }
}

} // verus!
