use vstd::prelude::*;

use crate::devcontainer::jsonc::grammar::JsoncError;
use crate::text::{chars_of, decimal, push_decimal, push_str, string_of};

verus! {

/// An error with a message for the user.
#[derive(Debug, PartialEq)]
pub struct Error(String);

impl View for Error {
    type V = Seq<char>;

    closed spec fn view(&self) -> Seq<char> {
        self.0@
    }
}

impl Error {
    /// An error with the given message.
    pub fn new(message: &str) -> (r: Error)
        ensures
            r@ == message@,
    {
        Error(message.to_owned())
    }

    /// An error whose message is the given characters.
    pub fn from_chars(message: &Vec<char>) -> (r: Error)
        ensures
            r@ == message@,
    {
        Error(string_of(message.as_slice()))
    }

    /// The message of this error.
    pub fn message(&self) -> (r: String)
        ensures
            r@ == self@,
    {
        self.0.clone()
    }

    /// The error for a document that could not be read.
    pub fn from_jsonc(e: JsoncError) -> (r: Error)
        ensures
            r@ == jsonc_message(e),
    {
        Error(jsonc_error_message(e))
    }
}

/// What a JSONC error says.
pub open spec fn jsonc_message(e: JsoncError) -> Seq<char> {
    match e {
        JsoncError::UnexpectedEof => "unexpected end of input"@,
        JsoncError::UnexpectedChar(p) => "unexpected character at byte "@ + decimal(p as nat),
        JsoncError::InvalidNumber(p) => "invalid number at byte "@ + decimal(p as nat),
        JsoncError::InvalidEscape(p) => "invalid escape sequence at byte "@ + decimal(p as nat),
        JsoncError::UnclosedString(p) => "unclosed string starting at byte "@ + decimal(p as nat),
        JsoncError::UnclosedComment(p) => "unclosed comment starting at byte "@ + decimal(p as nat),
        JsoncError::TrailingCharacters(p) => "unexpected trailing characters at byte "@ + decimal(p as nat),
        JsoncError::DepthLimitExceeded => "nesting depth limit exceeded"@,
    }
}

/// The message of a JSONC error.
pub fn jsonc_error_message(e: JsoncError) -> (r: String)
    ensures
        r@ == jsonc_message(e),
{
    let mut out: Vec<char> = Vec::new();
    match e {
        JsoncError::UnexpectedEof => push_str(&mut out, "unexpected end of input"),
        JsoncError::UnexpectedChar(p) => {
            push_str(&mut out, "unexpected character at byte ");
            push_decimal(&mut out, p);
        },
        JsoncError::InvalidNumber(p) => {
            push_str(&mut out, "invalid number at byte ");
            push_decimal(&mut out, p);
        },
        JsoncError::InvalidEscape(p) => {
            push_str(&mut out, "invalid escape sequence at byte ");
            push_decimal(&mut out, p);
        },
        JsoncError::UnclosedString(p) => {
            push_str(&mut out, "unclosed string starting at byte ");
            push_decimal(&mut out, p);
        },
        JsoncError::UnclosedComment(p) => {
            push_str(&mut out, "unclosed comment starting at byte ");
            push_decimal(&mut out, p);
        },
        JsoncError::TrailingCharacters(p) => {
            push_str(&mut out, "unexpected trailing characters at byte ");
            push_decimal(&mut out, p);
        },
        JsoncError::DepthLimitExceeded => push_str(&mut out, "nesting depth limit exceeded"),
    }
    proof {
        reveal_strlit("");
    }
    assert(out@ =~= Seq::<char>::empty() + jsonc_message(e));
    string_of(out.as_slice())
}

} // verus!
