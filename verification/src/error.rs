//! Runtime errors raised by the builtins and the descriptors they come from.

use vstd::prelude::*;
use crate::descriptor::BuiltinErrorDescriptor;

verus! {

/// Error raised by a builtin: the message shown to the user, the builtin it
/// came from, its stable identifier and the error that caused it, if any.
pub struct RuntimeError {
    pub message: String,
    pub builtin: Option<String>,
    pub identifier: Option<String>,
    pub source: Option<Box<RuntimeError>>,
}

/// Copy of an optional string.
pub fn clone_opt(s: &Option<String>) -> (r: Option<String>)
    ensures
        match (r, *s) {
            (Some(a), Some(b)) => a@ == b@,
            (None, None) => true,
            _ => false,
        },
{
    match s {
        Some(t) => Some(t.clone()),
        None => None,
    }
}

/// An optional string's characters.
pub open spec fn opt_view(s: Option<String>) -> Option<Seq<char>> {
    match s {
        Some(t) => Some(t@),
        None => None,
    }
}

/// Error built from a descriptor: its message, the builtin's name and the
/// descriptor's identifier, if it has one.
pub fn descriptor_error(error: &BuiltinErrorDescriptor, builtin: &str) -> (e: RuntimeError)
    ensures
        e.message@ == error.message@,
        opt_view(e.builtin) == Some(builtin@),
        opt_view(e.identifier) == opt_view(error.identifier),
        e.source is None,
{
    descriptor_error_with_message(error, error.message.clone(), builtin)
}

/// Error built from a descriptor with a custom message.
pub fn descriptor_error_with_message(
    error: &BuiltinErrorDescriptor,
    message: String,
    builtin: &str,
) -> (e: RuntimeError)
    ensures
        e.message@ == message@,
        opt_view(e.builtin) == Some(builtin@),
        opt_view(e.identifier) == opt_view(error.identifier),
        e.source is None,
{
    let identifier = clone_opt(&error.identifier);
    proof {
        assert(opt_view(identifier) == opt_view(error.identifier));
    }
    RuntimeError { message, builtin: Some(String::from_str(builtin)), identifier, source: None }
}

/// Error built from a descriptor with a custom message, caused by `source`.
pub fn descriptor_error_with_source(
    error: &BuiltinErrorDescriptor,
    message: String,
    builtin: &str,
    source: RuntimeError,
) -> (e: RuntimeError)
    ensures
        e.message@ == message@,
        opt_view(e.builtin) == Some(builtin@),
        opt_view(e.identifier) == opt_view(error.identifier),
        e.source == Some(Box::new(source)),
{
    let mut e = descriptor_error_with_message(error, message, builtin);
    e.source = Some(Box::new(source));
    e
}

/// Attributes an error raised while handling a builtin's arguments to that
/// builtin: an error that names no builtin yet is given `builtin`; any other
/// error passes through unchanged.
pub fn map_control_flow_with_builtin(err: RuntimeError, builtin: &str) -> (e: RuntimeError)
    ensures
        e.message@ == err.message@,
        opt_view(e.identifier) == opt_view(err.identifier),
        opt_view(e.builtin) == (match err.builtin {
            Some(b) => Some(b@),
            None => Some(builtin@),
        }),
        e.source == err.source,
        err.builtin is Some ==> e == err,
{
    let mut e = err;
    if e.builtin.is_none() {
        e.builtin = Some(String::from_str(builtin));
    }
    e
}

} // verus!
