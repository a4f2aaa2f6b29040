//! Turning the payload of a caught panic into a message.
use vstd::prelude::*;

verus! {

/// What a caught panic carried, as far as a message can be read from it: a
/// `String`, a `&'static str`, or something else.
pub enum PanicPayload {
    Owned(String),
    Static(&'static str),
    Other,
}

/// The message a payload carries.
pub open spec fn payload_text(e: PanicPayload) -> Seq<char>
    recommends
        !(e is Other),
{
    match e {
        PanicPayload::Owned(s) => s@,
        PanicPayload::Static(s) => s@,
        PanicPayload::Other => Seq::empty(),
    }
}

/// Replaces the payload of a caught panic by its message. A payload that is
/// neither a `String` nor a `&'static str` carries no message.
pub fn convert_error_to_string(e: PanicPayload) -> (r: String)
    requires
        !(e is Other),
    ensures
        r@ == payload_text(e),
{
    match e {
        PanicPayload::Owned(s) => s,
        PanicPayload::Static(s) => String::from_str(s),
        PanicPayload::Other => String::new(),
    }
}

/// Like `convert_error_to_string`, for a payload that was sent across
/// threads.
pub fn convert_error_to_string_send(e: PanicPayload) -> (r: String)
    requires
        !(e is Other),
    ensures
        r@ == payload_text(e),
{
    convert_error_to_string(e)
}

/// Keeps a value; replaces the payload of a caught panic by its message.
pub fn convert_result_error_to_string<T>(r: Result<T, PanicPayload>) -> (out: Result<T, String>)
    requires
        r matches Err(e) ==> !(e is Other),
    ensures
        match (r, out) {
            (Ok(v), Ok(w)) => v == w,
            (Err(e), Err(m)) => m@ == payload_text(e),
            _ => false,
        },
{
    match r {
        Err(e) => Err(convert_error_to_string(e)),
        Ok(v) => Ok(v),
    }
}

/// Like `convert_result_error_to_string`, for a payload that was sent
/// across threads.
pub fn convert_result_error_to_string_send<T>(r: Result<T, PanicPayload>) -> (out: Result<
    T,
    String,
>)
    requires
        r matches Err(e) ==> !(e is Other),
    ensures
        match (r, out) {
            (Ok(v), Ok(w)) => v == w,
            (Err(e), Err(m)) => m@ == payload_text(e),
            _ => false,
        },
{
    match r {
        Err(e) => Err(convert_error_to_string(e)),
        Ok(v) => Ok(v),
    }
}

} // verus!
