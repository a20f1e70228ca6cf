//! The addresses and content types under which programs reach Google Cloud
//! Functions.
use vstd::prelude::*;
use vstd::string::*;
use super::error::{Error, ErrorV};
use super::syntax::{Payload, PayloadV};

verus! {

/// The content type of a payload: `text/plain` for bytes, and
/// `application/json` for JSON.
pub open spec fn content_type_spec(p: PayloadV) -> Seq<char> {
    match p {
        PayloadV::Chunk(_) => "text/plain"@,
        PayloadV::Json(_) => "application/json"@,
    }
}

/// The content type under which a payload is sent to a function.
pub fn get_content_type(payload: &Payload) -> (t: &'static str)
    ensures
        t@ == content_type_spec(payload@),
{
    match payload {
        Payload::Chunk(_) => "text/plain",
        Payload::Json(_) => "application/json",
    }
}

/// The address under which the functions of `project` in `zone` are found.
pub open spec fn uri_base_spec(project: Seq<char>, zone: Seq<char>) -> Seq<char> {
    "https://"@ + zone + "-"@ + project + ".cloudfunctions.net/"@
}

/// The address under which the functions of `project` in `zone` are found.
pub fn uri_base(project: &str, zone: &str) -> (s: String)
    ensures
        s@ == uri_base_spec(project@, zone@),
{
    let s = String::from_str("https://");
    let s = s.concat(zone);
    let s = s.concat("-");
    let s = s.concat(project);
    s.concat(".cloudfunctions.net/")
}

/// The address of the function `name` under `base`: the name and a `/`
/// after the base.
pub fn function_url(base: &str, name: &str) -> (s: String)
    ensures
        s@ == base@ + name@ + "/"@,
{
    let s = String::from_str(base);
    let s = s.concat(name);
    s.concat("/")
}

/// The error of an invocation answered with HTTP status `status`, shown
/// as `status_text`, from `url`: none for a success status (200 to 299).
pub fn status_error(status: u16, status_text: &str, url: &str) -> (r: Option<Error>)
    ensures
        match r {
            None => 200 <= status < 300,
            Some(e) => !(200 <= status < 300) && e@ == ErrorV::InvokeError(
                status_text@ + " from  "@ + url@,
            ),
        },
{
    if 200 <= status && status < 300 {
        None
    } else {
        let m = String::from_str(status_text);
        let m = m.concat(" from  ");
        Some(Error::InvokeError(m.concat(url)))
    }
}

} // verus!
