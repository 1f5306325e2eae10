//! Default reason phrases for HTTP status codes.
use vstd::prelude::*;

verus! {

/// The default reason phrase for a status code, as characters.
pub open spec fn spec_default(status_code: u16) -> Seq<char> {
    if status_code == 100 {
        "Continue"@
    } else if status_code == 101 {
        "Switching Protocols"@
    } else if status_code == 200 {
        "OK"@
    } else if status_code == 201 {
        "Created"@
    } else if status_code == 202 {
        "Accepted"@
    } else if status_code == 204 {
        "No Content"@
    } else if status_code == 301 {
        "Moved Permanently"@
    } else if status_code == 302 {
        "Found"@
    } else if status_code == 304 {
        "Not Modified"@
    } else if status_code == 400 {
        "Bad Request"@
    } else if status_code == 401 {
        "Unauthorized"@
    } else if status_code == 403 {
        "Forbidden"@
    } else if status_code == 404 {
        "Not Found"@
    } else if status_code == 405 {
        "Method Not Allowed"@
    } else if status_code == 406 {
        "Not Acceptable"@
    } else if status_code == 408 {
        "Request Timeout"@
    } else if status_code == 411 {
        "Length Required"@
    } else if status_code == 413 {
        "Payload Too Large"@
    } else if status_code == 415 {
        "Unsupported Media Type"@
    } else if status_code == 500 {
        "Internal Server Error"@
    } else if status_code == 501 {
        "Not Implemented"@
    } else if status_code == 502 {
        "Bad Gateway"@
    } else if status_code == 503 {
        "Service Unavailable"@
    } else {
        "Unknown"@
    }
}

/// The default reason phrase for a status code ("OK" for 200, and so on);
/// "Unknown" for a code outside the table.
pub fn default(status_code: u16) -> (r: String)
    ensures
        r@ == spec_default(status_code),
{
    if status_code == 100 {
        "Continue".to_owned()
    } else if status_code == 101 {
        "Switching Protocols".to_owned()
    } else if status_code == 200 {
        "OK".to_owned()
    } else if status_code == 201 {
        "Created".to_owned()
    } else if status_code == 202 {
        "Accepted".to_owned()
    } else if status_code == 204 {
        "No Content".to_owned()
    } else if status_code == 301 {
        "Moved Permanently".to_owned()
    } else if status_code == 302 {
        "Found".to_owned()
    } else if status_code == 304 {
        "Not Modified".to_owned()
    } else if status_code == 400 {
        "Bad Request".to_owned()
    } else if status_code == 401 {
        "Unauthorized".to_owned()
    } else if status_code == 403 {
        "Forbidden".to_owned()
    } else if status_code == 404 {
        "Not Found".to_owned()
    } else if status_code == 405 {
        "Method Not Allowed".to_owned()
    } else if status_code == 406 {
        "Not Acceptable".to_owned()
    } else if status_code == 408 {
        "Request Timeout".to_owned()
    } else if status_code == 411 {
        "Length Required".to_owned()
    } else if status_code == 413 {
        "Payload Too Large".to_owned()
    } else if status_code == 415 {
        "Unsupported Media Type".to_owned()
    } else if status_code == 500 {
        "Internal Server Error".to_owned()
    } else if status_code == 501 {
        "Not Implemented".to_owned()
    } else if status_code == 502 {
        "Bad Gateway".to_owned()
    } else if status_code == 503 {
        "Service Unavailable".to_owned()
    } else {
        "Unknown".to_owned()
    }
}

} // verus!
