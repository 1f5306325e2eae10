//! A few common media types, ready for registration.
use vstd::prelude::*;

verus! {

use crate::content::MediaType;

/// The media type `application/json`.
pub struct ApplicationJson;

impl MediaType for ApplicationJson {
    open spec fn spec_mime_type() -> Seq<char> {
        "application"@
    }

    open spec fn spec_mime_subtype() -> Seq<char> {
        "json"@
    }

    fn mime_type() -> (r: String)
        ensures
            r@ == Self::spec_mime_type(),
    {
        "application".to_owned()
    }

    fn mime_subtype() -> (r: String)
        ensures
            r@ == Self::spec_mime_subtype(),
    {
        "json".to_owned()
    }
}

/// The media type `application/octet-stream`.
pub struct ApplicationOctetStream;

impl MediaType for ApplicationOctetStream {
    open spec fn spec_mime_type() -> Seq<char> {
        "application"@
    }

    open spec fn spec_mime_subtype() -> Seq<char> {
        "octet-stream"@
    }

    fn mime_type() -> (r: String)
        ensures
            r@ == Self::spec_mime_type(),
    {
        "application".to_owned()
    }

    fn mime_subtype() -> (r: String)
        ensures
            r@ == Self::spec_mime_subtype(),
    {
        "octet-stream".to_owned()
    }
}

/// The media type `application/xml`.
pub struct ApplicationXml;

impl MediaType for ApplicationXml {
    open spec fn spec_mime_type() -> Seq<char> {
        "application"@
    }

    open spec fn spec_mime_subtype() -> Seq<char> {
        "xml"@
    }

    fn mime_type() -> (r: String)
        ensures
            r@ == Self::spec_mime_type(),
    {
        "application".to_owned()
    }

    fn mime_subtype() -> (r: String)
        ensures
            r@ == Self::spec_mime_subtype(),
    {
        "xml".to_owned()
    }
}

/// The media type `text/html`.
pub struct TextHtml;

impl MediaType for TextHtml {
    open spec fn spec_mime_type() -> Seq<char> {
        "text"@
    }

    open spec fn spec_mime_subtype() -> Seq<char> {
        "html"@
    }

    fn mime_type() -> (r: String)
        ensures
            r@ == Self::spec_mime_type(),
    {
        "text".to_owned()
    }

    fn mime_subtype() -> (r: String)
        ensures
            r@ == Self::spec_mime_subtype(),
    {
        "html".to_owned()
    }
}

/// The media type `text/plain`.
pub struct TextPlain;

impl MediaType for TextPlain {
    open spec fn spec_mime_type() -> Seq<char> {
        "text"@
    }

    open spec fn spec_mime_subtype() -> Seq<char> {
        "plain"@
    }

    fn mime_type() -> (r: String)
        ensures
            r@ == Self::spec_mime_type(),
    {
        "text".to_owned()
    }

    fn mime_subtype() -> (r: String)
        ensures
            r@ == Self::spec_mime_subtype(),
    {
        "plain".to_owned()
    }
}

/// The media type `application/www-form-urlencoded`, as declared by
/// form-encoded request bodies.
pub struct ApplicationWwwFormUrlencoded;

impl MediaType for ApplicationWwwFormUrlencoded {
    open spec fn spec_mime_type() -> Seq<char> {
        "application"@
    }

    open spec fn spec_mime_subtype() -> Seq<char> {
        "www-form-urlencoded"@
    }

    fn mime_type() -> (r: String)
        ensures
            r@ == Self::spec_mime_type(),
    {
        "application".to_owned()
    }

    fn mime_subtype() -> (r: String)
        ensures
            r@ == Self::spec_mime_subtype(),
    {
        "www-form-urlencoded".to_owned()
    }
}

} // verus!
