//! The names an application built on this library reaches for first.
pub use crate::api::{Api, ApiHandler};
pub use crate::content::mediatypes::{
    ApplicationJson, ApplicationOctetStream, ApplicationWwwFormUrlencoded, ApplicationXml,
    TextHtml, TextPlain,
};
pub use crate::content::{Deserialize, MediaType, MediaTypeMatch, SerializationError, Serialize};
pub use crate::handler::{FnHandler, Handled, Handler, Res};
pub use crate::request::header::{Accept, ContentType, Header, HeaderParseError, MediaTypePreference};
pub use crate::request::{Method, Param, Params, RawRequest, Request};
pub use crate::response::{RawResponse, Response};
pub use crate::router::Router;
pub use crate::server::Server;
