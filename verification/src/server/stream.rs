//! Serving over a generic byte stream: the verified per-request core, from
//! the bytes of one request to the bytes of its response. The reads and
//! writes around it belong to the application shell.
use vstd::prelude::*;

verus! {

use vstd::string::StringExecFns;
use vstd::utf8::encode_utf8;
use crate::handler::{Handler, Res};
use crate::request::parser::{req_matches, sp_parse, RequestParser};
use crate::request::Request;
use crate::response::{spec_response_bytes, status, Response};
use crate::text::dec_chars;

/// The text a parse failure is answered with, as the 400 response's body.
pub open spec fn parse_error_text(e: (int, Seq<char>)) -> Seq<char> {
    "Error parsing request at position "@ + dec_chars(e.0) + ": "@ + e.1
}

/// What the response head of a served outcome looks like: the handler's
/// response headers, with the server identity and the connection policy
/// appended.
pub open spec fn served_headers(
    hs: Seq<(Seq<char>, Seq<char>)>,
    server_tag: Seq<char>,
) -> Seq<(Seq<char>, Seq<char>)> {
    hs.push(("Server"@, server_tag)).push(("Connection"@, "keep-alive"@))
}

/// The server identity advertised in responses, as characters.
pub open spec fn spec_server_tag() -> Seq<char> {
    "jbhttp::StreamServer/"@ + crate::VERSION@
}

/// Serves requests over a generic duplex stream: the stream and its reads
/// and writes stay with the application shell; the verified core is
/// [`StreamServer::respond`].
pub struct StreamServer<H, S> {
    pub handler: H,
    pub stream: S,
    pub prompt: Option<String>,
}

impl<H, S> StreamServer<H, S> {
    /// Serve over the given stream with the given handler.
    pub fn new(stream: S, handler: H) -> (r: Self)
        ensures
            r.handler == handler,
            r.stream == stream,
            r.prompt is None,
    {
        Self { handler, stream, prompt: None }
    }

    /// Set a prompt for the application shell to write before each read.
    pub fn set_prompt(&mut self, prompt: &str)
        ensures
            final(self).prompt is Some && final(self).prompt->Some_0@ == prompt@,
            final(self).handler == old(self).handler,
            final(self).stream == old(self).stream,
    {
        self.prompt = Some(prompt.to_owned());
    }

    /// The server identity advertised in responses.
    fn server_tag(&self) -> (r: String)
        ensures
            r@ == spec_server_tag(),
    {
        let mut tag = "jbhttp::StreamServer/".to_owned();
        tag.append(crate::VERSION);
        tag
    }

    /// Process the bytes of one request: parse them, run the handler on a
    /// parsed request or answer 400 carrying the parse error's text, append
    /// the server identity and connection policy, and render the response
    /// bytes.
    pub fn respond<C>(&self, input: Vec<u8>, context: C) -> (r: (Vec<u8>, C)) where
        H: Handler<Vec<u8>, Vec<u8>, Vec<u8>, C>

        ensures
            match sp_parse(input@, 0) {
                Err(e) => r.1 == context && r.0@ == spec_response_bytes(
                    400,
                    status::spec_default(400),
                    served_headers(Seq::<(Seq<char>, Seq<char>)>::empty(), spec_server_tag()),
                    Some(encode_utf8(parse_error_text(e))),
                ),
                Ok(sr) => exists|req2: Request<Vec<u8>>, m: Res<Vec<u8>, Vec<u8>>, cm: C|
                    {
                        &&& req_matches(req2, sr)
                        &&& #[trigger] self.handler.ens(req2, context, m, cm)
                        &&& r.1 == cm
                        &&& ({
                            let resp = match m {
                                Ok(resp) => resp,
                                Err(resp) => resp,
                            };
                            r.0@ == spec_response_bytes(
                                resp.status_code,
                                resp.status@,
                                served_headers(resp.spec_headers(), spec_server_tag()),
                                match resp.payload {
                                    Some(p) => Some(p@),
                                    None => None,
                                },
                            )
                        })
                    },
            },
    {
        let ghost c0 = context;
        let tag = self.server_tag();
        let ghost iv = input@;
        let mut parser = RequestParser::new(input);
        match parser.parse() {
            Ok(request) => {
                let ghost req2 = request;
                let (m, c2) = self.handler.handle(request, context);
                let ghost gm = m;
                let resp = match m {
                    Ok(resp) => resp,
                    Err(resp) => resp,
                };
                let resp = resp.with_header("Server", tag.as_str()).with_header(
                    "Connection",
                    "keep-alive",
                );
                let bytes = resp.into_bytes();
                proof {
                    assert(self.handler.ens(req2, c0, gm, c2));
                }
                (bytes, c2)
            },
            Err(e) => {
                let mut text = "Error parsing request at position ".to_owned();
                crate::text::append_dec(&mut text, e.position() as u64);
                text.append(": ");
                text.append(e.reason().as_str());
                proof {
                    assert(text@ =~= parse_error_text(e@));
                }
                let mut body: Vec<u8> = Vec::new();
                body.extend_from_slice(text.as_str().as_bytes());
                proof {
                    assert(body@ =~= encode_utf8(parse_error_text(e@)));
                }
                let resp = Response::new(400).with_payload(body).with_header(
                    "Server",
                    tag.as_str(),
                ).with_header("Connection", "keep-alive");
                let bytes = resp.into_bytes();
                (bytes, context)
            },
        }
    }
}

} // verus!
