//! HTTP response and its wire serialization.
use vstd::prelude::*;

pub mod status;

verus! {

use vstd::string::StringExecFns;
use vstd::utf8::encode_utf8;
use crate::text::{dec_chars, pairs_view};

/// An HTTP response: a status code with its reason phrase, an ordered header
/// list (duplicate names allowed), and an optional typed payload.
#[derive(Debug)]
pub struct Response<T> {
    pub status_code: u16,
    pub status: String,
    pub headers: Vec<(String, String)>,
    pub payload: Option<T>,
}

/// A response whose payload is raw bytes, ready for serialization.
pub type RawResponse = Response<Vec<u8>>;

/// The characters of one rendered header line.
pub open spec fn header_line_chars(h: (Seq<char>, Seq<char>)) -> Seq<char> {
    h.0 + ": "@ + h.1 + "\r\n"@
}

/// The characters of a rendered header block, one line per header, in order.
pub open spec fn headers_chars(hs: Seq<(Seq<char>, Seq<char>)>) -> Seq<char>
    decreases hs.len(),
{
    if hs.len() == 0 {
        Seq::<char>::empty()
    } else {
        header_line_chars(hs[0]) + headers_chars(hs.drop_first())
    }
}

/// Rendering a header block one header longer appends one more line.
pub proof fn lemma_headers_chars_push(hs: Seq<(Seq<char>, Seq<char>)>, h: (Seq<char>, Seq<char>))
    ensures
        headers_chars(hs.push(h)) == headers_chars(hs) + header_line_chars(h),
    decreases hs.len(),
{
    if hs.len() == 0 {
        assert(hs.push(h).drop_first() =~= hs);
        assert(headers_chars(hs.push(h)) =~= headers_chars(hs) + header_line_chars(h));
    } else {
        assert(hs.push(h).drop_first() =~= hs.drop_first().push(h));
        lemma_headers_chars_push(hs.drop_first(), h);
        assert(headers_chars(hs.push(h)) =~= headers_chars(hs) + header_line_chars(h));
    }
}

impl<T> Response<T> {
    /// The response's header list, as pairs of character sequences.
    pub open spec fn spec_headers(&self) -> Seq<(Seq<char>, Seq<char>)> {
        pairs_view(self.headers@)
    }

    /// Create a new response. The reason phrase is the table default for the
    /// given code (200 -> "OK", and so on).
    pub fn new(status_code: u16) -> (r: Self)
        ensures
            r.status_code == status_code,
            r.status@ == status::spec_default(status_code),
            r.spec_headers() == Seq::<(Seq<char>, Seq<char>)>::empty(),
            r.payload is None,
    {
        let r = Self { status_code, status: status::default(status_code), headers: Vec::new(), payload: None };
        proof {
            assert(r.spec_headers() =~= Seq::<(Seq<char>, Seq<char>)>::empty());
        }
        r
    }

    /// The headers set so far, in order.
    pub fn headers(&self) -> (r: Vec<(String, String)>)
        ensures
            pairs_view(r@) == self.spec_headers(),
    {
        let mut out: Vec<(String, String)> = Vec::new();
        let mut i: usize = 0;
        while i < self.headers.len()
            invariant
                0 <= i <= self.headers.len(),
                pairs_view(out@) == self.spec_headers().take(i as int),
            decreases self.headers.len() - i,
        {
            let name = self.headers[i].0.clone();
            let value = self.headers[i].1.clone();
            proof {
                assert(name@ == self.headers@[i as int].0@);
                assert(value@ == self.headers@[i as int].1@);
            }
            let ghost pre_out = out@;
            proof {
                assert(pairs_view(pre_out).len() == pre_out.len());
                assert(pairs_view(pre_out) == self.spec_headers().take(i as int));
                assert(self.spec_headers().take(i as int).len() == i);
                assert(pre_out.len() == i);
            }
            out.push((name, value));
            i = i + 1;
            proof {
                assert(out@.len() == i);
                assert(pairs_view(out@).len() == i);
                assert(forall|k: int| 0 <= k < i ==> #[trigger] pairs_view(out@)[k] == (
                    out@[k].0@,
                    out@[k].1@,
                ));
                assert(forall|k: int| 0 <= k < i - 1 ==> out@[k] == pre_out[k]);
                assert(pairs_view(out@)[i - 1] == self.spec_headers()[i - 1]);
                assert(pairs_view(out@) =~= self.spec_headers().take(i as int));
            }
        }
        proof {
            assert(self.spec_headers().take(self.headers@.len() as int) =~= self.spec_headers());
        }
        out
    }

    /// Change the status code; the reason phrase is kept.
    pub fn with_status_code(self, status_code: u16) -> (r: Self)
        ensures
            r.status_code == status_code,
            r.status == self.status,
            r.spec_headers() == self.spec_headers(),
            r.payload == self.payload,
    {
        Self { status_code, ..self }
    }

    /// Change the reason phrase.
    pub fn with_status(self, status: &str) -> (r: Self)
        ensures
            r.status_code == self.status_code,
            r.status@ == status@,
            r.spec_headers() == self.spec_headers(),
            r.payload == self.payload,
    {
        Self { status: status.to_owned(), ..self }
    }

    /// Add one header at the end of the header list.
    pub fn with_header(self, header: &str, value: &str) -> (r: Self)
        ensures
            r.status_code == self.status_code,
            r.status == self.status,
            r.spec_headers() == self.spec_headers().push((header@, value@)),
            r.payload == self.payload,
    {
        let mut headers = self.headers;
        headers.push((header.to_owned(), value.to_owned()));
        let r = Self { status_code: self.status_code, status: self.status, headers, payload: self.payload };
        proof {
            assert(r.spec_headers() =~= self.spec_headers().push((header@, value@)));
        }
        r
    }

    /// Change the payload type, discarding any payload held so far.
    pub fn into_type<S>(self) -> (r: Response<S>)
        ensures
            r.status_code == self.status_code,
            r.status == self.status,
            r.spec_headers() == self.spec_headers(),
            r.payload is None,
    {
        Response { status_code: self.status_code, status: self.status, headers: self.headers, payload: None }
    }

    /// Change the payload type to raw bytes, discarding any payload.
    pub fn into_raw(self) -> (r: RawResponse)
        ensures
            r.status_code == self.status_code,
            r.status == self.status,
            r.spec_headers() == self.spec_headers(),
            r.payload is None,
    {
        self.into_type::<Vec<u8>>()
    }

    /// Set the payload.
    pub fn with_payload(self, payload: T) -> (r: Self)
        ensures
            r.status_code == self.status_code,
            r.status == self.status,
            r.spec_headers() == self.spec_headers(),
            r.payload == Some(payload),
    {
        Self { payload: Some(payload), ..self }
    }
}

/// The characters of the rendered status line and header block, ending with
/// the blank line that closes the header section.
pub open spec fn response_head_chars(
    status_code: u16,
    status: Seq<char>,
    hs: Seq<(Seq<char>, Seq<char>)>,
) -> Seq<char> {
    "HTTP/1.1 "@ + dec_chars(status_code as int) + " "@ + status + "\r\n"@ + headers_chars(hs)
        + "\r\n"@
}

/// The full wire bytes of a response: the emitted header list carries a
/// computed `Content-Length` exactly when a payload is present, and the
/// payload bytes follow the head.
pub open spec fn spec_response_bytes(
    status_code: u16,
    status: Seq<char>,
    hs: Seq<(Seq<char>, Seq<char>)>,
    payload: Option<Seq<u8>>,
) -> Seq<u8> {
    let len = match payload {
        Some(p) => p.len() as int,
        None => 0,
    };
    let hs2 = if len > 0 {
        hs.push(("Content-Length"@, dec_chars(len)))
    } else {
        hs
    };
    let body = match payload {
        Some(p) => p,
        None => Seq::<u8>::empty(),
    };
    encode_utf8(response_head_chars(status_code, status, hs2)) + body
}

impl Response<Vec<u8>> {
    /// The length of the payload, or zero without one.
    pub fn content_length(&self) -> (r: usize)
        ensures
            r == match self.payload {
                Some(p) => p@.len(),
                None => 0,
            },
    {
        match &self.payload {
            Some(body) => body.len(),
            None => 0,
        }
    }

    /// Render the response as HTTP/1.1 wire bytes. The emitted
    /// `Content-Length` is computed from the payload, never taken from the
    /// caller-set headers.
    pub fn into_bytes(self) -> (r: Vec<u8>)
        ensures
            r@ == spec_response_bytes(
                self.status_code,
                self.status@,
                self.spec_headers(),
                match self.payload {
                    Some(p) => Some(p@),
                    None => None,
                },
            ),
    {
        let ghost orig = self;
        let content_length = self.content_length();
        let this = if content_length > 0 {
            let cl = crate::text::dec_string(content_length as u64);
            self.with_header("Content-Length", cl.as_str())
        } else {
            self
        };
        proof {
            reveal_strlit("Content-Length");
        }

        let mut head = String::new();
        head.append("HTTP/1.1 ");
        crate::text::append_dec(&mut head, this.status_code as u64);
        head.append(" ");
        head.append(this.status.as_str());
        head.append("\r\n");

        let mut i: usize = 0;
        while i < this.headers.len()
            invariant
                0 <= i <= this.headers.len(),
                head@ == "HTTP/1.1 "@ + dec_chars(this.status_code as int) + " "@ + this.status@
                    + "\r\n"@ + headers_chars(this.spec_headers().take(i as int)),
            decreases this.headers.len() - i,
        {
            let ghost pre = head@;
            head.append(this.headers[i].0.as_str());
            head.append(": ");
            head.append(this.headers[i].1.as_str());
            head.append("\r\n");
            proof {
                lemma_headers_chars_push(this.spec_headers().take(i as int), this.spec_headers()[i as int]);
                assert(this.spec_headers().take(i as int).push(this.spec_headers()[i as int])
                    =~= this.spec_headers().take(i as int + 1));
                assert(head@ =~= pre + header_line_chars(this.spec_headers()[i as int]));
                assert(head@ =~= "HTTP/1.1 "@ + dec_chars(this.status_code as int) + " "@
                    + this.status@ + "\r\n"@ + headers_chars(this.spec_headers().take(i as int + 1)));
            }
            i = i + 1;
        }
        proof {
            assert(this.spec_headers().take(this.headers@.len() as int) =~= this.spec_headers());
        }
        head.append("\r\n");

        let mut bytes: Vec<u8> = Vec::new();
        bytes.extend_from_slice(head.as_str().as_bytes());
        proof {
            assert(head@ =~= response_head_chars(
                this.status_code,
                this.status@,
                this.spec_headers(),
            ));
            assert(bytes@ =~= encode_utf8(head@));
        }
        match &this.payload {
            Some(body) => {
                bytes.extend_from_slice(body.as_slice());
            },
            None => {},
        }
        proof {
            if orig.payload is Some && orig.payload->Some_0@.len() > 0 {
                assert(this.spec_headers() =~= orig.spec_headers().push(
                    ("Content-Length"@, dec_chars(orig.payload->Some_0@.len() as int)),
                ));
            }
            assert(bytes@ =~= spec_response_bytes(
                orig.status_code,
                orig.status@,
                orig.spec_headers(),
                match orig.payload {
                    Some(p) => Some(p@),
                    None => None,
                },
            ));
        }
        bytes
    }
}

} // verus!
