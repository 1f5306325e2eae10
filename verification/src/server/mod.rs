//! Server components: the per-request processing core and the error type of
//! the serving loop. The listening socket and the read/write loop live in
//! the application shell around this library.
use vstd::prelude::*;

pub mod stream;

verus! {

/// Why serving one request failed at the transport: the failure never
/// carries over to later requests.
#[derive(Debug)]
pub struct ServerError {
    message: String,
}

impl View for ServerError {
    type V = Seq<char>;

    closed spec fn view(&self) -> Seq<char> {
        self.message@
    }
}

impl ServerError {
    /// Record why serving one request failed.
    pub fn new(message: &str) -> (r: Self)
        ensures
            r@ == message@,
    {
        Self { message: message.to_owned() }
    }

    /// The recorded message.
    pub fn message(&self) -> (r: &String)
        ensures
            r@ == self@,
    {
        &self.message
    }
}

/// Something that serves requests one at a time. The serve-forever loop
/// around `serve_one` belongs to the application shell, which keeps
/// accepting whatever one request's outcome was.
pub trait Server<C> {
    /// Serve one request.
    fn serve_one(&mut self) -> Result<(), ServerError>;
}

} // verus!
