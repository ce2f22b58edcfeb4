//! A handler that answers every request with one page.

use crate::http::wire::head;
use crate::reqhandler::page_reply;
use crate::text::texts;
use vstd::prelude::*;

verus! {

/// A handler without stages or routes.
pub struct RequestHandler {}

impl RequestHandler {
    /// Handles one connection: the lines of the request, read up to the first
    /// empty line or the end of `stream`, and the response that carries `page`.
    /// `None`, and so nothing to send, where a line is not UTF-8.
    pub fn process(&self, stream: &[u8], page: String) -> (r: Option<(Vec<String>, String)>)
        ensures
            r is Some <==> head(stream@) is Some,
            r matches Some((lines, reply)) ==> texts(lines@) == head(stream@).unwrap().0
                && reply@ == page_reply(page@),
    {
        crate::reqhandler::process(stream, page)
    }
}

} // verus!
