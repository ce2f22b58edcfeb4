//! The plainest way to handle a connection: read the lines of the request
//! up to the first empty one, and answer with one page whatever they say.

use crate::htmlres::HtmlResponseBuilder;
use crate::http::response::{status_line_of, wire_text, ResStatus};
use crate::http::wire::{head, read_head_lines};
use crate::text::texts;
use vstd::prelude::*;

verus! {

/// The response that carries `page`: the status `OK`, no header, and the page.
pub open spec fn page_reply(page: Seq<char>) -> Seq<char> {
    wire_text(status_line_of(ResStatus::OK), Seq::empty(), page)
}

/// Handles one connection: the lines of the request, read up to the first
/// empty line or the end of `stream`, and the response that carries `page`.
/// `None`, and so nothing to send, where a line is not UTF-8.
pub fn process(stream: &[u8], page: String) -> (r: Option<(Vec<String>, String)>)
    ensures
        r is Some <==> head(stream@) is Some,
        r matches Some((lines, reply)) ==> texts(lines@) == head(stream@).unwrap().0 && reply@
            == page_reply(page@),
{
    match read_head_lines(stream) {
        None => None,
        Some((lines, _)) => {
            let response = HtmlResponseBuilder::default(page).build();
            Some((lines, response.to_string()))
        },
    }
}

} // verus!
