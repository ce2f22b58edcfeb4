//! A minimal HTTP/1.1 request pipeline: the wire-level request parser, the
//! middleware chain with its router, and the response builder.

pub mod html;
pub mod htmlres;
pub mod http;
pub mod req_handler;
pub mod reqhandler;
pub mod rhandler;
pub mod text;
pub mod text_map;
