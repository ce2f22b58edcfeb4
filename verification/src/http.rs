//! The two ends of the wire: requests as they are read, responses as they are
//! written.

pub mod line;
pub mod request;
pub mod response;
pub mod wire;
