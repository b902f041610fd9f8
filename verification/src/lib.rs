//! A minimal HTTP/1.1 message model: requests and responses are built as
//! structured values, rendered to their wire text, and read back from wire
//! text.
//!
//! Every contract is stated over the character sequences that the strings
//! hold. The wire text of a message is given by `request_text` and
//! `response_text`, what reading makes of a text by `parse_request` and
//! `parse_response`, and `roundtrip` relates the two.

pub mod decimal;
pub mod header;
pub mod parse;
pub mod request;
pub mod response;
pub mod roundtrip;
pub mod text;

pub use parse::ParseError;
pub use request::{Request, RequestView};
pub use response::{Response, ResponseView};
