//! Client side of the DICT dictionary protocol: request encoding and
//! response framing, verified.

pub mod cmd;
pub mod reader;
pub mod reader_laws;
pub mod response;
pub mod status;
pub mod text;

pub use cmd::Command;
pub use reader::{read_lines, Phase, ReadError, ResponseReader};
pub use response::Response;
pub use status::StatusCode;
