//! Streaming extraction of typed records from XML-like event streams, and a
//! key-based correlation of two record collections into combined output rows.

pub mod correlate;
pub mod digits;
pub mod extract;
pub mod inputs;
pub mod record_error;
pub mod record_name;
pub mod text;
pub mod xml;

pub use correlate::match_error_to_name;
pub use correlate::Output;
pub use extract::FromXmlEvents;
pub use extract::XmlEvents;
pub use inputs::InputPaths;
pub use inputs::InputPathsError;
pub use record_error::RecordError;
pub use record_name::RecordName;
pub use text::remove_excess_whitespace;
