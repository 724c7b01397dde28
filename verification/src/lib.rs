//! A stream concatenation and line-formatting library.
//!
//! Given a configuration and a sequence of input byte streams, the line
//! transducer produces the transformed output stream: optional line
//! numbering, blank-line squeezing, end-of-line marking, tab substitution
//! and non-printable-byte escaping. Every transformation is specified over
//! mathematical byte sequences and verified.

pub mod config;
pub mod escape;
pub mod laws;
pub mod lines;
pub mod number;
pub mod transducer;

pub use config::CatOptions;
pub use config::NumberingMode;
pub use escape::escape_byte;
pub use lines::split_lines;
pub use number::numbering_prefix;
pub use transducer::append_str;
pub use transducer::fast_print;
pub use transducer::is_blank;
pub use transducer::process_input;
pub use transducer::TransducerState;
