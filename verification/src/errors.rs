//! The error taxonomy of the engine.
//!
//! Each variant carries a human-readable message; the variant itself is the
//! machine-readable kind that callers dispatch on.

use vstd::prelude::*;

verus! {

/// Central failure enumeration of the processing engine.
#[derive(Debug)]
pub enum ProcessorError {
    /// Open/create/read/write/delete failures on local paths.
    Io(String),
    /// The input bytes are not valid JSON.
    Parse(String),
    /// Business-rule violations: wrong top-level shape, missing expected key.
    Schema(String),
    /// A byte-to-text repair produced a sequence that is not valid UTF-8.
    Encoding(String),
    /// The columnar format cannot represent a value or type.
    Serialization(String),
}

impl ProcessorError {
    /// A short diagnostic line naming the kind and carrying the message.
    pub fn describe(&self) -> (r: String)
        ensures
            r@ == self.spec_describe(),
    {
        let (tag, msg): (&str, &String) = match self {
            ProcessorError::Io(m) => ("[I/O] ", m),
            ProcessorError::Parse(m) => ("[Parse] ", m),
            ProcessorError::Schema(m) => ("[Schema] ", m),
            ProcessorError::Encoding(m) => ("[Encoding] ", m),
            ProcessorError::Serialization(m) => ("[Serialization] ", m),
        };
        let mut out = String::new();
        out.append(tag);
        out.append(msg.as_str());
        out
    }

    /// The text `describe` returns: a kind tag followed by the message.
    pub open spec fn spec_describe(&self) -> Seq<char> {
        match self {
            ProcessorError::Io(m) => "[I/O] "@ + m@,
            ProcessorError::Parse(m) => "[Parse] "@ + m@,
            ProcessorError::Schema(m) => "[Schema] "@ + m@,
            ProcessorError::Encoding(m) => "[Encoding] "@ + m@,
            ProcessorError::Serialization(m) => "[Serialization] "@ + m@,
        }
    }
}

} // verus!
