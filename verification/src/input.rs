//! Reading all of a text source, such as standard input for a bookmark's
//! new description.

use vstd::prelude::*;

verus! {

/// Reading a source failed: what the reader reported.
#[derive(Debug)]
pub struct ReadFailed {
    pub message: String,
}

/// Reads everything `reader` yields as UTF-8 text
/// (`std::io::Read::read_to_string`). What comes back depends on the
/// source, so nothing is stated of it.
#[verifier::external_body]
pub fn read_all<R: std::io::Read>(reader: R) -> (r: Result<String, ReadFailed>) {
    let mut reader = reader;
    let mut buffer = String::new();
    match reader.read_to_string(&mut buffer) {
        Ok(_) => Ok(buffer),
        Err(e) => Err(ReadFailed { message: e.to_string() }),
    }
}

} // verus!
