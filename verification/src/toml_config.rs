//! Loading configuration files.

use crate::text::same;
use vstd::prelude::*;

verus! {

/// Why a configuration file is not even read.
#[derive(Debug, PartialEq, Eq)]
pub enum Error {
    /// The name of the file does not end in `.toml`.
    FileExtension(String),
}

/// Whether the file at `path`, whose name has this extension, is to be read.
pub fn check_extension(path: &str, extension: Option<&str>) -> (outcome: Result<(), Error>)
    ensures
        match outcome {
            Ok(()) => extension matches Some(e) && e@ == "toml"@,
            Err(error) => {
                &&& !(extension matches Some(e) && e@ == "toml"@)
                &&& error matches Error::FileExtension(refused) && refused@ == path@
            },
        },
{
    match extension {
        Some(e) => if same(e, "toml") {
            Ok(())
        } else {
            Err(Error::FileExtension(path.to_owned()))
        },
        None => Err(Error::FileExtension(path.to_owned())),
    }
}

} // verus!
