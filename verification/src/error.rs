use vstd::prelude::*;

verus! {

/// Everything that can go wrong while loading or querying the model database.
#[derive(Debug)]
pub enum Error {
    /// A file or directory could not be read.
    IoError(String),
    /// A file is not valid TOML for what it describes.
    TomlParse(String),
    /// A provider or model file breaks a rule; the text says which.
    Validation(String),
    /// A required file is missing; the path is given.
    FileNotFound(String),
    /// The providers directory is missing; the path is given.
    DirectoryNotFound(String),
    /// A path could not be turned into an id.
    InvalidPath(String),
    /// A value could not be turned into JSON.
    Serialization(String),
    /// No provider has the given id.
    ProviderNotFound(String),
    /// No model has the given `<provider id>/<model id>`.
    ModelNotFound(String),
}

} // verus!
